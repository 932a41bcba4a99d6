use std::path::PathBuf;
use std::time::SystemTime;

use spec_viewer::app::keymap::Key;
use spec_viewer::app::loader::{load_definition, load_for_selection, doc_from_read, Resolved};
use spec_viewer::app::mouse::{
    doc_edge_at, doc_position_at, doc_position_clamped, panel_at, DocEdge, HitPanel, PanelLayout, Rect,
};
use spec_viewer::app::reducer::update;
use spec_viewer::app::search::{
    clear_search, clear_tree_search, next_match, prev_match, search, tree_next_match, tree_prev_match,
    tree_search,
};
use spec_viewer::app::{
    doc_panel_width, Action, AppState, AutoScrollDir, Control, DocView, Drag, Effect, FileInfo, FileRead,
    MouseInput, MouseKind, Panel, Pending, Popup, Scan, SearchState, Selection, TreeMode, WatchStatus,
    TREE_PANEL_PERCENT,
};
use spec_viewer::markdown::render;
use spec_viewer::spec::{
    build, DirSnapshot, DocKind, FileSnapshot, FsEntry, FsTree, NodeId, SortKey, SpecDirSnapshot, TreeSource,
};

// ------------------------------------------------------------------ helpers

fn file(dir: &str, name: &str, content: &str) -> FileSnapshot {
    FileSnapshot { name: name.to_string(), path: PathBuf::from(dir).join(name), content: content.to_string() }
}

fn spec_json(name: &str, phase: &str, approved: bool) -> String {
    format!(
        "{{\"name\": \"{name}\", \"phase\": \"{phase}\", \"updated_at\": \"2026-01-0{}T00:00:00Z\", \
         \"approvals\": {{\"requirements\": {{\"generated\": true, \"approved\": {approved}}}}}}}",
        name.len() % 9 + 1
    )
}

fn spec_dir(name: &str, files: Vec<FileSnapshot>) -> SpecDirSnapshot {
    SpecDirSnapshot { name: name.to_string(), dir: PathBuf::from(format!("/kiro/specs/{name}")), files }
}

fn fixture_snapshot() -> DirSnapshot {
    let d = |n: &str| format!("/kiro/specs/{n}");
    DirSnapshot {
        specs: vec![
            spec_dir(
                "sample-signup",
                vec![
                    file(&d("sample-signup"), "spec.json", &spec_json("sample-signup", "tasks", true)),
                    file(
                        &d("sample-signup"),
                        "requirements.md",
                        "# 요구사항\n\n## 정의\n\n회원가입 절차를 검증하는 요구사항 스펙이다.\n\n## 요구사항 1\n\n내용\n",
                    ),
                ],
            ),
            spec_dir(
                "sample-billing",
                vec![
                    file(&d("sample-billing"), "spec.json", &spec_json("sample-billing", "design", false)),
                    file(&d("sample-billing"), "requirements.md", "# 결제\n\n본문\n"),
                ],
            ),
            spec_dir(
                "no-approvals",
                vec![
                    file(&d("no-approvals"), "spec.json", "{\"name\": \"no-approvals\"}"),
                    file(&d("no-approvals"), "requirements.md", "# 승인 없음\n"),
                ],
            ),
            spec_dir("broken-json", vec![file(&d("broken-json"), "spec.json", "{ not json")]),
        ],
        steering: vec![
            file("/kiro/steering", "product.md", "# Product\n"),
            file("/kiro/steering", "tech.md", "# Tech\n"),
            file("/kiro/steering", "domain-terms.md", "# Terms\n"),
        ],
    }
}

fn test_state() -> AppState {
    let root = build(&fixture_snapshot());
    AppState::new(
        TreeSource::Kiro(root),
        PathBuf::from("/kiro"),
        (120, 40),
        WatchStatus::Live,
        TreeMode::Auto,
        true,
    )
}

fn spec_node(name: &str) -> Vec<NodeId> {
    vec![NodeId::Spec(name.to_string())]
}

fn key_action(state: &mut AppState, key: Key) -> Control {
    update(state, Action::Key(key))
}

fn mouse(kind: MouseKind, column: u16, row: u16) -> Action {
    Action::Mouse(MouseInput { kind, column, row })
}

fn two_panel_layout() -> PanelLayout {
    PanelLayout {
        tree: Rect::new(0, 0, 30, 39),
        sep: Rect::new(30, 0, 1, 39),
        doc: Rect::new(31, 0, 89, 39),
    }
}

fn inline_doc(src: &str) -> DocView {
    DocView::Rendered { path: PathBuf::from("inline.md"), r: render(src, 80), meta: FileInfo::default() }
}

fn doc_state_with_lines(n: usize) -> AppState {
    let mut state = test_state();
    state.layout = two_panel_layout();
    state.doc = inline_doc(&"line\n\n".repeat(n));
    state
}

fn headings_of(state: &AppState) -> Vec<usize> {
    match &state.doc {
        DocView::Rendered { r, .. } | DocView::Definition { text: r, .. } => r.headings.iter().map(|h| h.line).collect(),
        _ => Vec::new(),
    }
}

fn spec_names(state: &AppState) -> Vec<String> {
    match &state.root {
        TreeSource::Kiro(root) => root.specs.iter().map(|s| s.name.clone()).collect(),
        TreeSource::Files(_) => panic!("expected a .kiro root"),
    }
}

fn last_effect(state: &AppState) -> &Effect {
    state.effects.last().expect("an effect")
}

const FIXTURE: &str = "line one\n\nLINE TWO\n\nline three\n\nfour";

// ------------------------------------------------------------------ mouse

#[test]
fn panel_at_resolves_each_region() {
    let l = two_panel_layout();
    assert_eq!(panel_at(&l, 5, 10), Some(HitPanel::Tree));
    assert_eq!(panel_at(&l, 30, 10), Some(HitPanel::Sep));
    assert_eq!(panel_at(&l, 60, 10), Some(HitPanel::Doc));
}

#[test]
fn panel_at_outside_all_regions_is_none() {
    let l = two_panel_layout();
    assert_eq!(panel_at(&l, 5, 39), None);
}

#[test]
fn panel_at_zero_size_region_never_matches() {
    let l = PanelLayout { tree: Rect::default(), sep: Rect::default(), doc: Rect::new(0, 0, 120, 39) };
    assert_eq!(panel_at(&l, 5, 2), Some(HitPanel::Doc));
}

#[test]
fn doc_position_at_accounts_for_border_and_scroll() {
    let area = Rect::new(10, 5, 40, 20);
    assert_eq!(doc_position_at(area, 0, 11, 6), Some((0, 0)));
    assert_eq!(doc_position_at(area, 7, 13, 7), Some((8, 2)));
}

#[test]
fn doc_position_at_on_border_or_outside_is_none() {
    let area = Rect::new(10, 5, 40, 20);
    assert_eq!(doc_position_at(area, 0, 10, 6), None, "left border column");
    assert_eq!(doc_position_at(area, 0, 11, 5), None, "top border row");
    assert_eq!(doc_position_at(area, 0, 200, 200), None, "far outside");
}

#[test]
fn doc_position_clamped_matches_doc_position_at_inside_the_panel() {
    let area = Rect::new(10, 5, 40, 20);
    assert_eq!(doc_position_clamped(area, 7, 13, 7), (8, 2));
}

#[test]
fn doc_position_clamped_pins_to_the_nearest_edge_when_outside() {
    let area = Rect::new(10, 5, 40, 20);
    assert_eq!(doc_position_clamped(area, 3, 20, 0), (3, 9));
    assert_eq!(doc_position_clamped(area, 3, 20, 999), (3 + 17, 9));
    assert_eq!(doc_position_clamped(area, 3, 0, 7), (4, 0));
    assert_eq!(doc_position_clamped(area, 3, 999, 7), (4, 37));
}

#[test]
fn doc_edge_at_detects_top_and_bottom_rows_only() {
    let area = Rect::new(10, 5, 40, 20);
    assert_eq!(doc_edge_at(area, 5), Some(DocEdge::Top));
    assert_eq!(doc_edge_at(area, 6), Some(DocEdge::Top));
    assert_eq!(doc_edge_at(area, 14), None);
    assert_eq!(doc_edge_at(area, 23), Some(DocEdge::Bottom));
    assert_eq!(doc_edge_at(area, 24), Some(DocEdge::Bottom));
}

#[test]
fn degenerate_doc_area_pins_to_scroll_and_has_no_edge() {
    let area = Rect::new(10, 5, 1, 1);
    assert_eq!(doc_position_clamped(area, 4, 11, 6), (4, 0));
    assert_eq!(doc_edge_at(area, 6), None);
    assert_eq!(doc_position_at(area, 4, 10, 5), None);
}

// ------------------------------------------------------------------ layout

#[test]
fn doc_panel_width_matches_full_width_when_tree_hidden() {
    for width in [40, 80, 120] {
        let mut state = test_state();
        state.size = (width, 40);
        state.tree_visible = false;
        assert_eq!(doc_panel_width(&state), width);
    }
}

#[test]
fn doc_panel_width_matches_full_width_in_single_mode() {
    for width in [40, 80, 120] {
        let mut state = test_state();
        state.size = (width, 40);
        state.tree_mode = TreeMode::Single;
        assert_eq!(doc_panel_width(&state), width);
    }
}

#[test]
fn doc_panel_width_matches_full_width_below_narrow_threshold() {
    let mut state = test_state();
    state.size = (40, 40);
    assert_eq!(doc_panel_width(&state), 40);
}

#[test]
fn doc_panel_width_subtracts_tree_and_separator_at_two_panel_widths() {
    for width in [80u16, 120] {
        let mut state = test_state();
        state.size = (width, 40);
        let expected_tree_width = (width as u32 * TREE_PANEL_PERCENT as u32 / 100) as u16;
        assert_eq!(doc_panel_width(&state), width - expected_tree_width - 1);
    }
}

#[test]
fn doc_panel_width_uses_a_dragged_split() {
    let mut state = test_state();
    state.size = (120, 40);
    state.split = 50;
    assert_eq!(doc_panel_width(&state), 69);
}

#[test]
fn toggle_tree_key_flips_visibility_under_auto_and_hidden() {
    let mut state = test_state();
    state.tree_mode = TreeMode::Auto;
    assert!(state.tree_visible);
    key_action(&mut state, Key::Char('T'));
    assert!(!state.tree_visible);
    key_action(&mut state, Key::Char('T'));
    assert!(state.tree_visible);

    state.tree_mode = TreeMode::Hidden;
    state.tree_visible = false;
    update(&mut state, Action::ToggleTree);
    assert!(state.tree_visible);
}

#[test]
fn toggle_tree_is_a_no_op_under_always() {
    let mut state = test_state();
    state.tree_mode = TreeMode::Always;
    state.tree_visible = true;
    update(&mut state, Action::ToggleTree);
    assert!(state.tree_visible);
}

#[test]
fn layout_hotkeys_resolve_to_the_expected_tree_mode() {
    let mut state = test_state();
    key_action(&mut state, Key::Char('2'));
    assert_eq!(state.tree_mode, TreeMode::Hidden);
    assert!(!state.tree_visible);
    key_action(&mut state, Key::Char('3'));
    assert_eq!(state.tree_mode, TreeMode::Always);
    assert!(state.tree_visible);
    key_action(&mut state, Key::Char('4'));
    assert_eq!(state.tree_mode, TreeMode::Single);
    assert!(state.tree_visible);
    assert!(!state.doc_focus);
    key_action(&mut state, Key::Char('1'));
    assert_eq!(state.tree_mode, TreeMode::Auto);
    assert!(state.tree_visible);
}

#[test]
fn set_tree_mode_action_matches_the_hotkey_behavior() {
    let mut state = test_state();
    update(&mut state, Action::SetTreeMode(TreeMode::Single));
    assert_eq!(state.tree_mode, TreeMode::Single);
    assert!(state.tree_visible);
}

#[test]
fn hiding_the_tree_while_it_is_focused_moves_focus_to_doc() {
    let mut state = test_state();
    state.tree_mode = TreeMode::Auto;
    state.focus = Panel::Tree;
    update(&mut state, Action::ToggleTree);
    assert!(!state.tree_visible);
    assert_eq!(state.focus, Panel::Doc);
}

#[test]
fn switch_panel_is_a_no_op_while_tree_is_hidden() {
    let mut state = test_state();
    state.tree_visible = false;
    state.focus = Panel::Doc;
    update(&mut state, Action::Key(Key::Tab));
    assert_eq!(state.focus, Panel::Doc);
}

#[test]
fn switch_panel_key_toggles_focus() {
    let mut state = test_state();
    assert_eq!(state.focus, Panel::Tree);
    assert_eq!(key_action(&mut state, Key::Tab), Control::Continue);
    assert_eq!(state.focus, Panel::Doc);
    assert_eq!(key_action(&mut state, Key::Tab), Control::Continue);
    assert_eq!(state.focus, Panel::Tree);
}

#[test]
fn quit_action_returns_quit() {
    let mut state = test_state();
    assert_eq!(update(&mut state, Action::Quit), Control::Quit);
}

#[test]
fn quit_key_returns_quit() {
    let mut state = test_state();
    assert_eq!(key_action(&mut state, Key::Char('q')), Control::Quit);
}

// ------------------------------------------------------------------ selection and loading

#[test]
fn select_key_asks_for_the_tree_selection() {
    let mut state = test_state();
    key_action(&mut state, Key::Enter);
    assert!(matches!(last_effect(&state), Effect::ReportSelection));
}

#[test]
fn select_key_loads_doc_node_into_rendered_view() {
    let mut state = test_state();
    let path = vec![
        NodeId::Spec("sample-signup".to_string()),
        NodeId::Doc("sample-signup".to_string(), DocKind::Requirements),
    ];
    update(&mut state, Action::Select(path));
    let wanted = PathBuf::from("/kiro/specs/sample-signup/requirements.md");
    match last_effect(&state) {
        Effect::ReadDoc(p) => assert_eq!(p, &wanted),
        other => panic!("expected a read, got {other:?}"),
    }
    assert!(matches!(&state.pending, Some(Pending::Select { path }) if path == &wanted));

    let bytes = b"# Title\n\nbody\n".to_vec();
    update(&mut state, Action::DocRead(FileRead::Bytes { bytes, modified: SystemTime::UNIX_EPOCH }));
    match &state.doc {
        DocView::Rendered { path, meta, .. } => {
            assert_eq!(path.file_name().unwrap(), "requirements.md");
            assert_eq!(meta.size, 14);
            assert_eq!(meta.lines, 3);
        },
        _ => panic!("expected a rendered view"),
    }
    assert_eq!(state.scroll, 0);
    assert!(state.pending.is_none());
}

#[test]
fn select_key_on_spec_node_loads_definition() {
    let mut state = test_state();
    update(&mut state, Action::Select(spec_node("sample-signup")));
    assert!(matches!(state.doc, DocView::Definition { .. }));
    assert_eq!(state.scroll, 0);
    assert!(state.effects.is_empty());
}

#[test]
fn select_key_on_stale_path_is_empty_without_panic() {
    let mut state = test_state();
    update(&mut state, Action::Select(spec_node("does-not-exist")));
    assert!(matches!(state.doc, DocView::Empty));
}

#[test]
fn single_mode_selecting_a_doc_switches_to_doc_full_width() {
    let mut state = test_state();
    update(&mut state, Action::SetTreeMode(TreeMode::Single));
    assert!(!state.doc_focus);
    update(&mut state, Action::Select(spec_node("sample-signup")));
    assert!(state.doc_focus);
    assert_eq!(state.focus, Panel::Doc);
}

#[test]
fn single_mode_esc_returns_to_the_tree() {
    let mut state = test_state();
    update(&mut state, Action::SetTreeMode(TreeMode::Single));
    update(&mut state, Action::Select(spec_node("sample-signup")));
    assert!(state.doc_focus);
    key_action(&mut state, Key::Esc);
    assert!(!state.doc_focus);
    assert_eq!(state.focus, Panel::Tree);
}

#[test]
fn single_mode_selecting_an_empty_node_does_not_switch_to_doc() {
    let mut state = test_state();
    update(&mut state, Action::SetTreeMode(TreeMode::Single));
    update(&mut state, Action::Select(vec![NodeId::SteeringGroup]));
    assert!(!state.doc_focus);
    assert!(matches!(state.doc, DocView::Empty));
}

#[test]
fn selecting_a_new_doc_clears_prior_search_highlight() {
    let mut state = test_state();
    state.doc = inline_doc(FIXTURE);
    search(&mut state, "line");
    assert!(!state.search.matches.is_empty());
    update(&mut state, Action::Select(spec_node("sample-billing")));
    assert_eq!(state.search, SearchState::default());
}

#[test]
fn clicking_a_spec_row_opens_and_toggles_it() {
    let mut state = test_state();
    update(&mut state, Action::Click(spec_node("sample-signup")));
    assert!(matches!(state.doc, DocView::Definition { .. }));
    match last_effect(&state) {
        Effect::TreeToggle(p) => assert_eq!(p, &spec_node("sample-signup")),
        other => panic!("expected a toggle, got {other:?}"),
    }
}

#[test]
fn clicking_a_steering_row_reads_it_without_toggling() {
    let mut state = test_state();
    update(&mut state, Action::Click(vec![NodeId::SteeringGroup, NodeId::Steering("tech.md".to_string())]));
    assert_eq!(state.effects.len(), 1);
    match last_effect(&state) {
        Effect::ReadDoc(p) => assert_eq!(p, &PathBuf::from("/kiro/steering/tech.md")),
        other => panic!("expected a read, got {other:?}"),
    }
}

#[test]
fn a_slot_kind_the_spec_lacks_is_missing() {
    let spec = &build(&fixture_snapshot()).specs[0];
    match load_for_selection(spec, Some(&DocKind::Other("zzz".to_string())), 80) {
        Resolved::Show(DocView::Missing(p)) => {
            assert_eq!(p, PathBuf::from("/kiro/specs/sample-signup/Other(\"zzz\")"))
        },
        _ => panic!("expected a missing view"),
    }
}

#[test]
fn load_for_selection_none_dispatches_to_definition() {
    let spec = &build(&fixture_snapshot()).specs[0];
    assert!(matches!(load_for_selection(spec, None, 80), Resolved::Show(DocView::Definition { .. })));
}

#[test]
fn load_for_selection_some_kind_dispatches_to_doc() {
    let spec = &build(&fixture_snapshot()).specs[0];
    match load_for_selection(spec, Some(&DocKind::Requirements), 80) {
        Resolved::Read(p) => assert_eq!(p, PathBuf::from("/kiro/specs/sample-signup/requirements.md")),
        _ => panic!("expected a read"),
    }
}

#[test]
fn load_definition_renders_definition_text() {
    let spec = &build(&fixture_snapshot()).specs[0];
    match load_definition(spec, 80) {
        DocView::Definition { spec: name, text } => {
            assert_eq!(name, "sample-signup");
            assert!(text.plain.join("\n").contains("회원가입 절차를 검증하는 요구사항 스펙이다"));
        },
        _ => panic!("expected Definition"),
    }
}

#[test]
fn load_definition_with_no_definition_section_shows_notice() {
    let spec = &build(&fixture_snapshot()).specs[1];
    assert_eq!(spec.definition, None);
    match load_definition(spec, 80) {
        DocView::Definition { spec: name, text } => {
            assert_eq!(name, "sample-billing");
            assert!(text.plain.join("\n").contains("정의 없음"));
        },
        _ => panic!("expected Definition"),
    }
}

#[test]
fn load_definition_on_broken_meta_is_meta_error() {
    let spec = &build(&fixture_snapshot()).specs[3];
    assert!(spec.meta.is_err());
    match load_definition(spec, 80) {
        DocView::MetaError { spec: name, msg } => {
            assert_eq!(name, "broken-json");
            assert!(msg.starts_with("invalid JSON: "));
        },
        _ => panic!("expected MetaError"),
    }
}

#[test]
fn doc_from_read_maps_each_outcome() {
    let p = PathBuf::from("a.md");
    assert!(matches!(doc_from_read(p.clone(), FileRead::Missing, 80), DocView::Missing(q) if q == p));
    match doc_from_read(p.clone(), FileRead::Failed("denied".to_string()), 80) {
        DocView::ReadError { path, msg } => {
            assert_eq!(path, p);
            assert_eq!(msg, "denied");
        },
        _ => panic!("expected ReadError"),
    }
    let bytes = vec![b'a', 0xff, b'\n', b'b'];
    match doc_from_read(p.clone(), FileRead::Bytes { bytes, modified: SystemTime::UNIX_EPOCH }, 80) {
        DocView::Rendered { r, meta, .. } => {
            assert_eq!(meta.size, 4);
            assert_eq!(meta.lines, 2);
            assert!(r.plain.join("\n").contains('\u{FFFD}'));
        },
        _ => panic!("expected Rendered"),
    }
}

#[test]
fn an_unasked_read_answer_changes_nothing() {
    let mut state = test_state();
    update(&mut state, Action::DocRead(FileRead::Missing));
    assert!(matches!(state.doc, DocView::Empty));
}

// ------------------------------------------------------------------ refresh and resize

#[test]
fn r_key_and_fs_events_ask_for_a_rescan() {
    let mut state = test_state();
    key_action(&mut state, Key::Char('r'));
    update(&mut state, Action::Fs);
    update(&mut state, Action::Refresh);
    assert_eq!(state.effects.len(), 3);
    assert!(state.effects.iter().all(|e| matches!(e, Effect::Rescan)));
}

#[test]
fn sort_survives_a_resync() {
    let mut state = test_state();
    key_action(&mut state, Key::Char('s'));
    assert_eq!(state.sort_key, SortKey::Phase);
    let sorted = spec_names(&state);
    update(&mut state, Action::Rescanned(Scan::Kiro(fixture_snapshot())));
    assert_eq!(state.sort_key, SortKey::Phase);
    assert_eq!(spec_names(&state), sorted);
}

#[test]
fn sort_hotkey_cycles_through_all_four_keys_and_reorders_specs() {
    let mut state = test_state();
    assert_eq!(state.sort_key, SortKey::Name);
    let unsorted = spec_names(&state);
    let mut expected = unsorted.clone();
    expected.sort();
    assert_ne!(unsorted, expected);
    key_action(&mut state, Key::Char('s'));
    assert_eq!(state.sort_key, SortKey::Phase);
    key_action(&mut state, Key::Char('s'));
    assert_eq!(state.sort_key, SortKey::Updated);
    key_action(&mut state, Key::Char('s'));
    assert_eq!(state.sort_key, SortKey::Progress);
    key_action(&mut state, Key::Char('s'));
    assert_eq!(state.sort_key, SortKey::Name);
    assert_eq!(spec_names(&state), expected);
}

#[test]
fn fs_event_marks_deleted_document_and_preserves_selection() {
    let mut state = test_state();
    state.doc = inline_doc("# A\n\nbody\n");
    update(&mut state, Action::Rescanned(Scan::Kiro(fixture_snapshot())));
    assert!(matches!(&state.pending, Some(Pending::Refresh { was_rendered: true, .. })));
    assert!(matches!(last_effect(&state), Effect::ReadDoc(p) if p == &PathBuf::from("inline.md")));
    update(&mut state, Action::DocRead(FileRead::Missing));
    assert!(matches!(&state.doc, DocView::Deleted(p) if p == &PathBuf::from("inline.md")));
}

#[test]
fn refresh_clamps_scroll_when_content_shrinks() {
    let mut state = doc_state_with_lines(20);
    state.scroll = 15;
    update(&mut state, Action::Rescanned(Scan::Kiro(fixture_snapshot())));
    let bytes = b"one\n\ntwo\n".to_vec();
    update(&mut state, Action::DocRead(FileRead::Bytes { bytes, modified: SystemTime::UNIX_EPOCH }));
    let len = match &state.doc {
        DocView::Rendered { r, .. } => r.plain.len(),
        _ => panic!("expected a rendered view"),
    };
    assert!(len < 15);
    assert_eq!(state.scroll, len - 1);
}

#[test]
fn refresh_of_a_missing_view_stays_missing() {
    let mut state = test_state();
    state.doc = DocView::Missing(PathBuf::from("gone.md"));
    update(&mut state, Action::Rescanned(Scan::Kiro(fixture_snapshot())));
    update(&mut state, Action::DocRead(FileRead::Missing));
    assert!(matches!(&state.doc, DocView::Missing(_)));
}

#[test]
fn resize_action_updates_size() {
    let mut state = test_state();
    assert_eq!(update(&mut state, Action::Resize(100, 30)), Control::Continue);
    assert_eq!(state.size, (100, 30));
}

#[test]
fn resize_on_empty_doc_does_not_panic() {
    let mut state = test_state();
    assert_eq!(update(&mut state, Action::Resize(60, 40)), Control::Continue);
    assert_eq!(state.size, (60, 40));
    assert!(matches!(state.doc, DocView::Empty));
}

#[test]
fn resize_while_viewing_definition_rerenders_without_panic() {
    let mut state = test_state();
    update(&mut state, Action::Select(spec_node("sample-signup")));
    assert_eq!(update(&mut state, Action::Resize(60, 40)), Control::Continue);
    assert!(matches!(state.doc, DocView::Definition { .. }));
}

#[test]
fn resize_preserves_position_at_current_heading_anchor() {
    let long = "word ".repeat(200);
    let src = format!("# Heading A\n\n{long}\n\n# Heading B\n\n{long}\n\n# Heading C\n\n{long}\n");
    let mut state = test_state();
    state.doc = DocView::Rendered { path: PathBuf::from("doc.md"), r: render(&src, 118), meta: FileInfo::default() };
    let b_wide = headings_of(&state)[1];
    state.scroll = b_wide + 1;
    update(&mut state, Action::Resize(60, 40));
    assert!(matches!(&state.pending, Some(Pending::Resize { anchor: Some((1, t)), .. }) if t.as_str() == "Heading B"));
    update(
        &mut state,
        Action::DocRead(FileRead::Bytes { bytes: src.into_bytes(), modified: SystemTime::UNIX_EPOCH }),
    );
    let b_narrow = headings_of(&state)[1];
    assert_ne!(b_wide, b_narrow);
    assert_eq!(state.scroll, b_narrow);
}

// ------------------------------------------------------------------ mouse gestures

#[test]
fn clicking_the_doc_panel_focuses_it() {
    let mut state = test_state();
    state.layout = two_panel_layout();
    state.focus = Panel::Tree;
    update(&mut state, mouse(MouseKind::LeftDown, 60, 5));
    assert_eq!(state.focus, Panel::Doc);
}

#[test]
fn clicking_the_tree_panel_focuses_it() {
    let mut state = test_state();
    state.layout = two_panel_layout();
    state.focus = Panel::Doc;
    update(&mut state, mouse(MouseKind::LeftDown, 5, 5));
    assert_eq!(state.focus, Panel::Tree);
    assert!(matches!(last_effect(&state), Effect::TreeClickAt { column: 5, row: 5 }));
}

#[test]
fn clicking_the_separator_does_not_change_focus() {
    let mut state = test_state();
    state.layout = two_panel_layout();
    state.focus = Panel::Tree;
    update(&mut state, mouse(MouseKind::LeftDown, 30, 5));
    assert_eq!(state.focus, Panel::Tree);
}

#[test]
fn a_new_down_clears_a_stale_drag_left_over_from_an_undelivered_up() {
    let mut state = doc_state_with_lines(20);
    update(&mut state, mouse(MouseKind::LeftDown, 40, 3));
    assert_eq!(state.drag, Some(Drag::Select));
    update(&mut state, mouse(MouseKind::LeftDown, 5, 5));
    assert_eq!(state.drag, None);
}

#[test]
fn down_on_sep_starts_a_split_drag() {
    let mut state = test_state();
    state.layout = two_panel_layout();
    update(&mut state, mouse(MouseKind::LeftDown, 30, 5));
    assert_eq!(state.drag, Some(Drag::Split));
}

#[test]
fn dragging_after_sep_down_moves_the_split() {
    let mut state = test_state();
    state.layout = two_panel_layout();
    state.split = 30;
    update(&mut state, mouse(MouseKind::LeftDown, 30, 5));
    update(&mut state, mouse(MouseKind::LeftDrag, 50, 5));
    assert_eq!(state.split, 50);
}

#[test]
fn dragging_without_a_prior_sep_down_does_nothing() {
    let mut state = test_state();
    state.layout = two_panel_layout();
    state.split = 30;
    update(&mut state, mouse(MouseKind::LeftDrag, 80, 5));
    assert_eq!(state.split, 30);
}

#[test]
fn dragging_clamps_to_the_minimum_panel_width_on_both_sides() {
    let mut state = test_state();
    state.layout = two_panel_layout();
    update(&mut state, mouse(MouseKind::LeftDown, 30, 5));
    update(&mut state, mouse(MouseKind::LeftDrag, 2, 5));
    assert_eq!(state.split, 20);
    update(&mut state, mouse(MouseKind::LeftDrag, 118, 5));
    assert_eq!(state.split, 99);
}

#[test]
fn up_ends_the_drag_so_further_moves_are_ignored() {
    let mut state = test_state();
    state.layout = two_panel_layout();
    update(&mut state, mouse(MouseKind::LeftDown, 30, 5));
    update(&mut state, mouse(MouseKind::LeftUp, 30, 5));
    assert_eq!(state.drag, None);
    state.split = 30;
    update(&mut state, mouse(MouseKind::LeftDrag, 80, 5));
    assert_eq!(state.split, 30);
}

#[test]
fn mouse_down_on_doc_starts_a_selection_at_the_clicked_point() {
    let mut state = doc_state_with_lines(20);
    update(&mut state, mouse(MouseKind::LeftDown, 40, 3));
    assert_eq!(state.selection, Some(Selection { anchor: (2, 8), head: (2, 8) }));
    assert_eq!(state.drag, Some(Drag::Select));
}

#[test]
fn dragging_extends_the_selection_head_but_not_the_anchor() {
    let mut state = doc_state_with_lines(20);
    update(&mut state, mouse(MouseKind::LeftDown, 40, 3));
    update(&mut state, mouse(MouseKind::LeftDrag, 50, 5));
    assert_eq!(state.selection, Some(Selection { anchor: (2, 8), head: (4, 18) }));
}

#[test]
fn dragging_at_the_top_or_bottom_edge_arms_auto_scroll() {
    let mut state = doc_state_with_lines(20);
    update(&mut state, mouse(MouseKind::LeftDown, 40, 3));
    update(&mut state, mouse(MouseKind::LeftDrag, 40, 1));
    assert_eq!(state.auto_scroll, Some(AutoScrollDir::Up));
    update(&mut state, mouse(MouseKind::LeftDrag, 40, 37));
    assert_eq!(state.auto_scroll, Some(AutoScrollDir::Down));
    update(&mut state, mouse(MouseKind::LeftDrag, 40, 10));
    assert_eq!(state.auto_scroll, None);
}

#[test]
fn tick_while_auto_scroll_armed_scrolls_and_extends_selection_up() {
    let mut state = doc_state_with_lines(20);
    state.scroll = 5;
    state.drag = Some(Drag::Select);
    state.auto_scroll = Some(AutoScrollDir::Up);
    state.selection = Some(Selection { anchor: (5, 0), head: (5, 0) });
    update(&mut state, Action::Tick);
    assert_eq!(state.scroll, 4);
    assert_eq!(state.selection.unwrap().head, (4, 0));
}

#[test]
fn tick_while_auto_scroll_armed_scrolls_and_extends_selection_down() {
    let mut state = doc_state_with_lines(20);
    state.scroll = 5;
    state.drag = Some(Drag::Select);
    state.auto_scroll = Some(AutoScrollDir::Down);
    state.selection = Some(Selection { anchor: (5, 0), head: (5, 0) });
    update(&mut state, Action::Tick);
    assert_eq!(state.scroll, 6);
    assert_eq!(state.selection.unwrap().head, (6, 0));
}

#[test]
fn tick_without_an_active_select_drag_does_nothing() {
    let mut state = doc_state_with_lines(20);
    state.scroll = 5;
    state.drag = None;
    state.auto_scroll = Some(AutoScrollDir::Up);
    state.selection = Some(Selection { anchor: (5, 0), head: (5, 0) });
    update(&mut state, Action::Tick);
    assert_eq!(state.scroll, 5);
    assert_eq!(state.selection.unwrap().head, (5, 0));
}

#[test]
fn up_ends_the_select_drag_but_keeps_the_selection_visible() {
    let mut state = doc_state_with_lines(20);
    update(&mut state, mouse(MouseKind::LeftDown, 40, 3));
    update(&mut state, mouse(MouseKind::LeftDrag, 50, 5));
    update(&mut state, mouse(MouseKind::LeftUp, 50, 5));
    assert_eq!(state.drag, None);
    assert_eq!(state.auto_scroll, None);
    assert_eq!(state.selection, Some(Selection { anchor: (2, 8), head: (4, 18) }));
}

#[test]
fn up_after_select_drag_copies_selected_text_including_newlines() {
    let mut state = test_state();
    state.layout = two_panel_layout();
    state.doc = inline_doc("abcdefghij\n\nklmnopqrst\n\nuvwxyz0123\n");
    update(&mut state, mouse(MouseKind::LeftDown, 34, 1));
    update(&mut state, mouse(MouseKind::LeftDrag, 36, 3));
    update(&mut state, mouse(MouseKind::LeftUp, 36, 3));
    match last_effect(&state) {
        Effect::Copy(t) => assert_eq!(t, "cdefghij\nklmnopqrst\nuvwx"),
        other => panic!("expected a copy, got {other:?}"),
    }
}

#[test]
fn up_after_a_split_drag_does_not_copy_anything() {
    let mut state = test_state();
    state.layout = two_panel_layout();
    update(&mut state, mouse(MouseKind::LeftDown, 30, 5));
    update(&mut state, mouse(MouseKind::LeftDrag, 50, 5));
    update(&mut state, mouse(MouseKind::LeftUp, 50, 5));
    assert!(!state.effects.iter().any(|e| matches!(e, Effect::Copy(_))));
}

#[test]
fn a_selection_past_the_last_line_copies_nothing() {
    let mut state = doc_state_with_lines(2);
    state.selection = Some(Selection { anchor: (9, 0), head: (12, 3) });
    state.drag = Some(Drag::Select);
    update(&mut state, mouse(MouseKind::LeftUp, 40, 3));
    assert!(state.effects.is_empty());
}

#[test]
fn clicking_elsewhere_clears_the_selection() {
    for click_at in [(5, 5), (30, 5)] {
        let mut state = doc_state_with_lines(20);
        state.selection = Some(Selection { anchor: (0, 0), head: (1, 1) });
        update(&mut state, mouse(MouseKind::LeftDown, click_at.0, click_at.1));
        assert_eq!(state.selection, None);
    }
}

#[test]
fn esc_clears_the_selection() {
    let mut state = doc_state_with_lines(20);
    state.selection = Some(Selection { anchor: (0, 0), head: (1, 1) });
    key_action(&mut state, Key::Esc);
    assert_eq!(state.selection, None);
}

#[test]
fn esc_with_no_selection_is_a_harmless_no_op() {
    let mut state = doc_state_with_lines(20);
    assert_eq!(key_action(&mut state, Key::Esc), Control::Continue);
}

#[test]
fn wheel_over_doc_scrolls_it_three_rows_regardless_of_focus() {
    let mut state = doc_state_with_lines(20);
    state.focus = Panel::Tree;
    state.scroll = 5;
    update(&mut state, mouse(MouseKind::ScrollDown, 60, 5));
    assert_eq!(state.scroll, 8);
    update(&mut state, mouse(MouseKind::ScrollUp, 60, 5));
    assert_eq!(state.scroll, 5);
}

#[test]
fn wheel_over_tree_calls_key_down_the_right_number_of_times_regardless_of_focus() {
    let mut state = test_state();
    state.layout = two_panel_layout();
    state.focus = Panel::Doc;
    update(&mut state, mouse(MouseKind::ScrollDown, 5, 5));
    assert_eq!(state.effects.len(), 3);
    assert!(state.effects.iter().all(|e| matches!(e, Effect::TreeDown)));
    update(&mut state, mouse(MouseKind::ScrollUp, 5, 5));
    assert_eq!(state.effects.len(), 6);
    assert!(matches!(last_effect(&state), Effect::TreeUp));
    assert_eq!(state.scroll, 0);
}

#[test]
fn arrow_down_scrolls_doc_by_one_when_doc_is_focused() {
    let mut state = doc_state_with_lines(20);
    state.focus = Panel::Doc;
    state.scroll = 3;
    key_action(&mut state, Key::Down);
    assert_eq!(state.scroll, 4);
    key_action(&mut state, Key::Up);
    assert_eq!(state.scroll, 3);
}

#[test]
fn arrow_down_does_not_scroll_doc_when_tree_is_focused() {
    let mut state = doc_state_with_lines(20);
    state.focus = Panel::Tree;
    state.scroll = 3;
    key_action(&mut state, Key::Down);
    assert_eq!(state.scroll, 3);
    assert!(matches!(last_effect(&state), Effect::TreeDown));
}

#[test]
fn tree_nav_actions_on_empty_tree_do_not_panic() {
    let mut state = test_state();
    assert_eq!(key_action(&mut state, Key::Up), Control::Continue);
    assert_eq!(key_action(&mut state, Key::Down), Control::Continue);
    assert_eq!(key_action(&mut state, Key::Left), Control::Continue);
    assert_eq!(key_action(&mut state, Key::Right), Control::Continue);
    assert!(matches!(last_effect(&state), Effect::TreeRight));
}

// ------------------------------------------------------------------ scrolling, headings, popups

#[test]
fn line_scroll_moves_by_one_and_clamps_at_bounds() {
    let mut state = doc_state_with_lines(10);
    let len = match &state.doc {
        DocView::Rendered { r, .. } => r.plain.len(),
        _ => unreachable!(),
    };
    key_action(&mut state, Key::Char('j'));
    assert_eq!(state.scroll, 1);
    key_action(&mut state, Key::Char('k'));
    assert_eq!(state.scroll, 0);
    key_action(&mut state, Key::Char('k'));
    assert_eq!(state.scroll, 0);
    key_action(&mut state, Key::Char('G'));
    assert_eq!(state.scroll, len - 1);
    key_action(&mut state, Key::Char('j'));
    assert_eq!(state.scroll, len - 1);
    key_action(&mut state, Key::Char('g'));
    assert_eq!(state.scroll, 0);
}

#[test]
fn page_and_half_page_keys_move_by_the_terminal_height() {
    let mut state = doc_state_with_lines(100);
    state.size = (120, 40);
    key_action(&mut state, Key::Char('d'));
    assert_eq!(state.scroll, 20);
    key_action(&mut state, Key::PageDown);
    assert_eq!(state.scroll, 60);
    key_action(&mut state, Key::Char('u'));
    assert_eq!(state.scroll, 40);
    key_action(&mut state, Key::Char('b'));
    assert_eq!(state.scroll, 0);
}

#[test]
fn heading_jump_moves_forward_then_back() {
    let mut state = test_state();
    state.doc = inline_doc("# A\nbody\n# B\nbody2");
    let hs = headings_of(&state);
    assert_eq!(state.scroll, hs[0]);
    key_action(&mut state, Key::Char(']'));
    assert_eq!(state.scroll, hs[1]);
    key_action(&mut state, Key::Char('['));
    assert_eq!(state.scroll, hs[0]);
}

#[test]
fn help_key_opens_and_dismisses_help_popup() {
    let mut state = test_state();
    key_action(&mut state, Key::Char('?'));
    match &state.popup {
        Some(Popup::Help(entries)) => {
            assert!(entries.iter().any(|(k, h)| k == "q" && h.contains("종료")));
            assert!(entries.iter().any(|(_, h)| h.contains("전환")));
            assert!(entries.iter().any(|(k, _)| k == "["));
            assert!(entries.iter().any(|(k, _)| k == "]"));
        },
        other => panic!("expected Popup::Help, got {other:?}"),
    }
    key_action(&mut state, Key::Esc);
    assert_eq!(state.popup, None);
    key_action(&mut state, Key::Char('?'));
    assert!(state.popup.is_some());
    key_action(&mut state, Key::Char('?'));
    assert_eq!(state.popup, None);
}

#[test]
fn help_popup_open_and_dismiss_still_works_via_popup_dispatch() {
    let mut state = test_state();
    key_action(&mut state, Key::Char('?'));
    assert!(matches!(state.popup, Some(Popup::Help(_))));
    key_action(&mut state, Key::Esc);
    assert_eq!(state.popup, None);
}

fn load_headed_doc(state: &mut AppState) {
    state.doc = inline_doc("# Heading A\n\nbody a\n\n# Heading B\n\nbody b\n\n# Heading C\n\nbody c\n");
    state.scroll = 0;
}

#[test]
fn t_key_opens_toc_at_nearest_heading_at_or_before_scroll() {
    let mut state = test_state();
    load_headed_doc(&mut state);
    state.scroll = headings_of(&state)[1];
    key_action(&mut state, Key::Char('t'));
    assert_eq!(state.popup, Some(Popup::Toc(1)));
}

#[test]
fn t_key_is_a_no_op_when_doc_has_no_headings() {
    let mut state = test_state();
    state.doc = inline_doc("just a paragraph, no headings here");
    key_action(&mut state, Key::Char('t'));
    assert_eq!(state.popup, None);
}

#[test]
fn t_key_is_a_no_op_on_empty_doc() {
    let mut state = test_state();
    key_action(&mut state, Key::Char('t'));
    assert_eq!(state.popup, None);
}

#[test]
fn toc_move_wraps_and_confirms_jump() {
    let mut state = test_state();
    load_headed_doc(&mut state);
    key_action(&mut state, Key::Char('t'));
    assert_eq!(state.popup, Some(Popup::Toc(0)));
    key_action(&mut state, Key::Char('j'));
    assert_eq!(state.popup, Some(Popup::Toc(1)));
    key_action(&mut state, Key::Down);
    assert_eq!(state.popup, Some(Popup::Toc(2)));
    key_action(&mut state, Key::Char('j'));
    assert_eq!(state.popup, Some(Popup::Toc(0)));
    key_action(&mut state, Key::Char('k'));
    assert_eq!(state.popup, Some(Popup::Toc(2)));
    key_action(&mut state, Key::Up);
    assert_eq!(state.popup, Some(Popup::Toc(1)));
    let line = headings_of(&state)[1];
    key_action(&mut state, Key::Enter);
    assert_eq!(state.popup, None);
    assert_eq!(state.scroll, line);
}

#[test]
fn toc_esc_cancels_without_touching_scroll() {
    let mut state = test_state();
    load_headed_doc(&mut state);
    key_action(&mut state, Key::Char('t'));
    key_action(&mut state, Key::Char('j'));
    key_action(&mut state, Key::Char('j'));
    key_action(&mut state, Key::Esc);
    assert_eq!(state.popup, None);
    assert_eq!(state.scroll, 0);
}

#[test]
fn slash_key_opens_search_input_types_backspaces_and_confirms() {
    let mut state = test_state();
    state.doc = inline_doc(FIXTURE);
    state.focus = Panel::Doc;
    key_action(&mut state, Key::Char('/'));
    assert_eq!(state.popup, Some(Popup::SearchInput(String::new())));
    for c in "linex".chars() {
        key_action(&mut state, Key::Char(c));
    }
    assert_eq!(state.popup, Some(Popup::SearchInput("linex".to_string())));
    key_action(&mut state, Key::Backspace);
    assert_eq!(state.popup, Some(Popup::SearchInput("line".to_string())));
    key_action(&mut state, Key::Enter);
    assert_eq!(state.popup, None);
    assert_eq!(state.search.query, "line");
    assert!(!state.search.matches.is_empty());
    assert_eq!(state.scroll, state.search.matches[0]);
}

#[test]
fn search_input_esc_cancel_leaves_prior_confirmed_search_untouched() {
    let mut state = test_state();
    state.doc = inline_doc(FIXTURE);
    state.focus = Panel::Doc;
    search(&mut state, "line");
    let snapshot = state.search.clone();
    key_action(&mut state, Key::Char('/'));
    for c in "four".chars() {
        key_action(&mut state, Key::Char(c));
    }
    key_action(&mut state, Key::Esc);
    assert_eq!(state.popup, None);
    assert_eq!(state.search, snapshot);
}

#[test]
fn popup_open_is_modal_global_keys_are_no_ops_while_toc_or_search_open() {
    let mut state = test_state();
    load_headed_doc(&mut state);
    key_action(&mut state, Key::Char('t'));
    assert!(matches!(state.popup, Some(Popup::Toc(_))));
    assert_eq!(key_action(&mut state, Key::Char('q')), Control::Continue);
    assert!(matches!(state.popup, Some(Popup::Toc(_))));
    key_action(&mut state, Key::Char('/'));
    assert!(matches!(state.popup, Some(Popup::Toc(_))));
    key_action(&mut state, Key::Esc);
    assert_eq!(state.popup, None);
    key_action(&mut state, Key::Char('/'));
    assert_eq!(state.popup, Some(Popup::SearchInput(String::new())));
    assert_eq!(key_action(&mut state, Key::Char('q')), Control::Continue);
    assert_eq!(state.popup, Some(Popup::SearchInput("q".to_string())));
    key_action(&mut state, Key::Char('t'));
    assert_eq!(state.popup, Some(Popup::SearchInput("qt".to_string())));
}

#[test]
fn next_and_prev_match_keys_cycle_a_running_search() {
    let mut state = test_state();
    state.doc = inline_doc(FIXTURE);
    state.focus = Panel::Doc;
    search(&mut state, "line");
    key_action(&mut state, Key::Char('n'));
    assert_eq!(state.search.current, Some(1));
    assert_eq!(state.scroll, 1);
    key_action(&mut state, Key::Char('n'));
    assert_eq!(state.search.current, Some(2));
    assert_eq!(state.scroll, 2);
    key_action(&mut state, Key::Char('N'));
    assert_eq!(state.search.current, Some(1));
    assert_eq!(state.scroll, 1);
}

// ------------------------------------------------------------------ document search

#[test]
fn case_insensitive_match_jumps_to_first_match() {
    let mut state = test_state();
    state.doc = inline_doc(FIXTURE);
    search(&mut state, "line two");
    assert_eq!(state.search.query, "line two");
    assert_eq!(state.search.matches, vec![1]);
    assert_eq!(state.search.current, Some(0));
    assert_eq!(state.scroll, 1);
}

#[test]
fn query_matching_multiple_lines_collects_all_in_order() {
    let mut state = test_state();
    state.doc = inline_doc(FIXTURE);
    search(&mut state, "line");
    assert_eq!(state.search.matches, vec![0, 1, 2]);
    assert_eq!(state.search.current, Some(0));
    assert_eq!(state.scroll, 0);
}

#[test]
fn query_matching_nothing_leaves_scroll_unchanged() {
    let mut state = test_state();
    state.doc = inline_doc(FIXTURE);
    state.scroll = 2;
    search(&mut state, "nonexistent");
    assert!(state.search.matches.is_empty());
    assert_eq!(state.search.current, None);
    assert_eq!(state.scroll, 2);
}

#[test]
fn next_and_prev_cycle_through_matches_with_wraparound() {
    let mut state = test_state();
    state.doc = inline_doc(FIXTURE);
    search(&mut state, "line");
    next_match(&mut state);
    assert_eq!((state.search.current, state.scroll), (Some(1), 1));
    next_match(&mut state);
    assert_eq!((state.search.current, state.scroll), (Some(2), 2));
    next_match(&mut state);
    assert_eq!((state.search.current, state.scroll), (Some(0), 0));
    prev_match(&mut state);
    assert_eq!((state.search.current, state.scroll), (Some(2), 2));
    prev_match(&mut state);
    assert_eq!((state.search.current, state.scroll), (Some(1), 1));
}

#[test]
fn next_and_prev_on_empty_matches_are_no_ops() {
    let mut state = test_state();
    state.doc = inline_doc(FIXTURE);
    next_match(&mut state);
    assert_eq!(state.search.current, None);
    assert_eq!(state.scroll, 0);
    prev_match(&mut state);
    assert_eq!(state.search.current, None);
    search(&mut state, "nonexistent");
    next_match(&mut state);
    assert_eq!(state.search.current, None);
    prev_match(&mut state);
    assert_eq!(state.search.current, None);
}

#[test]
fn searching_a_doc_without_rendered_payload_is_a_no_op_result() {
    let mut state = test_state();
    search(&mut state, "anything");
    assert!(state.search.matches.is_empty());
    assert_eq!(state.search.current, None);
    state.doc = DocView::Missing(PathBuf::from("missing.md"));
    search(&mut state, "anything");
    assert!(state.search.matches.is_empty());
    assert_eq!(state.search.current, None);
}

#[test]
fn clear_search_resets_state_but_not_scroll() {
    let mut state = test_state();
    state.doc = inline_doc(FIXTURE);
    search(&mut state, "line");
    state.scroll = 2;
    clear_search(&mut state);
    assert_eq!(state.search, SearchState::default());
    assert_eq!(state.scroll, 2);
    assert_eq!(state.focus, Panel::Tree);
}

#[test]
fn an_empty_query_matches_nothing() {
    let mut state = test_state();
    state.doc = inline_doc(FIXTURE);
    search(&mut state, "");
    assert!(state.search.matches.is_empty());
    assert_eq!(state.search.current, None);
}

// ------------------------------------------------------------------ tree search

fn revealed(state: &AppState) -> Vec<NodeId> {
    match last_effect(state) {
        Effect::TreeReveal(p) => p.clone(),
        other => panic!("expected a reveal, got {other:?}"),
    }
}

#[test]
fn tree_search_case_insensitive_single_match_selects_the_spec() {
    let mut state = test_state();
    tree_search(&mut state, "NO-APPROVALS");
    assert_eq!(state.tree_search.query, "NO-APPROVALS");
    assert_eq!(state.tree_search.matches, vec![0]);
    assert_eq!(state.tree_search.current, Some(0));
    assert_eq!(state.tree_matches, vec![spec_node("no-approvals")]);
    assert_eq!(revealed(&state), spec_node("no-approvals"));
}

#[test]
fn tree_search_expands_collapsed_ancestor_to_reach_a_doc_match() {
    let mut state = test_state();
    tree_search(&mut state, "requirements.md");
    assert!(!state.tree_matches.is_empty());
    let first = state.tree_matches[0].clone();
    assert_eq!(first.len(), 2);
    assert!(matches!(&first[0], NodeId::Spec(_)));
    assert_eq!(revealed(&state), first);
}

#[test]
fn tree_search_next_and_prev_cycle_through_matches_with_wraparound() {
    let mut state = test_state();
    tree_search(&mut state, "requirements.md");
    let total = state.tree_matches.len();
    assert!(total > 1);
    tree_next_match(&mut state);
    assert_eq!(state.tree_search.current, Some(1));
    assert_eq!(revealed(&state), state.tree_matches[1]);
    for _ in 0..(total - 1) {
        tree_next_match(&mut state);
    }
    assert_eq!(state.tree_search.current, Some(0));
    assert_eq!(revealed(&state), state.tree_matches[0]);
    tree_prev_match(&mut state);
    assert_eq!(state.tree_search.current, Some(total - 1));
    assert_eq!(revealed(&state), state.tree_matches[total - 1]);
}

#[test]
fn tree_search_next_and_prev_on_empty_matches_are_no_ops() {
    let mut state = test_state();
    tree_next_match(&mut state);
    tree_search(&mut state, "zzz-nonexistent");
    assert!(state.tree_search.matches.is_empty());
    assert_eq!(state.tree_search.current, None);
    tree_prev_match(&mut state);
    assert!(state.effects.is_empty());
}

#[test]
fn tree_search_matches_steering_doc_names_and_expands_the_group() {
    let mut state = test_state();
    tree_search(&mut state, "product");
    let hit = vec![NodeId::SteeringGroup, NodeId::Steering("product.md".to_string())];
    assert_eq!(state.tree_matches, vec![hit.clone()]);
    assert_eq!(revealed(&state), hit);
}

#[test]
fn clear_tree_search_resets_state_but_not_selection() {
    let mut state = test_state();
    tree_search(&mut state, "no-approvals");
    assert!(!state.tree_matches.is_empty());
    clear_tree_search(&mut state);
    assert_eq!(state.tree_search, SearchState::default());
    assert!(state.tree_matches.is_empty());
}

#[test]
fn tree_search_no_match_shows_no_match_in_tree_search_state() {
    let mut state = test_state();
    tree_search(&mut state, "zzz-nonexistent");
    assert!(state.tree_search.matches.is_empty());
    assert_eq!(state.tree_search.current, None);
    assert_eq!(state.tree_search.query, "zzz-nonexistent");
}

#[test]
fn slash_key_with_tree_focused_runs_a_tree_search_not_a_doc_search() {
    let mut state = test_state();
    key_action(&mut state, Key::Char('/'));
    for c in "no-approvals".chars() {
        key_action(&mut state, Key::Char(c));
    }
    key_action(&mut state, Key::Enter);
    assert_eq!(state.popup, None);
    assert_eq!(state.tree_search.query, "no-approvals");
    assert_eq!(revealed(&state), spec_node("no-approvals"));
    assert_eq!(state.search, SearchState::default());
}

#[test]
fn n_and_shift_n_cycle_the_tree_search_while_tree_is_focused() {
    let mut state = test_state();
    tree_search(&mut state, "requirements.md");
    assert!(state.tree_matches.len() > 1);
    key_action(&mut state, Key::Char('n'));
    assert_eq!(state.tree_search.current, Some(1));
    assert_eq!(revealed(&state), state.tree_matches[1]);
    key_action(&mut state, Key::Char('N'));
    assert_eq!(state.tree_search.current, Some(0));
    assert_eq!(revealed(&state), state.tree_matches[0]);
}

#[test]
fn esc_clears_an_active_tree_search_while_tree_is_focused() {
    let mut state = test_state();
    tree_search(&mut state, "no-approvals");
    key_action(&mut state, Key::Esc);
    assert_eq!(state.tree_search, SearchState::default());
    assert!(state.tree_matches.is_empty());
}

#[test]
fn esc_with_no_active_tree_search_falls_through_to_other_esc_handling() {
    let mut state = test_state();
    state.selection = Some(Selection { anchor: (0, 0), head: (0, 1) });
    key_action(&mut state, Key::Esc);
    assert_eq!(state.selection, None);
}

#[test]
fn files_mode_tree_search_rebuilds_nested_paths() {
    let entries = vec![
        FsEntry { path: PathBuf::from("/r/docs"), is_dir: true, depth: 1 },
        FsEntry { path: PathBuf::from("/r/docs/guide.md"), is_dir: false, depth: 2 },
        FsEntry { path: PathBuf::from("/r/notes.md"), is_dir: false, depth: 1 },
    ];
    let mut state = test_state();
    state.root = TreeSource::Files(FsTree { root: PathBuf::from("/r"), entries });
    tree_search(&mut state, "md");
    assert_eq!(
        state.tree_matches,
        vec![
            vec![NodeId::Dir(PathBuf::from("/r/docs")), NodeId::File(PathBuf::from("/r/docs/guide.md"))],
            vec![NodeId::File(PathBuf::from("/r/notes.md"))],
        ]
    );
}
