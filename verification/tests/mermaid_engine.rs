use spec_viewer::markdown::mermaid::engine::mdview::MdviewEngine;
use spec_viewer::markdown::mermaid::engine::{current, engines, register, select, Engine, EngineRegistry, GraphEngine};
use spec_viewer::markdown::mermaid::parse::{self, Diagram};
use spec_viewer::markdown::mermaid::{render_mermaid, Fallback};

fn render(src: &str, width: u16) -> Vec<String> {
    let diagram = parse::parse(src).expect("parse should succeed");
    MdviewEngine.render(src, &diagram, width).expect("render should succeed at this width")
}

/// An engine that supports nothing: selecting it never changes what is
/// rendered, because graph diagrams fall back to `builtin`.
struct DummyEngine;

impl GraphEngine for DummyEngine {
    fn name(&self) -> &'static str {
        "dummy"
    }
    fn supports(&self, _kind: &str) -> bool {
        false
    }
    fn render(&self, _src: &str, _diagram: &Diagram, _width: u16) -> Result<Vec<String>, Fallback> {
        unreachable!("DummyEngine is never asked to render: supports() is always false")
    }
}

#[test]
fn simple_tb_chain_stacks_top_to_bottom() {
    let lines = render("graph TB\n  A --> B\n  B --> C", 40);
    let ia = lines.iter().position(|l| l.contains('A')).unwrap();
    let ib = lines.iter().position(|l| l.contains('B')).unwrap();
    let ic = lines.iter().position(|l| l.contains('C')).unwrap();
    assert!(ia < ib && ib < ic, "TB chain should stack top to bottom: {lines:?}");
}

#[test]
fn lr_declaration_is_ignored_renders_top_to_bottom() {
    let lines = render("graph LR\n  A --> B\n  B --> C", 60);
    let row = |ch: char| -> usize { lines.iter().position(|l| l.contains(ch)).unwrap_or(usize::MAX) };
    let (ra, rb, rc) = (row('A'), row('B'), row('C'));
    assert!(ra < rb && rb < rc, "LR declaration should still stack top to bottom: {lines:?}");
}

#[test]
fn diverging_edges_get_separate_wiring_not_a_shared_bus() {
    let lines = render("graph TB\n  A --> B\n  A --> C\n  A --> D", 80);
    let row_of = |ch: char| lines.iter().position(|l| l.contains(ch)).unwrap();
    let (rb, rc, rd) = (row_of('B'), row_of('C'), row_of('D'));
    assert_eq!(rb, rc);
    assert_eq!(rc, rd);
    let col_of = |ch: char, row: usize| lines[row].find(ch).unwrap();
    let (cb, cc, cd) = (col_of('B', rb), col_of('C', rc), col_of('D', rd));
    assert!(cb != cc && cc != cd, "siblings must not collapse onto the same column: {lines:?}");
}

#[test]
fn arrowhead_points_at_destination_not_source() {
    for src in ["graph TB\n  A --> B", "graph LR\n  A --> B"] {
        let lines = render(src, 40);
        let joined = lines.join("\n");
        let a_row = lines.iter().position(|l| l.contains('A')).unwrap();
        let b_row = lines.iter().position(|l| l.contains('B')).unwrap();
        assert!(a_row < b_row, "expected A above B regardless of declared direction: {lines:?}");
        assert!(joined.contains('\u{25bc}'), "expected ▼ pointing into B: {joined}");
        assert!(!joined.contains('\u{25b2}'), "unexpected ▲ at the source: {joined}");
    }
}

#[test]
fn feedback_edge_does_not_panic_and_produces_output() {
    let lines = render("graph TB\n  A --> B\n  B --> C\n  C --> A", 80);
    assert!(!lines.is_empty());
    assert!(lines.iter().any(|l| l.contains('A')));
}

#[test]
fn lr_synthetic_long_chain_retries_as_tb_when_lr_overflows() {
    let src = "graph LR\n  NodeAlpha --> NodeBravo --> NodeCharlie --> NodeDelta --> NodeEcho --> NodeFoxtrot";
    let lines = render(src, 40);
    let joined = lines.join("\n");
    assert!(!joined.is_empty());
    assert!(joined.contains("NodeAlpha"), "expected a real diagram, not source fallback: {joined}");
    assert!(joined.contains('┌'), "expected a rendered box, not a source-text fallback: {joined}");
}

#[test]
fn overflow_fallback_kind_reflects_actual_diagram_type_not_hardcoded_flowchart() {
    let src = "classDiagram\n  class VeryLongClassNameThatWillNotFitInThreeColumns {\n    +String someAttribute\n  }";
    let diagram = parse::parse(src).unwrap();
    let err = MdviewEngine.render(src, &diagram, 3).expect_err("width 3 must overflow");
    let kind = match err {
        Fallback::Overflow { kind } | Fallback::Empty { kind } => kind,
    };
    assert_eq!(kind, "classDiagram", "fallback kind must name the real diagram type, not a hardcoded default");
}

#[test]
fn er_entity_renders_with_divider_and_fields() {
    let src = "erDiagram\n  CUSTOMER {\n    string id\n    string name\n  }";
    let lines = render(src, 60);
    let joined = lines.join("\n");
    assert!(joined.contains("CUSTOMER"));
    assert!(joined.contains("id"));
    assert!(joined.contains("name"));
}

#[test]
fn cardinality_tags_survive_alongside_a_label() {
    let src = "erDiagram\n  CUSTOMER ||--o{ ORDER : places";
    let joined = render(src, 60).join("\n");
    assert!(joined.contains("||"), "tail cardinality || missing when a label is present: {joined}");
    assert!(joined.contains("o{"), "head cardinality o{{ missing when a label is present: {joined}");
    assert!(joined.contains("places"), "label itself missing: {joined}");
}

#[test]
fn state_start_and_end_markers_present() {
    let src = "stateDiagram-v2\n  [*] --> A\n  A --> [*]";
    let lines = render(src, 60);
    let joined = lines.join("\n");
    assert!(joined.contains('\u{25cf}') || joined.contains('\u{25c9}'), "expected a start/end marker: {joined}");
}

#[test]
fn engines_registry_includes_builtin() {
    let reg: EngineRegistry<DummyEngine> = EngineRegistry::new();
    assert!(
        engines(&reg).iter().any(|e| e.name() == "builtin"),
        "registry must always contain the builtin engine"
    );
}

#[test]
fn select_unknown_engine_errs_with_available_list() {
    let mut reg: EngineRegistry<DummyEngine> = EngineRegistry::new();
    let err = select(&mut reg, "nope").unwrap_err();
    assert!(err.contains("nope"), "error should name the rejected engine: {err}");
    assert!(err.contains("builtin"), "error should list available engines: {err}");
}

#[test]
fn unsupported_selected_engine_falls_back_to_builtin() {
    let mut reg: EngineRegistry<DummyEngine> = EngineRegistry::new();
    select(&mut reg, "builtin").unwrap();
    let src = "graph LR\n  A --> B";
    let baseline = render_mermaid(&reg, src, 80).unwrap();

    register(&mut reg, Engine::Custom(DummyEngine)).expect("dummy engine is registered only by this test");
    select(&mut reg, "dummy").expect("dummy engine should be selectable once registered");
    assert_eq!(current(&reg).name(), "dummy");

    assert_eq!(render_mermaid(&reg, src, 80).unwrap(), baseline);

    select(&mut reg, "builtin").expect("builtin is always selectable");
}

#[test]
fn registering_a_taken_name_is_refused() {
    let mut reg: EngineRegistry<DummyEngine> = EngineRegistry::new();
    let err = register(&mut reg, Engine::Builtin).unwrap_err();
    assert_eq!(err, "diagram engine 'builtin' is already registered");
    assert_eq!(engines(&reg).len(), 2);
}

#[test]
fn new_registry_selects_mdview_and_lists_both_engines() {
    let mut reg: EngineRegistry<DummyEngine> = EngineRegistry::new();
    assert_eq!(current(&reg).name(), "mdview");
    let err = select(&mut reg, "x").unwrap_err();
    assert_eq!(err, "unknown diagram engine 'x' (available: builtin, mdview)");
    assert_eq!(current(&reg).name(), "mdview");
}

#[test]
fn unparsable_source_gives_the_parser_fallback() {
    let reg: EngineRegistry<DummyEngine> = EngineRegistry::new();
    match render_mermaid(&reg, "   \n  ", 80) {
        Err(Fallback::Empty { kind }) => assert_eq!(kind, "unknown"),
        other => panic!("expected an empty fallback, got {other:?}"),
    }
}

#[test]
fn sequence_diagrams_use_the_sequence_renderer() {
    let reg: EngineRegistry<DummyEngine> = EngineRegistry::new();
    let src = "sequenceDiagram\n    participant A\n    participant B\n    A->>B: hello\n    B-->>A: hi";
    let lines = render_mermaid(&reg, src, 12).expect("the compact rendering fits");
    assert!(lines.join("\n").contains('►'));
}

#[test]
fn mdview_lines_stay_within_two_columns_of_the_width() {
    let src = "graph TB\n  A[alpha] --> B[beta]\n  A --> C[gamma]\n  B --> D[delta]\n  C --> D";
    for width in [20u16, 40, 80] {
        if let Ok(lines) = render_mermaid(&EngineRegistry::<DummyEngine>::new(), src, width) {
            for l in &lines {
                assert!(l.chars().count() <= width as usize + 2, "{l:?} at width {width}");
            }
        }
    }
}
