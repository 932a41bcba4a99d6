use spec_viewer::markdown::wrap::wrap_spans;
use spec_viewer::markdown::inline::collect_inline;
use spec_viewer::markdown::inline::StopAt;
use spec_viewer::markdown::{Span, SpanStyle};
use spec_viewer::spec::fs_tree::fs_tree_of;
use spec_viewer::app::loader::kind_label;
use spec_viewer::spec::meta::DocKind;
use spec_viewer::spec::first_root;
use spec_viewer::cli::{log_refusal, StartupError};
use std::path::PathBuf;
use spec_viewer::markdown::mermaid::{route_of, MermaidRoute};
use spec_viewer::markdown::delegated::scan_events;
use spec_viewer::markdown::events::{MdEnd, MdEvent, MdStart};
use spec_viewer::markdown::mermaid::canvas::Canvas;
use spec_viewer::markdown::FootnoteState;

fn rows(c: Canvas) -> Vec<String> {
    c.into_lines().into_iter().map(|l| l.into_iter().collect()).collect()
}

#[test]
fn scan_events_trims_heading_and_definition_text() {
    let events = vec![
        MdEvent::Start(MdStart::Heading(2)),
        MdEvent::Text(" Intro ".to_string()),
        MdEvent::Code("x".to_string()),
        MdEvent::End(MdEnd::Heading),
        MdEvent::Text("body".to_string()),
        MdEvent::Start(MdStart::FootnoteDefinition("n".to_string())),
        MdEvent::Text("first".to_string()),
        MdEvent::SoftBreak,
        MdEvent::Text("second ".to_string()),
        MdEvent::End(MdEnd::FootnoteDefinition),
    ];
    let (headings, footnotes) = scan_events(&events);
    assert_eq!(headings, vec![(2u8, "Intro x".to_string())]);
    assert_eq!(footnotes, vec![("n".to_string(), "first second".to_string())]);
}

#[test]
fn footnote_definition_is_replaced_by_a_later_one() {
    let mut fs = FootnoteState::new();
    fs.define("a", "one".to_string());
    fs.define("b", "two".to_string());
    fs.define("a", "three".to_string());
    assert_eq!(fs.text_of(&"a".to_string()), "three");
    assert_eq!(fs.text_of(&"b".to_string()), "two");
    assert_eq!(fs.text_of(&"c".to_string()), "");
}

#[test]
fn text_chars_counts_columns_up_to_the_edge() {
    let mut c = Canvas::new(4, 1);
    let used = c.text_chars(1, 0, &['a', '한', 'b', 'c']);
    assert_eq!(used, 3);
    assert_eq!(rows(c), vec![" a한"]);
    let mut d = Canvas::new(8, 1);
    assert_eq!(d.text_chars(0, 0, &['a', '\n', 'b']), 1);
}

#[test]
fn draw_soft_keeps_a_written_cell() {
    let mut c = Canvas::new(3, 1);
    c.set(1, 0, 'x');
    c.draw_soft(1, 0, 'y');
    c.draw_soft(2, 0, 'z');
    assert_eq!(rows(c), vec![" xz"]);
}

#[test]
fn clear_rect_blanks_only_its_cells() {
    let mut c = Canvas::new(4, 2);
    c.hline(0, 3, 0, '─');
    c.hline(0, 3, 1, '─');
    c.clear_rect(1, 0, 2, 1);
    assert_eq!(rows(c), vec!["─  ─", "────"]);
}

#[test]
fn rect_corners_and_edges() {
    let mut c = Canvas::new(4, 3);
    c.rect(0, 0, 4, 3);
    assert_eq!(rows(c), vec!["┌──┐", "│  │", "└──┘"]);
}

fn listing(rel: &[&str], is_dir: bool) -> spec_viewer::spec::fs_tree::ListingEntry {
    spec_viewer::spec::fs_tree::ListingEntry { rel: rel.iter().map(|s| s.to_string()).collect(), is_dir }
}

#[test]
fn fs_tree_keeps_markdown_and_their_directories_in_path_order() {
    let root = std::path::PathBuf::from("/r");
    let entries = vec![
        listing(&["sub"], true),
        listing(&["empty"], true),
        listing(&["sub", "b.MarkDown"], false),
        listing(&["notes.txt"], false),
        listing(&["a.md"], false),
        listing(&[".md"], false),
    ];
    let tree = fs_tree_of(&root, &entries);
    let got: Vec<(String, bool, u8)> =
        tree.entries.iter().map(|e| (e.path.to_string_lossy().into_owned(), e.is_dir, e.depth)).collect();
    assert_eq!(
        got,
        vec![
            ("/r/a.md".to_string(), false, 1),
            ("/r/sub".to_string(), true, 1),
            ("/r/sub/b.MarkDown".to_string(), false, 2),
        ]
    );
    assert_eq!(tree.root, root);
}

#[test]
fn kind_label_spells_each_kind() {
    assert_eq!(kind_label(&DocKind::Design), "Design");
    assert_eq!(kind_label(&DocKind::Other("notes \"x\"".to_string())), "Other(\"notes \\\"x\\\"\")");
}

#[test]
fn first_root_takes_the_first_directory() {
    let cands = vec![std::path::PathBuf::from("/a/.kiro"), std::path::PathBuf::from("/.kiro")];
    assert_eq!(first_root(&cands, &vec![false, true]), Some(std::path::PathBuf::from("/.kiro")));
    assert_eq!(first_root(&cands, &vec![false, false]), None);
}

#[test]
fn log_inside_root_is_refused() {
    let root = PathBuf::from("/p/.kiro");
    assert_eq!(
        log_refusal(&PathBuf::from("x.log"), &PathBuf::from("/p/.kiro/x.log"), &root),
        Err(StartupError::LogInsideKiro(PathBuf::from("x.log")))
    );
    assert_eq!(log_refusal(&PathBuf::from("x.log"), &PathBuf::from("/p/.kiroish/x.log"), &root), Ok(()));
}

#[test]
fn mermaid_route_sends_unsupported_kinds_to_builtin_or_sequence() {
    assert!(matches!(route_of(true, true), MermaidRoute::Engine));
    assert!(matches!(route_of(true, false), MermaidRoute::Builtin));
    assert!(matches!(route_of(false, true), MermaidRoute::EngineThenSequence));
    assert!(matches!(route_of(false, false), MermaidRoute::Sequence));
}

#[test]
fn wrapping_loses_no_word() {
    let spans = vec![
        Span { text: "alpha  beta gamma".to_string(), style: SpanStyle::Plain },
        Span { text: "bold words".to_string(), style: SpanStyle::Bold },
        Span { text: " supercalifragilistic".to_string(), style: SpanStyle::Plain },
    ];
    let lines = wrap_spans(&spans, 8, 0);
    let text: String = lines.iter().flat_map(|l| l.iter()).map(|s| s.text.as_str()).collect::<String>().replace(' ', "");
    assert_eq!(text, "alphabetagammaboldwordssupercalifragilistic");
    assert!(lines.len() >= 4);
}

#[test]
fn inline_collection_numbers_footnotes_and_merges_text() {
    let events = vec![
        MdEvent::Text("see ".to_string()),
        MdEvent::FootnoteReference("n".to_string()),
        MdEvent::Start(MdStart::Strong),
        MdEvent::Text("x".to_string()),
        MdEvent::End(MdEnd::Strong),
        MdEvent::FootnoteReference("n".to_string()),
        MdEvent::End(MdEnd::Paragraph),
    ];
    let mut fns = FootnoteState::new();
    let (spans, next) = collect_inline(&events, 0, &mut fns, StopAt::End(MdEnd::Paragraph));
    let got: Vec<(String, SpanStyle)> = spans.iter().map(|s| (s.text.clone(), s.style)).collect();
    assert_eq!(
        got,
        vec![
            ("see [1]".to_string(), SpanStyle::Plain),
            ("x".to_string(), SpanStyle::Bold),
            ("[1]".to_string(), SpanStyle::Plain),
        ]
    );
    assert_eq!(next, 6);
    assert_eq!(fns.referenced(), 1);
}
