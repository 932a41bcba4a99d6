use spec_viewer::app::loader::format_ymd_hm;
use spec_viewer::markdown::code::push_mermaid_lines;
use spec_viewer::markdown::mermaid::Fallback;
use spec_viewer::spec::fs_tree::{keep_spec_dir, keep_spec_file, keep_steering_file};
use spec_viewer::spec::meta::{meta_from_json, Json, MetaError};

fn plain_of(v: &[String]) -> Vec<&str> {
    v.iter().map(|s| s.as_str()).collect()
}

#[test]
fn mermaid_fallback_shows_label_then_cut_source() {
    let mut out = Vec::new();
    let mut plain = Vec::new();
    let res: Result<Vec<String>, Fallback> = Err(Fallback::Overflow { kind: "flowchart".to_string() });
    push_mermaid_lines(&res, "graph TB\n  A --> Bcdefghijk", 10, &mut out, &mut plain);
    assert_eq!(plain_of(&plain), vec!["Mermaid (Overflow): flowchart", "graph TB", "  A --> B…"]);
    assert_eq!(out.len(), 3);
}

#[test]
fn mermaid_drawn_lines_are_kept() {
    let mut out = Vec::new();
    let mut plain = Vec::new();
    let res: Result<Vec<String>, Fallback> = Ok(vec!["┌─┐".to_string(), "└─┘".to_string()]);
    push_mermaid_lines(&res, "graph TB\n  A", 40, &mut out, &mut plain);
    assert_eq!(plain_of(&plain), vec!["┌─┐", "└─┘"]);
}

#[test]
fn modified_time_has_date_and_clock_shape() {
    let s: Vec<char> = format_ymd_hm(2024, 1, 2, 3, 4).chars().collect();
    assert_eq!(s.len(), 16);
    assert_eq!((s[4], s[7], s[10], s[13]), ('-', '-', ' ', ':'));
    assert!(s.iter().enumerate().all(|(i, c)| [4, 7, 10, 13].contains(&i) || c.is_ascii_digit()));
}

#[test]
fn snapshot_filters() {
    assert!(keep_spec_dir("auth", true));
    assert!(!keep_spec_dir(".git", true));
    assert!(!keep_spec_dir("auth", false));
    assert!(keep_spec_file("design.md", true));
    assert!(!keep_spec_file(".DS_Store", true));
    assert!(keep_steering_file("tech.md", true));
    assert!(!keep_steering_file("tech.txt", true));
    assert!(!keep_steering_file("md", true));
}

#[test]
fn meta_from_a_parsed_document() {
    let doc = Json::Object(vec![
        ("name".to_string(), Json::Str("fallback".to_string())),
        ("feature_name".to_string(), Json::Str("auth".to_string())),
        ("phase".to_string(), Json::Str("design".to_string())),
    ]);
    let m = meta_from_json(&doc).ok().unwrap();
    assert_eq!(m.name, "auth");
    assert_eq!(m.phase, "design");
    assert!(m.approvals.is_empty());
    assert_eq!(m.updated_at, None);
    assert!(matches!(meta_from_json(&Json::Null), Err(MetaError::MissingName)));
}
