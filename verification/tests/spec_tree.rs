use spec_viewer::spec::meta::parse_meta;
use spec_viewer::spec::{
    build, count_progress, definition, inclusion, sort_specs, Approval, DirSnapshot, DocEntry,
    DocKind, DocStatus, FileSnapshot, Inclusion, MetaError, Progress, SortKey, Spec,
    SpecDirSnapshot, SpecMeta,
};
use std::path::PathBuf;

// ------------------------------------------------------------ progress

const SAMPLE_SIGNUP_TASKS: &str = "# Tasks\n\n- [x] 1.1 First task done\n- [x] 1.2 Second task done\n- [ ] 2.1 Third task pending\n- [ ] 2.2 Fourth task pending\n- [X] 3.1 Fifth task done (capital X)\n";

const NO_CHECKBOXES_TASKS: &str = "# Tasks\n\nNothing to check off here yet.\n- a plain bullet\n";

#[test]
fn sample_signup_counts_mixed_checkboxes() {
    let progress = count_progress(SAMPLE_SIGNUP_TASKS).expect("should find checkboxes");
    assert_eq!(progress, Progress { done: 3, total: 5 });
}

#[test]
fn no_checkboxes_returns_none() {
    assert_eq!(count_progress(NO_CHECKBOXES_TASKS), None);
}

#[test]
fn optional_task_marker_counts_toward_total_not_done() {
    let md = "\
- [x] 1 done
- [ ]* 2 optional pending
- [ ] 3 pending
";
    let progress = count_progress(md).expect("should find checkboxes");
    assert_eq!(progress, Progress { done: 1, total: 3 });
}

#[test]
fn mixed_case_x_both_count_toward_done() {
    let md = "\
- [x] a lowercase done
- [X] b uppercase done
- [ ] c pending
";
    let progress = count_progress(md).expect("should find checkboxes");
    assert_eq!(progress, Progress { done: 2, total: 3 });
}

#[test]
fn non_checkbox_bullets_do_not_inflate_total() {
    let md = "\
- [x] 1.1 do the thing
  - DONE: told you so
  - _Requirements: 1.1_
- [ ] 1.2 pending thing
";
    let progress = count_progress(md).expect("should find checkboxes");
    assert_eq!(progress, Progress { done: 1, total: 2 });
}

#[test]
fn all_done_reports_done_equal_total() {
    let md = "\
- [x] 1 done
- [X] 2 done
";
    let progress = count_progress(md).expect("should find checkboxes");
    assert_eq!(progress, Progress { done: 2, total: 2 });
    assert_eq!(progress.done, progress.total);
}

#[test]
fn progress_ignores_markers_without_a_box_and_accepts_bare_dash() {
    // "-[x]" (marker without a space) still counts; "* [x]" does not.
    let md = "-[x] tight marker\n* [x] star bullet\n   [ ] indented box\n";
    assert_eq!(count_progress(md), Some(Progress { done: 1, total: 2 }));
}

#[test]
fn progress_of_empty_text_is_none() {
    assert_eq!(count_progress(""), None);
}

// ---------------------------------------------------------------- sort

fn spec(name: &str, phase: &str, updated_at: Option<&str>, progress: Option<(u32, u32)>) -> Spec {
    Spec {
        name: name.to_string(),
        dir: PathBuf::from(format!("/does/not/matter/{name}")),
        meta: Ok(SpecMeta {
            name: name.to_string(),
            phase: phase.to_string(),
            approvals: Vec::new(),
            updated_at: updated_at.map(str::to_string),
        }),
        docs: vec![DocEntry {
            kind: DocKind::Tasks,
            path: PathBuf::from("/does/not/matter/tasks.md"),
            exists: true,
            status: DocStatus::NotTracked,
            progress: progress.map(|(done, total)| Progress { done, total }),
        }],
        definition: None,
    }
}

fn broken_meta_spec(name: &str) -> Spec {
    Spec {
        name: name.to_string(),
        dir: PathBuf::from(format!("/does/not/matter/{name}")),
        meta: Err(MetaError::InvalidJson("n/a".to_string())),
        docs: vec![],
        definition: None,
    }
}

fn names(specs: &[Spec]) -> Vec<&str> {
    specs.iter().map(|s| s.name.as_str()).collect()
}

#[test]
fn cycle_advances_through_all_four_keys_and_wraps() {
    assert_eq!(SortKey::Name.cycle(), SortKey::Phase);
    assert_eq!(SortKey::Phase.cycle(), SortKey::Updated);
    assert_eq!(SortKey::Updated.cycle(), SortKey::Progress);
    assert_eq!(SortKey::Progress.cycle(), SortKey::Name);
}

#[test]
fn cycling_four_times_returns_to_the_start() {
    for k in [SortKey::Name, SortKey::Phase, SortKey::Updated, SortKey::Progress] {
        assert_eq!(k.cycle().cycle().cycle().cycle(), k);
    }
}

#[test]
fn labels_name_each_key() {
    assert_eq!(SortKey::Name.label(), "이름");
    assert_eq!(SortKey::Phase.label(), "단계");
    assert_eq!(SortKey::Updated.label(), "최근 갱신");
    assert_eq!(SortKey::Progress.label(), "진행률");
}

#[test]
fn from_cli_parses_case_insensitively_and_rejects_unknown() {
    assert_eq!(SortKey::from_cli("Progress"), Some(SortKey::Progress));
    assert_eq!(SortKey::from_cli("updated"), Some(SortKey::Updated));
    assert_eq!(SortKey::from_cli("bogus"), None);
}

#[test]
fn from_cli_accepts_all_caps() {
    assert_eq!(SortKey::from_cli("NAME"), Some(SortKey::Name));
    assert_eq!(SortKey::from_cli("pHaSe"), Some(SortKey::Phase));
    assert_eq!(SortKey::from_cli(""), None);
}

#[test]
fn sort_by_name_is_alphabetical() {
    let mut specs = vec![spec("charlie", "", None, None), spec("alpha", "", None, None), spec("bravo", "", None, None)];
    sort_specs(&mut specs, SortKey::Name);
    assert_eq!(names(&specs), vec!["alpha", "bravo", "charlie"]);
}

#[test]
fn sort_by_phase_is_alphabetical_with_name_tiebreak() {
    let mut specs = vec![
        spec("z-spec", "design", None, None),
        spec("a-spec", "design", None, None),
        spec("b-spec", "discovery", None, None),
    ];
    sort_specs(&mut specs, SortKey::Phase);
    assert_eq!(names(&specs), vec!["a-spec", "z-spec", "b-spec"]);
}

#[test]
fn sort_by_updated_is_most_recent_first_missing_sorts_last() {
    let mut specs = vec![
        spec("old", "", Some("2026-01-01T00:00:00Z"), None),
        spec("new", "", Some("2026-03-01T00:00:00Z"), None),
        spec("no-date", "", None, None),
        spec("mid", "", Some("2026-02-01T00:00:00Z"), None),
    ];
    sort_specs(&mut specs, SortKey::Updated);
    assert_eq!(names(&specs), vec!["new", "mid", "old", "no-date"]);
}

#[test]
fn sort_by_progress_is_most_complete_first_missing_sorts_last() {
    let mut specs = vec![
        spec("half", "", None, Some((1, 2))),
        spec("done", "", None, Some((5, 5))),
        spec("none", "", None, None),
        spec("quarter", "", None, Some((1, 4))),
    ];
    sort_specs(&mut specs, SortKey::Progress);
    assert_eq!(names(&specs), vec!["done", "half", "quarter", "none"]);
}

#[test]
fn sort_by_progress_equal_ratios_tie_break_by_name() {
    let mut specs = vec![
        spec("b", "", None, Some((2, 4))),
        spec("a", "", None, Some((1, 2))),
        spec("c", "", None, Some((0, 0))),
    ];
    sort_specs(&mut specs, SortKey::Progress);
    assert_eq!(names(&specs), vec!["a", "b", "c"]);
}

#[test]
fn broken_spec_json_does_not_panic_and_sorts_deterministically() {
    let mut specs = vec![
        spec("a-normal", "design", Some("2026-01-01T00:00:00Z"), None),
        broken_meta_spec("z-broken"),
    ];
    sort_specs(&mut specs, SortKey::Phase);
    assert_eq!(names(&specs), vec!["z-broken", "a-normal"]);

    sort_specs(&mut specs, SortKey::Updated);
    assert_eq!(names(&specs), vec!["a-normal", "z-broken"]);
}

#[test]
fn sort_of_nothing_is_nothing() {
    let mut specs: Vec<Spec> = Vec::new();
    sort_specs(&mut specs, SortKey::Name);
    assert!(specs.is_empty());
}

// ---------------------------------------------------------------- meta

#[test]
fn missing_name_is_an_error() {
    let result = parse_meta(r#"{"phase": "design"}"#);
    assert!(matches!(result, Err(MetaError::MissingName)));
}

#[test]
fn malformed_approval_entry_defaults_to_false_leniently() {
    let json = r#"{"feature_name": "x", "approvals": {"design": {"generated": "not-a-bool"}}}"#;
    let meta = parse_meta(json).expect("should parse leniently");
    assert_eq!(meta.approval(&DocKind::Design), Some(Approval { generated: false, approved: false }));
}

#[test]
fn feature_name_wins_over_name_and_unknown_keys_are_skipped() {
    let json = r#"{"name": "b", "feature_name": "a", "phase": "tasks", "updated_at": "2026-01-01", "approvals": {"bogus": {"approved": true}, "tasks": {"generated": true, "approved": true}}}"#;
    let meta = parse_meta(json).unwrap();
    assert_eq!(meta.name, "a");
    assert_eq!(meta.phase, "tasks");
    assert_eq!(meta.updated_at.as_deref(), Some("2026-01-01"));
    assert_eq!(meta.approvals.len(), 1);
    assert_eq!(meta.approval(&DocKind::Tasks), Some(Approval { generated: true, approved: true }));
}

#[test]
fn invalid_json_is_an_error_with_the_parser_message() {
    match parse_meta("{ not json") {
        Err(e @ MetaError::InvalidJson(_)) => assert!(e.message().starts_with("invalid JSON: ")),
        other => panic!("expected InvalidJson, got {other:?}"),
    }
    assert_eq!(
        MetaError::MissingName.message(),
        "missing required name field (\"feature_name\" or \"name\")"
    );
}

// --------------------------------------------------------------- build

fn file(dir: &str, name: &str, content: &str) -> FileSnapshot {
    FileSnapshot { name: name.to_string(), path: PathBuf::from(dir).join(name), content: content.to_string() }
}

fn spec_dir(name: &str, files: Vec<(&str, &str)>) -> SpecDirSnapshot {
    let dir = format!("/fixtures/kiro/specs/{name}");
    SpecDirSnapshot {
        name: name.to_string(),
        dir: PathBuf::from(&dir),
        files: files.into_iter().map(|(n, c)| file(&dir, n, c)).collect(),
    }
}

fn sample_signup() -> SpecDirSnapshot {
    spec_dir(
        "sample-signup",
        vec![
            ("spec.json", r#"{"name": "sample-signup", "phase": "implementation", "approvals": {"requirements": {"generated": true, "approved": true}, "bizProcess": {"generated": true, "approved": false}, "design": {"generated": true, "approved": false}}}"#),
            ("requirements.md", "# Requirements\n\n## 정의\n\n회원가입 절차를 검증하는 요구사항 스펙이다.\n\n## Requirements\n\n- one\n"),
            ("biz-process.md", "# Biz\n"),
            ("design.md", "# Design\n"),
            ("tasks.md", SAMPLE_SIGNUP_TASKS),
        ],
    )
}

fn doc<'a>(spec: &'a Spec, kind: &DocKind) -> &'a DocEntry {
    spec.docs.iter().find(|d| &d.kind == kind).unwrap_or_else(|| panic!("expected a doc entry for {kind:?}"))
}

#[test]
fn sample_signup_standard_order_and_definition_and_progress() {
    let snapshot = DirSnapshot { specs: vec![sample_signup()], steering: vec![] };
    let root = build(&snapshot);

    assert_eq!(root.specs.len(), 1);
    let spec = &root.specs[0];
    assert_eq!(spec.name, "sample-signup");

    let kinds: Vec<&DocKind> = spec.docs.iter().map(|d| &d.kind).collect();
    assert_eq!(kinds, vec![&DocKind::Requirements, &DocKind::BizProcess, &DocKind::Design, &DocKind::Tasks]);

    let definition = spec.definition.as_ref().expect("definition present");
    assert!(definition.contains("회원가입 절차를 검증하는 요구사항 스펙이다"));

    let tasks = doc(spec, &DocKind::Tasks);
    assert_eq!(tasks.progress, Some(Progress { done: 3, total: 5 }));
    assert!(tasks.exists);
    assert_eq!(tasks.status, DocStatus::NoRecord);

    let requirements = doc(spec, &DocKind::Requirements);
    assert!(requirements.exists);
    assert_eq!(requirements.status, DocStatus::Approved);

    let biz_process = doc(spec, &DocKind::BizProcess);
    assert!(biz_process.exists);
    assert_eq!(biz_process.status, DocStatus::Generated);

    let design = doc(spec, &DocKind::Design);
    assert!(design.exists);
    assert_eq!(design.status, DocStatus::Generated);
}

#[test]
fn bugfix_only_uses_bugfix_slot_with_missing_siblings() {
    let sd = spec_dir(
        "bugfix-only",
        vec![
            ("spec.json", r#"{"feature_name": "bugfix-only", "phase": "design", "approvals": {"bugfix": {"generated": true, "approved": true}, "design": {"generated": true, "approved": false}, "tasks": {"generated": false, "approved": false}}}"#),
            ("bugfix.md", "# Bugfix\n\n## 정의\n\n로그인 실패를 고치는 버그픽스 스펙이다.\n"),
        ],
    );
    let root = build(&DirSnapshot { specs: vec![sd], steering: vec![] });
    let spec = &root.specs[0];

    let first = &spec.docs[0];
    assert_eq!(first.kind, DocKind::Bugfix);
    assert!(first.exists);
    assert_eq!(first.status, DocStatus::Approved);

    let definition = spec.definition.as_ref().expect("definition present");
    assert!(definition.contains("버그픽스 스펙이다"));

    let biz_process = doc(spec, &DocKind::BizProcess);
    assert!(!biz_process.exists);
    assert_eq!(biz_process.status, DocStatus::NoRecord);

    let design = doc(spec, &DocKind::Design);
    assert!(!design.exists);
    assert_eq!(design.status, DocStatus::Generated);

    let tasks = doc(spec, &DocKind::Tasks);
    assert!(!tasks.exists);
    assert_eq!(tasks.status, DocStatus::Missing);
    assert_eq!(tasks.progress, None);
}

#[test]
fn with_extra_other_file_sorts_after_research() {
    let sd = spec_dir(
        "with-extra",
        vec![
            ("notes.md", "# Notes\n"),
            ("spec.json", r#"{"name": "with-extra"}"#),
            ("requirements.md", "# Requirements\n"),
            ("design.md", "# Design\n"),
            ("tasks.md", "- [ ] one\n"),
            ("research.md", "# Research\n"),
        ],
    );
    let root = build(&DirSnapshot { specs: vec![sd], steering: vec![] });
    let spec = &root.specs[0];

    let kinds: Vec<&DocKind> = spec.docs.iter().map(|d| &d.kind).collect();
    assert_eq!(
        kinds,
        vec![
            &DocKind::Requirements,
            &DocKind::BizProcess,
            &DocKind::Design,
            &DocKind::Tasks,
            &DocKind::Research,
            &DocKind::Other("notes.md".to_string()),
        ]
    );

    let biz_process = doc(spec, &DocKind::BizProcess);
    assert!(!biz_process.exists);

    let research = doc(spec, &DocKind::Research);
    assert!(research.exists);
    assert_eq!(research.status, DocStatus::NotTracked);

    let other = doc(spec, &DocKind::Other("notes.md".to_string()));
    assert!(other.exists);
    assert_eq!(other.status, DocStatus::NotTracked);
    assert_eq!(other.progress, None);
}

#[test]
fn other_files_are_sorted_by_name() {
    let sd = spec_dir("many", vec![("zeta.md", ""), ("alpha.md", ""), ("Mid.txt", ""), ("spec.json", "{}")]);
    let root = build(&DirSnapshot { specs: vec![sd], steering: vec![] });
    let others: Vec<&DocKind> = root.specs[0].docs[4..].iter().map(|d| &d.kind).collect();
    assert_eq!(
        others,
        vec![
            &DocKind::Other("Mid.txt".to_string()),
            &DocKind::Other("alpha.md".to_string()),
            &DocKind::Other("zeta.md".to_string()),
        ]
    );
    assert!(matches!(root.specs[0].meta, Err(MetaError::MissingName)));
    assert_eq!(root.specs[0].docs[4].path, PathBuf::from("/fixtures/kiro/specs/many").join("Mid.txt"));
}

#[test]
fn no_approvals_yields_no_record_not_missing() {
    let sd = spec_dir(
        "no-approvals",
        vec![("spec.json", r#"{"name": "no-approvals", "phase": "discovery"}"#), ("requirements.md", "# R\n")],
    );
    let root = build(&DirSnapshot { specs: vec![sd], steering: vec![] });
    let spec = &root.specs[0];

    assert!(spec.meta.is_ok());

    let requirements = doc(spec, &DocKind::Requirements);
    assert!(requirements.exists);
    assert_eq!(requirements.status, DocStatus::NoRecord);

    let design = doc(spec, &DocKind::Design);
    assert!(!design.exists);
    assert_eq!(design.status, DocStatus::NoRecord);

    let tasks = doc(spec, &DocKind::Tasks);
    assert!(!tasks.exists);
    assert_eq!(tasks.status, DocStatus::NoRecord);
    assert_eq!(tasks.progress, None);

    let biz_process = doc(spec, &DocKind::BizProcess);
    assert!(!biz_process.exists);
    assert_eq!(biz_process.status, DocStatus::NoRecord);
}

#[test]
fn broken_json_yields_no_record_but_docs_still_shown() {
    let sd = spec_dir("broken-json", vec![("spec.json", "{ this is not json"), ("requirements.md", "# R\n")]);
    let root = build(&DirSnapshot { specs: vec![sd], steering: vec![] });
    let spec = &root.specs[0];

    assert!(spec.meta.is_err());

    let requirements = doc(spec, &DocKind::Requirements);
    assert!(requirements.exists);
    assert_eq!(requirements.path, spec.dir.join("requirements.md"));
    assert_eq!(requirements.status, DocStatus::NoRecord);

    let design = doc(spec, &DocKind::Design);
    assert!(!design.exists);
    assert_eq!(design.path, spec.dir.join("design.md"));
    assert_eq!(design.status, DocStatus::NoRecord);

    let tasks = doc(spec, &DocKind::Tasks);
    assert!(!tasks.exists);
    assert_eq!(tasks.status, DocStatus::NoRecord);

    let biz_process = doc(spec, &DocKind::BizProcess);
    assert!(!biz_process.exists);
    assert_eq!(biz_process.status, DocStatus::NoRecord);
}

#[test]
fn missing_spec_json_is_reported_as_not_found() {
    let sd = spec_dir("no-json", vec![("requirements.md", "# R\n")]);
    let root = build(&DirSnapshot { specs: vec![sd], steering: vec![] });
    assert_eq!(root.specs[0].meta, Err(MetaError::InvalidJson("spec.json not found".to_string())));
}

#[test]
fn sample_billing_has_no_definition() {
    let sd = spec_dir(
        "sample-billing",
        vec![
            ("spec.json", r#"{"feature_name": "sample-billing", "phase": "design", "updated_at": "2026-02-02T00:00:00Z"}"#),
            ("requirements.md", "# Billing\n\n## Overview\n\nNo definition section here.\n"),
        ],
    );
    let root = build(&DirSnapshot { specs: vec![sd], steering: vec![] });
    assert_eq!(root.specs[0].definition, None);
}

#[test]
fn steering_docs_get_expected_inclusion_values() {
    let dir = "/fixtures/kiro/steering";
    let steering = vec![
        file(dir, "product.md", "# Product\n"),
        file(dir, "tech.md", "---\ninclusion: always\n---\n# Tech\n"),
        file(dir, "domain-terms.md", "---\ninclusion: manual\n---\n# Terms\n"),
    ];
    let root = build(&DirSnapshot { specs: vec![], steering });

    assert_eq!(root.specs.len(), 0);
    assert_eq!(root.steering.len(), 3);

    let find = |name: &str| {
        root.steering.iter().find(|s| s.name == name).unwrap_or_else(|| panic!("expected steering doc {name}"))
    };

    assert_eq!(find("product.md").inclusion, Inclusion::Always);
    assert_eq!(find("tech.md").inclusion, Inclusion::Always);
    assert_eq!(find("domain-terms.md").inclusion, Inclusion::Manual);
}

#[test]
fn definition_stops_at_next_h2_and_trims_blank_lines() {
    let doc_md = "\
# Title

## 정의

Line one.
Line two.

## Boundary Context

Should not be included.
";
    let result = definition(doc_md).expect("definition present");
    assert_eq!(result, "Line one.\nLine two.");
}

#[test]
fn definition_absent_or_blank_is_none() {
    assert_eq!(definition("# Title\n\nbody\n"), None);
    assert_eq!(definition("## 정의\n\n   \n## Next\n"), None);
    assert_eq!(definition("  ## 정의  \nonly line"), Some("only line".to_string()));
}

#[test]
fn inclusion_with_no_front_matter_defaults_to_always() {
    let steering_md = "# Product\nNo front matter here.\n";
    assert_eq!(inclusion(steering_md), Inclusion::Always);
}

#[test]
fn inclusion_values_quotes_and_unknowns() {
    assert_eq!(inclusion("---\ninclusion: \"fileMatch\"\n---\n"), Inclusion::FileMatch);
    assert_eq!(inclusion("---\ntitle: x\ninclusion : 'auto'\n---\n"), Inclusion::Auto);
    assert_eq!(inclusion("---\ninclusion: sometimes\n---\n"), Inclusion::Always);
    assert_eq!(inclusion("---\ninclusion: manual\n"), Inclusion::Always);
}
