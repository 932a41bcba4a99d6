use spec_viewer::app::clipboard::{base64_encode, Clipboard, Osc52, TestSink};
use spec_viewer::app::keymap::{action_for_key, help_entries, Key};
use spec_viewer::app::loader::{format_size, format_ymd_hm, panel_inner_width, utc_ymd_hms};
use spec_viewer::app::{initial_tree_visible, Selection, TreeMode};

#[test]
fn base64_encode_matches_known_vectors() {
    assert_eq!(base64_encode(b""), "");
    assert_eq!(base64_encode(b"f"), "Zg==");
    assert_eq!(base64_encode(b"fo"), "Zm8=");
    assert_eq!(base64_encode(b"foo"), "Zm9v");
    assert_eq!(base64_encode(b"foob"), "Zm9vYg==");
    assert_eq!(base64_encode(b"fooba"), "Zm9vYmE=");
    assert_eq!(base64_encode(b"foobar"), "Zm9vYmFy");
}

#[test]
fn base64_of_high_bytes_uses_plus_and_slash() {
    assert_eq!(base64_encode(&[0xfb, 0xff]), "+/8=");
    assert_eq!(base64_encode("한".as_bytes()), "7ZWc");
}

#[test]
fn osc52_sequence_wraps_the_payload() {
    assert_eq!(Osc52::sequence("foo"), "\x1b]52;c;Zm9v\x07");
}

#[test]
fn test_sink_records_the_last_set_call() {
    let mut sink = TestSink::default();
    assert_eq!(sink.last(), None);
    sink.set("first");
    assert_eq!(sink.last(), Some("first".to_string()));
    sink.set("second");
    assert_eq!(sink.last(), Some("second".to_string()));
}

#[test]
fn test_sink_clone_shares_the_same_backing_cell() {
    let sink = TestSink::default();
    let mut handle = sink.clone();
    handle.set("via handle");
    assert_eq!(sink.last(), Some("via handle".to_string()));
}

#[test]
fn quit_key_resolves_to_quit_action() {
    assert_eq!(action_for_key(Key::Char('q')), Some("quit"));
}

#[test]
fn unrecognized_key_resolves_to_none() {
    assert_eq!(action_for_key(Key::Char('z')), None);
    assert_eq!(action_for_key(Key::Esc), None);
}

#[test]
fn keys_sharing_a_binding_share_its_action() {
    assert_eq!(action_for_key(Key::PageDown), Some("page_down"));
    assert_eq!(action_for_key(Key::Char('f')), Some("page_down"));
    assert_eq!(action_for_key(Key::End), Some("bottom"));
}

#[test]
fn help_entries_cover_quit_switch_panel_and_heading_jump() {
    let entries = help_entries();
    assert!(entries.iter().any(|(k, h)| k == "q" && h.contains("종료")));
    assert!(entries.iter().any(|(_, h)| h.contains("전환")));
    assert!(entries.iter().any(|(k, _)| k == "["));
    assert!(entries.iter().any(|(k, _)| k == "]"));
}

#[test]
fn help_entries_join_alternative_keys_with_slash() {
    let entries = help_entries();
    assert_eq!(entries.len(), 29);
    assert!(entries.iter().any(|(k, _)| k == "PageDown/f"));
    assert!(entries.iter().any(|(k, _)| k == "g/Home"));
}

#[test]
fn help_entries_include_all_four_layout_mode_keys() {
    let entries = help_entries();
    for (key, hint) in [("1", "자동"), ("2", "접기"), ("3", "펼치기"), ("4", "단일")] {
        assert!(
            entries.iter().any(|(k, h)| k == key && h.contains(hint)),
            "expected a help entry for {key:?} mentioning {hint:?}, got: {entries:?}"
        );
    }
}

#[test]
fn help_entries_include_toggle_tree_key() {
    let entries = help_entries();
    assert!(
        entries.iter().any(|(k, h)| k == "T" && h.contains("트리")),
        "expected a help entry for the tree-toggle key, got: {entries:?}"
    );
}

#[test]
fn initial_tree_visible_logic() {
    assert!(initial_tree_visible(TreeMode::Always, true, 80));
    assert!(initial_tree_visible(TreeMode::Always, false, 80));
    assert!(!initial_tree_visible(TreeMode::Hidden, true, 80));
    assert!(!initial_tree_visible(TreeMode::Hidden, false, 80));
    assert!(!initial_tree_visible(TreeMode::Auto, true, 80));
    assert!(initial_tree_visible(TreeMode::Auto, false, 80));
}

#[test]
fn initial_tree_visible_is_true_for_single_regardless_of_file_arg() {
    assert!(initial_tree_visible(TreeMode::Single, true, 80));
    assert!(initial_tree_visible(TreeMode::Single, false, 80));
}

#[test]
fn selection_orders_its_ends_in_reading_order() {
    let s = Selection { anchor: (3, 4), head: (1, 9) };
    assert_eq!(s.ordered(), ((1, 9), (3, 4)));
    let s = Selection { anchor: (2, 1), head: (2, 5) };
    assert_eq!(s.ordered(), ((2, 1), (2, 5)));
    let s = Selection { anchor: (2, 5), head: (2, 1) };
    assert_eq!(s.ordered(), ((2, 1), (2, 5)));
}

#[test]
fn format_size_human_readable_boundaries() {
    assert_eq!(format_size(0), "0B");
    assert_eq!(format_size(1023), "1023B");
    assert_eq!(format_size(1024), "1.0KB");
    assert_eq!(format_size(12_595), "12.3KB");
    assert_eq!(format_size(1_572_864), "1.5MB");
}

#[test]
fn format_size_rounds_half_to_even() {
    // 1.25 KiB and 1.75 KiB are exact ties.
    assert_eq!(format_size(1280), "1.2KB");
    assert_eq!(format_size(1792), "1.8KB");
    assert_eq!(format_size(1048575), "1024.0KB");
}

#[test]
fn utc_ymd_hms_matches_known_instants() {
    assert_eq!(utc_ymd_hms(0), (1970, 1, 1, 0, 0));
    assert_eq!(utc_ymd_hms(1_789_498_080), (2026, 9, 15, 18, 48));
}

#[test]
fn utc_ymd_hms_before_the_epoch_and_on_leap_days() {
    assert_eq!(utc_ymd_hms(-1), (1969, 12, 31, 23, 59));
    assert_eq!(utc_ymd_hms(951_782_400), (2000, 2, 29, 0, 0));
    assert_eq!(utc_ymd_hms(-62_135_596_800), (1, 1, 1, 0, 0));
}

#[test]
fn ymd_hm_text_is_zero_padded() {
    assert_eq!(format_ymd_hm(2026, 9, 5, 8, 7), "2026-09-05 08:07");
    assert_eq!(format_ymd_hm(33, 12, 31, 23, 59), "0033-12-31 23:59");
    assert_eq!(format_ymd_hm(-5, 1, 1, 0, 0), "-005-01-01 00:00");
}

#[test]
fn panel_inner_width_drops_the_frame() {
    assert_eq!(panel_inner_width(80), 78);
    assert_eq!(panel_inner_width(1), 0);
}
