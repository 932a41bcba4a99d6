use spec_viewer::markdown::mermaid::canvas::{box_mask, is_connector_char, mask_char, Canvas};

fn plain(c: Canvas) -> Vec<String> {
    c.into_lines().into_iter().map(|l| l.into_iter().collect()).collect()
}

#[test]
fn draws_box_with_text() {
    let mut c = Canvas::new(10, 3);
    c.set(0, 0, '┌');
    c.set(6, 0, '┐');
    c.set(0, 2, '└');
    c.set(6, 2, '┘');
    c.hline(1, 5, 0, '─');
    c.hline(1, 5, 2, '─');
    c.vline(0, 1, 1, '│');
    c.vline(6, 1, 1, '│');
    c.text(2, 1, "hi");
    assert_eq!(plain(c), vec!["┌─────┐", "│ hi  │", "└─────┘"]);
}

#[test]
fn lines_merge_into_junctions() {
    let mut c = Canvas::new(5, 3);
    c.hline(0, 4, 1, '─');
    c.vline(2, 0, 2, '│');
    assert_eq!(plain(c), vec!["  │", "──┼──", "  │"]);
}

#[test]
fn wide_chars_take_two_cells() {
    let mut c = Canvas::new(8, 1);
    c.text(0, 0, "한글");
    c.text(4, 0, "x");
    assert_eq!(plain(c), vec!["한글x"]);
}

#[test]
fn overwriting_wide_char_clears_partner() {
    let mut c = Canvas::new(4, 1);
    c.text(0, 0, "한");
    c.set(1, 0, 'x');
    assert_eq!(plain(c), vec![" x"]);
}

#[test]
fn wide_char_on_the_last_column_is_dropped() {
    let mut c = Canvas::new(3, 1);
    c.text(2, 0, "한");
    assert_eq!(plain(c), vec![""]);
}

#[test]
fn masks_round_trip_and_corners_merge() {
    for ch in ['─', '│', '┌', '┐', '└', '┘', '├', '┤', '┬', '┴', '┼'] {
        assert_eq!(mask_char(box_mask(ch).unwrap()), ch);
        assert!(is_connector_char(ch));
    }
    assert!(!is_connector_char('►'));
    let mut c = Canvas::new(3, 3);
    c.rect(0, 0, 3, 3);
    c.hline(0, 2, 1, '─');
    assert_eq!(plain(c), vec!["┌─┐", "┼─┼", "└─┘"]);
}

#[test]
fn soft_draw_and_clear() {
    let mut c = Canvas::new(3, 1);
    c.text(0, 0, "ab");
    c.draw_soft(0, 0, 'x');
    c.draw_soft(2, 0, 'y');
    assert_eq!(c.get(0, 0), 'a');
    assert_eq!(c.get(2, 0), 'y');
    assert_eq!(c.get(9, 9), ' ');
    c.clear_rect(0, 0, 2, 1);
    assert_eq!(plain(c), vec!["  y"]);
}
