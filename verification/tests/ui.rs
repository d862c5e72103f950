use cnc_remedy::ui::{bad_fill, dots, info_fill, ok_fill, BAD_MARKER_WIDTH, OK_MARKER_WIDTH};

#[test]
fn markers_fill_the_line() {
    assert_eq!(ok_fill(80, 20, ), 53);
    assert_eq!(ok_fill(80, 20) + 20 + OK_MARKER_WIDTH, 80);
    assert_eq!(bad_fill(80, 20), 48);
    assert_eq!(bad_fill(80, 20) + 20 + BAD_MARKER_WIDTH, 80);
    assert_eq!(dots(3), "...");
    assert_eq!(dots(0), "");
}

#[test]
fn information_text_is_measured_in_graphemes() {
    assert_eq!(info_fill(80, 10, " [ не найден ]"), 56);
    assert_eq!(info_fill(80, 10, "e\u{301}"), 69);
    assert_eq!(info_fill(12, 10, "long text"), 0);
    assert_eq!(info_fill(12, 10, ""), 2);
}
