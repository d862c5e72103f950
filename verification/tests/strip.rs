use cnc_remedy::strip::{join_crlf, strip_comment_lines};

fn stripped(content: &str, keep: Option<&str>, chars: Option<&str>, mode: Option<&str>) -> (String, usize) {
    let r = strip_comment_lines(content.as_bytes(), keep, chars, mode);
    (join_crlf(&r.kept), r.removed)
}

#[test]
fn comment_lines_go() {
    let (text, removed) = stripped(
        "MSG(\"Test\")\r\n; this is a comment\r\nN10 G0 X0\r\n; another comment\r\n",
        Some(""),
        None,
        None,
    );
    assert_eq!(text, "MSG(\"Test\")\r\nN10 G0 X0");
    assert_eq!(removed, 2);
}

#[test]
fn keep_fragments_keep_comment_lines() {
    let (text, removed) = stripped(
        ";MSG(\"Test\")\r\n;INFO(\"note\")\r\n; strip this\r\nN10 G0 X0\r\n",
        Some("MSG, INFO,"),
        None,
        None,
    );
    assert_eq!(text, ";MSG(\"Test\")\r\n;INFO(\"note\")\r\nN10 G0 X0");
    assert_eq!(removed, 1);
}

#[test]
fn several_comment_characters() {
    let (text, _) = stripped(
        "; semicolon comment\r\n% percent comment\r\n/ slash comment\r\nN10 G0 X0\r\n",
        Some(""),
        Some(";%/"),
        None,
    );
    assert_eq!(text, "N10 G0 X0");
}

#[test]
fn contains_mode_strips_inline_comments() {
    let (text, _) = stripped(
        "N10 G0 X0 ; inline comment\r\n; full line comment\r\nN20 G1 Z-1\r\n",
        None,
        Some(";"),
        Some("contains"),
    );
    assert_eq!(text, "N20 G1 Z-1");
    let (text, _) = stripped(
        "N10 G0 X0 ;MSG(\"test\")\r\nN20 G1 Z-1\r\n",
        Some("MSG"),
        Some(";"),
        Some("contains"),
    );
    assert_eq!(text, "N10 G0 X0 ;MSG(\"test\")\r\nN20 G1 Z-1");
}

#[test]
fn nothing_to_strip_and_stripping_again() {
    let (text, removed) = stripped("N10 G0 X0\r\nN20 G1 Z-1\r\n", None, None, None);
    assert_eq!(removed, 0);
    assert_eq!(text, "N10 G0 X0\r\nN20 G1 Z-1");
    let (once, _) = stripped("  ; a\r\nN1\r\n(b)\r\n", None, None, None);
    let (twice, removed) = stripped(&once, None, None, None);
    assert_eq!(once, "N1\r\n(b)");
    assert_eq!(twice, once);
    assert_eq!(removed, 0);
}
