use rtrim::{is_flagged_line, trailing_whitespaces};

#[test]
fn trailing_space_before_line_feed_is_flagged() {
    assert!(trailing_whitespaces("foo \n"));
    assert!(trailing_whitespaces("foo\t\n"));
}

#[test]
fn trailing_blank_without_line_feed_is_flagged() {
    assert!(trailing_whitespaces("foo "));
    assert!(trailing_whitespaces("\t"));
}

#[test]
fn clean_lines_are_not_flagged() {
    assert!(!trailing_whitespaces("foo\n"));
    assert!(!trailing_whitespaces("foo"));
    assert!(!trailing_whitespaces(""));
    assert!(!trailing_whitespaces("\n"));
    assert!(!trailing_whitespaces(" foo\n"));
}

#[test]
fn only_one_line_feed_is_ignored() {
    assert!(!trailing_whitespaces("foo \n\n"));
}

#[test]
fn text_content_with_trailing_blank_is_flagged() {
    assert!(is_flagged_line(b"foo \n"));
    assert!(is_flagged_line("caf\u{e9}\t\n".as_bytes()));
    assert!(!is_flagged_line(b"foo\n"));
}

#[test]
fn invalid_utf8_is_never_flagged() {
    assert!(!is_flagged_line(&[0xff, 0xfe, 0x20, 0x0a]));
    assert!(!is_flagged_line(&[0xc3, 0x09]));
}
