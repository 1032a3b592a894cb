use tds::draw::format_dash_line;
use tds::draw::format_space_line;
use tds::draw::format_with_dash_wrap;
use tds::draw::format_with_space_wrap;

#[test]
fn test_format_dash_line() {
    assert_eq!(format_dash_line(5), "-----");
    assert_eq!(format_dash_line(1), "-")
}

#[test]
fn test_format_with_dash_wrap() {
    assert_eq!(format_with_dash_wrap("hehe", 10, 1, ""), "-- hehe --");
    assert_eq!(format_with_dash_wrap("heh", 10, 1, ""), "-- heh ---");
    assert_eq!(format_with_dash_wrap("hehe", 11, 1, ""), "-- hehe ---");
    assert_eq!(format_with_dash_wrap("hehe", 10, 0, ""), "---hehe---");
    assert_eq!(format_with_dash_wrap("heh", 12, 2, ""), "--  heh  ---");
    assert_eq!(format_with_dash_wrap("index", 13, 1, "|+"), "|+- index -+|");
}

#[test]
fn test_dash_wrap_truncates_label() {
    assert_eq!(format_with_dash_wrap("abcdefgh", 6, 0, ""), "abcdef");
    assert_eq!(format_with_dash_wrap("abcdefgh", 8, 1, ""), " abcdef ");
}

#[test]
fn test_format_space_line() {
    assert_eq!(format_space_line(0), "");
    assert_eq!(format_space_line(4), "    ");
}

#[test]
fn test_format_with_space_wrap_ascii() {
    assert_eq!(format_with_space_wrap("hehe", 10), "   hehe   ");
    assert_eq!(format_with_space_wrap("age", 12), "    age     ");
    assert_eq!(format_with_space_wrap("", 3), "   ");
    assert_eq!(format_with_space_wrap("abc", 0), "");
    // the budget must strictly exceed a character's width for it to fit
    assert_eq!(format_with_space_wrap("abcd", 4), "abc ");
}

#[test]
fn test_format_with_space_wrap_wide_chars() {
    // a wide glyph takes two columns, so only one fits in a field of four
    assert_eq!(format_with_space_wrap("\u{4f60}\u{597d}", 4), " \u{4f60} ");
    // control characters take no space at all
    assert_eq!(format_with_space_wrap("a\tb", 5), " ab  ");
}
