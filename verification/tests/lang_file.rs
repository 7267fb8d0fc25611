use rust_app_sample::text::char_is_whitespace;
use rust_app_sample::lang_file::{parse_key_from_content, translate_content};

#[test]
fn finds_a_plain_entry() {
    let content = "greeting=こんにちは\nbye = さようなら\n";
    assert_eq!(parse_key_from_content(content, "bye"), "さようなら");
    assert_eq!(parse_key_from_content(content, "greeting"), "こんにちは");
}

#[test]
fn byte_order_mark_opening_the_file_is_ignored() {
    assert_eq!(parse_key_from_content("\u{feff}greeting=Hello", "greeting"), "Hello");
}

#[test]
fn byte_order_marks_before_a_key_are_ignored() {
    assert_eq!(parse_key_from_content("x=1\n\u{feff}\u{feff}y=2", "y"), "2");
}

#[test]
fn comment_lines_define_nothing() {
    assert_eq!(parse_key_from_content("# greeting=no\ngreeting=yes", "greeting"), "yes");
    assert_eq!(parse_key_from_content("  # greeting=no", "greeting"), "[Key not found: greeting]");
}

#[test]
fn blank_lines_and_carriage_returns_are_trimmed() {
    let content = "\r\n\r\n  greeting =  hi there  \r\n";
    assert_eq!(parse_key_from_content(content, "greeting"), "hi there");
}

#[test]
fn tabs_and_wide_spaces_are_white_space() {
    assert_eq!(parse_key_from_content("\tkey\u{3000}=\u{a0}value\t", "key"), "value");
}

#[test]
fn first_definition_wins() {
    assert_eq!(parse_key_from_content("a=1\na=2", "a"), "1");
}

#[test]
fn value_may_hold_equals_signs() {
    assert_eq!(parse_key_from_content("url = a=b", "url"), "a=b");
}

#[test]
fn line_without_equals_sign_is_skipped() {
    assert_eq!(parse_key_from_content("a\na=ok", "a"), "ok");
}

#[test]
fn empty_value_is_found() {
    assert_eq!(parse_key_from_content("a=   ", "a"), "");
}

#[test]
fn missing_key_gives_the_not_found_text() {
    assert_eq!(parse_key_from_content("a=1", "b"), "[Key not found: b]");
    assert_eq!(parse_key_from_content("", "k"), "[Key not found: k]");
}

#[test]
fn parse_does_not_trim_the_requested_key() {
    assert_eq!(parse_key_from_content("a=1", " a"), "[Key not found:  a]");
}

#[test]
fn translate_trims_the_requested_key() {
    assert_eq!(translate_content("a=1", "  a \t"), "1");
    assert_eq!(translate_content("a=1", " b "), "[Key not found: b]");
}

#[test]
fn translate_removes_nul_characters() {
    assert_eq!(translate_content("a=x\0y", "a"), "xy");
    assert!(!translate_content("a=\0\0", "a").contains('\0'));
}

#[test]
fn lines_appended_after_a_definition_keep_it() {
    let content = "# header\ngreeting = hi";
    assert_eq!(parse_key_from_content(&format!("{}\n{}", content, "greeting=other\nx=1"), "greeting"), "hi");
    assert_eq!(parse_key_from_content(content, "greeting"), "hi");
}

#[test]
fn white_space_test_agrees_with_std() {
    for u in 0u32..=0x10ffff {
        if let Some(c) = char::from_u32(u) {
            assert_eq!(char_is_whitespace(c), c.is_whitespace(), "U+{:04X}", u);
        }
    }
}
