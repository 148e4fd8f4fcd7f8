use anthropic_compat::text::{
    append_text, contains_in_lower_case, decimal_text, is_white_space_char, split_lines, split_once,
    strip_prefix, trim, trim_end_char, trim_start, trim_start_matches,
};
use anthropic_compat::thinking::{normalize_raw_thinking, split_raw_thinking};

#[test]
fn white_space_is_that_of_unicode() {
    for c in '\0'..=char::MAX {
        assert_eq!(is_white_space_char(c), c.is_whitespace());
    }
}

#[test]
fn texts_are_cut_as_std_cuts_them() {
    let texts = ["", " ", "a", " \u{3000}a b\u{85}\r\n", "a\nb\r\n\nc\r", "\n", "\r\n", "xx-xx-y", "\u{e9}x"];
    for text in texts {
        assert_eq!(trim(text), text.trim());
        assert_eq!(trim_start(text), text.trim_start());
        assert_eq!(trim_end_char(text, '\r'), text.trim_end_matches('\r'));
        assert_eq!(trim_start_matches(text, "xx-"), text.trim_start_matches("xx-"));
        assert_eq!(strip_prefix(text, "xx"), text.strip_prefix("xx"));
        assert_eq!(split_once(text, "-"), text.split_once("-"));
        assert_eq!(split_once(text, "b"), text.split_once("b"));
        assert_eq!(split_lines(text), text.split('\n').collect::<Vec<&str>>());
    }
}

#[test]
fn letters_and_digits() {
    for n in [0, 7, 10, 1234567890, u64::MAX] {
        assert_eq!(decimal_text(n), n.to_string());
    }
    assert!(contains_in_lower_case("A KiMi2.7B", "kimi2.7"));
    assert!(!contains_in_lower_case("kimi-2.7", "kimi2.7"));
    assert!(!contains_in_lower_case("\u{212a}imi2.7", "kimi2.7"));
}

#[test]
fn texts_are_put_on_lines() {
    let mut text = String::new();
    append_text(&mut text, None);
    append_text(&mut text, Some(""));
    append_text(&mut text, Some("a"));
    append_text(&mut text, Some(""));
    append_text(&mut text, Some("b"));
    assert_eq!(text, "a\nb");
}

#[test]
fn reasoning_in_front_of_the_tag() {
    assert_eq!(normalize_raw_thinking(" <think> a\n"), "a");
    assert_eq!(normalize_raw_thinking("a <think>"), "a <think>");
    assert_eq!(normalize_raw_thinking("<think><think>"), "<think>");
    assert_eq!(split_raw_thinking("no tag"), None);
    assert_eq!(split_raw_thinking("</think>"), Some(("", "")));
    assert_eq!(
        split_raw_thinking("<think>a</think> b</think> c"),
        Some(("a", "b</think> c"))
    );
}
