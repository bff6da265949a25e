use dua::json::{is_control, push_json_string, push_number};

fn literal(text: &str) -> String {
    let mut out = String::new();
    push_json_string(&mut out, text);
    out
}

fn number(value: u64) -> String {
    let mut out = String::new();
    push_number(&mut out, value);
    out
}

#[test]
fn plain_text_is_quoted() {
    assert_eq!(literal(""), "\"\"");
    assert_eq!(literal("src/main.rs"), "\"src/main.rs\"");
}

#[test]
fn text_is_appended() {
    let mut out = String::from("{\"path\":");
    push_json_string(&mut out, "a");
    assert_eq!(out, "{\"path\":\"a\"");
}

#[test]
fn quotes_and_backslashes_are_escaped() {
    assert_eq!(literal("a\"b"), "\"a\\\"b\"");
    assert_eq!(literal("a\\b"), "\"a\\\\b\"");
}

#[test]
fn common_control_characters_have_short_escapes() {
    assert_eq!(literal("\n\r\t"), "\"\\n\\r\\t\"");
}

#[test]
fn other_control_characters_are_escaped_by_code() {
    assert_eq!(literal("\u{0}"), "\"\\u0000\"");
    assert_eq!(literal("\u{8}\u{c}"), "\"\\u0008\\u000c\"");
    assert_eq!(literal("\u{1b}[0m"), "\"\\u001b[0m\"");
    assert_eq!(literal("\u{1f}\u{7f}"), "\"\\u001f\\u007f\"");
    assert_eq!(literal("\u{80}\u{9f}"), "\"\\u0080\\u009f\"");
}

#[test]
fn other_characters_pass_through() {
    assert_eq!(literal(" ~\u{a0}/"), "\" ~\u{a0}/\"");
    assert_eq!(literal("\u{e4}\u{20ac}\u{1f600}\u{fffd}"), "\"\u{e4}\u{20ac}\u{1f600}\u{fffd}\"");
}

#[test]
fn control_characters_are_those_of_unicode() {
    for code in 0..=0x10ffff {
        if let Some(c) = char::from_u32(code) {
            assert_eq!(is_control(c), c.is_control(), "{code:x}");
        }
    }
}

#[test]
fn every_escape_is_four_hexadecimal_digits() {
    for code in 0..=0x10ffffu32 {
        if let Some(c) = char::from_u32(code) {
            if c.is_control() && c != '\n' && c != '\r' && c != '\t' {
                assert_eq!(literal(&c.to_string()), format!("\"\\u{:04x}\"", code));
            }
        }
    }
}

#[test]
fn numbers_are_decimal() {
    for value in [0, 1, 9, 10, 99, 100, 101, 1234567890, u64::MAX - 1, u64::MAX] {
        assert_eq!(number(value), value.to_string());
    }
}

#[test]
fn different_texts_have_different_literals() {
    let texts = ["", "n", "\n", "\\n", "\\\n", "u000a", "\\u000a", "\u{b}", "\""];
    for a in texts {
        for b in texts {
            assert_eq!(literal(a) == literal(b), a == b);
        }
    }
}

#[test]
fn literals_hold_no_control_character() {
    let mut text = String::new();
    for code in 0..0x200 {
        if let Some(c) = char::from_u32(code) {
            text.push(c);
        }
    }
    assert!(!literal(&text).chars().any(char::is_control));
}
