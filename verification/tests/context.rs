use ghostty_config::context::{cursor_in_line, parse_line_context, LineContext};
use ghostty_config::text::{lines_of, str_contains, trim_str};

fn key_of(ctx: LineContext) -> Option<String> {
    match ctx {
        LineContext::Key(k) => Some(k),
        _ => None,
    }
}

fn value_of(ctx: LineContext) -> Option<(String, String)> {
    match ctx {
        LineContext::Value { key, partial } => Some((key, partial)),
        _ => None,
    }
}

#[test]
fn comment_line_is_comment() {
    assert!(matches!(parse_line_context("  # font-size = 12", 5), LineContext::Comment));
    assert!(matches!(parse_line_context("#", 0), LineContext::Comment));
}

#[test]
fn cursor_before_equals_completes_key() {
    assert_eq!(key_of(parse_line_context("font-size = 12", 4)), Some("font".to_string()));
    assert_eq!(key_of(parse_line_context("  font-size = 12", 11)), Some("font-size".to_string()));
    // at the equals sign itself
    assert_eq!(key_of(parse_line_context("theme=dark", 5)), Some("theme".to_string()));
}

#[test]
fn cursor_after_equals_completes_value() {
    assert_eq!(
        value_of(parse_line_context("cursor-style =  bl", 18)),
        Some(("cursor-style".to_string(), "bl".to_string()))
    );
    assert_eq!(
        value_of(parse_line_context("theme=dark", 6)),
        Some(("theme".to_string(), "".to_string()))
    );
    // the value keeps trailing blanks up to the cursor
    assert_eq!(
        value_of(parse_line_context("keybind = ctrl+a =x", 17)),
        Some(("keybind".to_string(), "ctrl+a ".to_string()))
    );
}

#[test]
fn line_without_equals_is_key_up_to_cursor() {
    assert_eq!(key_of(parse_line_context("  fon", 4)), Some("fo".to_string()));
    // cursor past the end of the line is bounded by the line
    assert_eq!(key_of(parse_line_context("font ", 40)), Some("font".to_string()));
    assert_eq!(key_of(parse_line_context("", 3)), Some("".to_string()));
}

#[test]
fn byte_positions_with_wide_characters() {
    // "é" takes two bytes
    assert!(cursor_in_line("é = x", 2));
    assert!(!cursor_in_line("é = x", 1));
    assert_eq!(key_of(parse_line_context("é = x", 2)), Some("é".to_string()));
    assert_eq!(
        value_of(parse_line_context("k = é", 6)),
        Some(("k".to_string(), "é".to_string()))
    );
    assert!(!cursor_in_line("k = é", 5));
}

#[test]
fn cursor_past_end_after_equals_is_rejected() {
    assert!(!cursor_in_line("a = b", 6));
    assert!(cursor_in_line("a = b", 5));
    assert!(cursor_in_line("no equals", 100));
    assert!(cursor_in_line("# comment = é", 99));
}

#[test]
fn lines_split_like_str_lines() {
    let ls: Vec<String> = lines_of("a\r\nb\n\nc\r").into_iter().map(|l| l.into_iter().collect()).collect();
    assert_eq!(ls, vec!["a".to_string(), "b".to_string(), "".to_string(), "c\r".to_string()]);
    assert!(lines_of("").is_empty());
    assert_eq!(lines_of("x\n").len(), 1);
}

#[test]
fn trim_and_contains() {
    assert_eq!(trim_str("\u{3000} a b \t"), "a b");
    assert!(str_contains("font-size", "t-s"));
    assert!(str_contains("abc", ""));
    assert!(!str_contains("ab", "abc"));
}
