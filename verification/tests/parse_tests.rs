use command_rs::parse::{is_reserved, parse_quoted, parse_unquoted};

#[test]
fn parse_simple_words() {
    let r = parse_unquoted("foo bar baz \"multi word parse\"").unwrap();
    assert_eq!(r, vec!["foo", "bar", "baz", "multi word parse"]);
}

#[test]
fn parse_empty_string() {
    let r = parse_unquoted("").unwrap();
    assert!(r.is_empty());
}

#[test]
fn parse_collapses_spaces() {
    let r = parse_unquoted("  a   b  ").unwrap();
    assert_eq!(r, vec!["a", "b"]);
}

#[test]
fn parse_quoted_empty_arg() {
    let r = parse_unquoted("\"\"").unwrap();
    assert_eq!(r, vec![""]);
}

#[test]
fn parse_quote_keeps_spaces_and_reserved() {
    let r = parse_unquoted("\"a $ b\" c").unwrap();
    assert_eq!(r, vec!["a $ b", "c"]);
}

#[test]
fn parse_word_after_quote() {
    let r = parse_unquoted("\"ab\"cd").unwrap();
    assert_eq!(r, vec!["ab", "cd"]);
}

#[test]
fn parse_quote_mid_arg_fails() {
    let r = parse_unquoted("ab\"cd\"");
    assert_eq!(r.unwrap_err(), "Found ' in the middle of arg");
}

#[test]
fn parse_unterminated_quote_fails() {
    let r = parse_unquoted("\"abc");
    assert_eq!(r.unwrap_err(), "Failed to find matching '");
}

#[test]
fn parse_reserved_character_fails() {
    let r = parse_unquoted("a$b");
    assert_eq!(r.unwrap_err(), "Reserved character");
    assert_eq!(parse_unquoted("x !").unwrap_err(), "Reserved character");
}

#[test]
fn reserved_characters() {
    for c in "~`#$&*()\\|[]{};'\"<>/?!".chars() {
        assert!(is_reserved(c));
    }
    assert!(!is_reserved('a'));
    assert!(!is_reserved(' '));
    assert!(!is_reserved('-'));
    assert!(!is_reserved('.'));
}

#[test]
fn parse_quoted_stretch() {
    let (content, next) = parse_quoted("ab\"cd", 0).unwrap();
    assert_eq!(content, "ab");
    assert_eq!(next, 3);
}

#[test]
fn parse_quoted_without_closing_quote() {
    let r = parse_quoted("abc", 0);
    assert_eq!(r.unwrap_err(), "Failed to find matching '");
}
