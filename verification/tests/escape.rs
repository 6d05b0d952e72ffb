use perfect_clear::escape_text;

#[test]
fn test_escape_doubles_braces() {
    assert_eq!(escape_text("{a}"), "{{a}}");
    assert_eq!(escape_text("{{"), "{{{{");
    assert_eq!(escape_text("}"), "}}");
}

#[test]
fn test_escape_leaves_plain_text_alone() {
    assert_eq!(escape_text(""), "");
    assert_eq!(escape_text("after"), "after");
    assert_eq!(escape_text("a b c"), "a b c");
}

#[test]
fn test_escape_mixed_text() {
    assert_eq!(escape_text("a {b} c"), "a {{b}} c");
    assert_eq!(escape_text("x{}y{}"), "x{{}}y{{}}");
}
