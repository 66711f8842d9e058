use sketchgames::text::{char_is_whitespace, to_ascii_lowercase};

#[test]
fn whitespace_follows_unicode() {
    for c in [' ', '\t', '\n', '\r', '\u{0b}', '\u{0c}', '\u{85}', '\u{a0}', '\u{1680}', '\u{2000}', '\u{200a}', '\u{2028}', '\u{2029}', '\u{202f}', '\u{205f}', '\u{3000}'] {
        assert!(char_is_whitespace(c));
        assert_eq!(char_is_whitespace(c), c.is_whitespace());
    }
    for c in ['a', '0', '\u{200b}', '\u{180e}', '_'] {
        assert!(!char_is_whitespace(c));
        assert_eq!(char_is_whitespace(c), c.is_whitespace());
    }
}

#[test]
fn ascii_lowercase_keeps_other_characters() {
    assert_eq!(to_ascii_lowercase("Hello, WORLD! ÇÀ z@["), "hello, world! ÇÀ z@[");
    assert_eq!(to_ascii_lowercase(""), "");
    assert_eq!(to_ascii_lowercase("AZ"), "az");
}
