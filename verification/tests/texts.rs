use jc::text::{
    decimal_of, is_blank, joined, lines_of, repeat, replaced, split_at, starts_with, trimmed, white,
    words_of,
};

#[test]
fn white_space_is_that_of_unicode() {
    for c in '\0'..=char::MAX {
        assert_eq!(white(c), c.is_whitespace(), "{c:?}");
    }
}

#[test]
fn texts_are_taken_apart_as_by_std() {
    let texts = [
        "", " ", "a", " a b ", "a\nb", "a\r\nb\r", "\n", "\r\n", "a\n\n", "x\ry", "\u{3000}あ\u{a0}",
        "a-b--c-", "-",
    ];
    for text in texts {
        assert_eq!(trimmed(text), text.trim());
        assert_eq!(is_blank(text), text.trim().is_empty());
        assert_eq!(lines_of(text), text.lines().collect::<Vec<_>>());
        assert_eq!(words_of(text), text.split_whitespace().collect::<Vec<_>>());
        assert_eq!(split_at(text, '-'), text.split('-').collect::<Vec<_>>());
        assert_eq!(replaced(text, "a", "bb"), text.replace("a", "bb"));
        assert_eq!(replaced(text, "--", "+"), text.replace("--", "+"));
        assert_eq!(starts_with(text, "a"), text.starts_with("a"));
    }
}

#[test]
fn texts_are_put_together() {
    let parts = vec!["a".to_string(), "b".to_string()];
    assert_eq!(joined(&parts, ", "), "a, b");
    assert_eq!(joined(&Vec::new(), ", "), "");
    for n in [0, 7, 10, 120, usize::MAX] {
        assert_eq!(decimal_of(n), n.to_string());
    }
    assert_eq!(repeat('─', 3), "───");
}
