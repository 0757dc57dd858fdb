use v8cli::text::{is_whitespace, norm_str, str_eq, trunc_str};

#[test]
fn norm_collapses_whitespace_runs() {
    assert_eq!(norm_str("  a \t\n b  c "), "a b c");
    assert_eq!(norm_str(""), "");
    assert_eq!(norm_str(" \u{a0}\u{3000} "), "");
    assert_eq!(norm_str("x\u{2003}y"), "x y");
    let once = norm_str(" p  q\nr ");
    assert_eq!(norm_str(&once), once);
}

#[test]
fn whitespace_is_unicode_white_space() {
    for c in [' ', '\t', '\n', '\r', '\u{b}', '\u{c}', '\u{85}', '\u{a0}', '\u{2028}', '\u{3000}'] {
        assert!(is_whitespace(c), "{c:?}");
    }
    for c in ['a', '\u{200b}', '_', '\u{0}'] {
        assert!(!is_whitespace(c), "{c:?}");
    }
}

#[test]
fn trunc_counts_characters_and_marks_the_cut() {
    assert_eq!(trunc_str("hello", 5), "hello");
    assert_eq!(trunc_str("hello", 3), "hel\u{2026}");
    assert_eq!(trunc_str("héllo wörld", 7), "héllo w\u{2026}");
    assert_eq!(trunc_str("", 0), "");
    assert_eq!(trunc_str("ab", 0), "\u{2026}");
}

#[test]
fn string_equality() {
    assert!(str_eq("abc", "abc"));
    assert!(!str_eq("abc", "abd"));
    assert!(!str_eq("é", "e"));
}
