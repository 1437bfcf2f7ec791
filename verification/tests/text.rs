use wip::text::{chars_of, first_two_words, is_blank, last_occurrence, push_decimal, trim, white_space};

#[test]
fn white_space_agrees_with_std_on_every_char() {
    for n in 0u32..=0x10FFFF {
        if let Some(c) = char::from_u32(n) {
            assert_eq!(white_space(c), c.is_whitespace(), "char {:#x}", n);
        }
    }
}

#[test]
fn trim_removes_surrounding_white_space() {
    assert_eq!(trim("  abc def \n"), "abc def");
    assert_eq!(trim("\t\u{3000}x\u{a0}"), "x");
    assert_eq!(trim("plain"), "plain");
    assert_eq!(trim(""), "");
    assert_eq!(trim(" \n\t "), "");
}

#[test]
fn trim_agrees_with_std() {
    for s in ["", " a ", "a b", "\n\nx\n", "  ", "é à ", "\u{2028}z"] {
        assert_eq!(trim(s), s.trim());
    }
}

#[test]
fn blank_text() {
    assert!(is_blank(""));
    assert!(is_blank(" \n\t"));
    assert!(!is_blank(" M src/lib.rs\n"));
}

#[test]
fn first_two_words_like_next_tuple() {
    assert_eq!(
        first_two_words("  wip   abc123\n"),
        Some(("wip".to_string(), "abc123".to_string()))
    );
    assert_eq!(
        first_two_words("head deadbeef extra"),
        Some(("head".to_string(), "deadbeef".to_string()))
    );
    assert_eq!(first_two_words("only"), None);
    assert_eq!(first_two_words("   "), None);
    assert_eq!(first_two_words(""), None);
}

#[test]
fn last_occurrence_finds_the_last() {
    let s = chars_of("ab--ab--ab");
    let p = chars_of("ab");
    assert_eq!(last_occurrence(&s, &p), Some(8));
    assert_eq!(last_occurrence(&s, &chars_of("--")), Some(6));
    assert_eq!(last_occurrence(&s, &chars_of("x")), None);
    assert_eq!(last_occurrence(&chars_of("a"), &chars_of("ab")), None);
    assert_eq!(last_occurrence(&chars_of("aaa"), &chars_of("aa")), Some(1));
}

#[test]
fn decimal_rendering() {
    for n in [0u64, 7, 10, 42, 1000, 987654321, u64::MAX] {
        let mut s = String::from("v");
        push_decimal(&mut s, n);
        assert_eq!(s, format!("v{}", n));
    }
}
