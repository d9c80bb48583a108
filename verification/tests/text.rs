use zeroclaw::text::{
    begins_with, chars_of, contains_text, count_matches, decimal_text, find_from, hex_text,
    is_white_space, replace_all, same_text, text_before, text_of, trim_text,
};

#[test]
fn decimal_of_numbers() {
    for n in [0usize, 7, 10, 99, 100, 1205, usize::MAX] {
        assert_eq!(decimal_text(n), n.to_string());
    }
}

#[test]
fn hex_of_bytes() {
    assert_eq!(hex_text(&[0x00, 0xbe, 0xef, 0xa9]), "00beefa9");
    assert_eq!(hex_text(&[]), "");
}

#[test]
fn white_space_is_that_of_unicode() {
    for u in 0..=0x10ffffu32 {
        if let Some(c) = char::from_u32(u) {
            assert_eq!(is_white_space(c), c.is_whitespace(), "U+{u:04X}");
        }
    }
}

#[test]
fn trimming_takes_white_space_off_both_ends() {
    for s in ["", " ", "a", " a b ", "\u{2003}x\u{3000}", "\n\t", "a\u{a0}"] {
        assert_eq!(trim_text(s), s.trim());
    }
}

#[test]
fn texts_are_compared_whole() {
    assert!(same_text("", ""));
    assert!(same_text("h\u{e9}", "h\u{e9}"));
    assert!(!same_text("h\u{e9}", "he"));
    assert!(!same_text("ab", "abc"));
}

#[test]
fn parts_are_found() {
    for (s, p) in [("abc", "bc"), ("abc", ""), ("", ""), ("", "a"), ("aab", "ab"), ("ab", "abc")] {
        assert_eq!(contains_text(s, p), s.contains(p));
        assert_eq!(begins_with(s, p), s.starts_with(p));
    }
    assert!(begins_with("abc", "ab"));
    let text = chars_of("x\u{e9}yx\u{e9}");
    let part = chars_of("x\u{e9}");
    assert_eq!(find_from(&text, &part, 0), Some(0));
    assert_eq!(find_from(&text, &part, 1), Some(3));
    assert_eq!(find_from(&text, &part, 4), None);
    assert_eq!(text_of(&text, 1, 3), "\u{e9}y");
}

#[test]
fn matches_do_not_overlap() {
    for (s, p) in [("aaaa", "aa"), ("aaa", "aa"), ("", "a"), ("xaxax", "xax")] {
        assert_eq!(count_matches(s, p), s.matches(p).count());
        assert_eq!(replace_all(s, p, "<b>"), s.replace(p, "<b>"));
    }
}

#[test]
fn text_up_to_a_separator() {
    assert_eq!(text_before("telegram__user__1", "__"), "telegram");
    assert_eq!(text_before("telegram", "__"), "telegram");
    assert_eq!(text_before("__x", "__"), "");
}
