use rate_limiter_sdi::text::{
    eq_ignore_ascii_case, is_blank, is_white_space, same_text, to_ascii_lower, to_decimal,
};

#[test]
fn white_space_is_that_of_unicode() {
    for code in 0..=0x10ffff_u32 {
        if let Some(c) = char::from_u32(code) {
            assert_eq!(is_white_space(c), c.is_whitespace(), "{code:x}");
        }
    }
}

#[test]
fn ascii_letters_are_lowered() {
    for code in 0..0x300_u32 {
        if let Some(c) = char::from_u32(code) {
            assert_eq!(to_ascii_lower(c), c.to_ascii_lowercase(), "{code:x}");
        }
    }
}

#[test]
fn blank_texts_are_those_of_which_trimming_leaves_nothing() {
    for s in ["", " ", "\t\n", "\u{a0}\u{3000}", "a", " a", "a ", "\u{200b}", "\0"] {
        assert_eq!(is_blank(s), s.trim().is_empty(), "{s:?}");
    }
}

#[test]
fn texts_are_compared_with_and_without_case() {
    let texts = ["", "a", "A", "ab", "aB", "\u{e4}", "\u{c4}", "k", "\u{212a}", "[", "{", "POST", "post"];
    for a in texts {
        for b in texts {
            assert_eq!(same_text(a, b), a == b, "{a} {b}");
            assert_eq!(eq_ignore_ascii_case(a, b), a.eq_ignore_ascii_case(b), "{a} {b}");
        }
    }
}

#[test]
fn decimal_numerals() {
    for n in [0, 7, 10, 99, 100, 1_700_000_000, u64::MAX] {
        assert_eq!(to_decimal(n), n.to_string());
    }
}
