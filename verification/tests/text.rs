use hop_endpoint::text::{
    parse_u32, push_decimal, same_text_any_case, to_lower, trimmed, white_space, without_trailing,
};

#[test]
fn white_space_is_that_of_char() {
    for n in 0u32..0x110000 {
        if let Some(c) = char::from_u32(n) {
            assert_eq!(white_space(c), c.is_whitespace());
        }
    }
}

#[test]
fn texts_are_compared_up_to_ascii_case() {
    assert!(same_text_any_case("GeT", "gEt"));
    assert!(!same_text_any_case("\u{c9}", "\u{e9}"));
    assert!(!same_text_any_case("get", "gets"));
    assert!(!same_text_any_case("@[", "`{"));
}

#[test]
fn numbers_are_read_as_the_standard_library_reads_them() {
    for s in [
        "", "+", "-", "0", "-0", "+0", "007", "4294967295", "4294967296", "99999999999999999999",
        " 1", "1 ", "1_0", "0x1", "++1", "\u{661}",
    ] {
        assert_eq!(parse_u32(s), s.parse::<u32>().ok(), "{s:?}");
    }
}

#[test]
fn numbers_are_written_in_decimal() {
    for n in [0u64, 9, 10, 1024, 65535, u64::MAX] {
        let mut s = String::from("x");
        push_decimal(&mut s, n);
        assert_eq!(s, format!("x{n}"));
    }
    let mut s = String::new();
    push_decimal(&mut s, 4_294_967_295);
    assert_eq!(parse_u32(&s), Some(4_294_967_295));
}

#[test]
fn texts_are_trimmed() {
    assert_eq!(trimmed("\u{2003} a b\r\n"), "a b");
    assert_eq!(trimmed(" \t"), "");
    assert_eq!(without_trailing("a//", '/'), "a");
    assert_eq!(to_lower("A\u{c9}z"), "a\u{c9}z");
}
