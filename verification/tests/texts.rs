use silvus::text::{
    chars_of, is_whitespace, pad_left, parse_u16, replace_char, same_text, sign_of, string_of,
    to_decimal, to_lower, to_signed_decimal, trim,
};

#[test]
fn characters_round_trip() {
    let chars = chars_of("h\u{e9}llo");
    assert_eq!(chars, vec!['h', '\u{e9}', 'l', 'l', 'o']);
    assert_eq!(string_of(&chars, 0, 5), "h\u{e9}llo");
    assert_eq!(string_of(&chars, 1, 3), "\u{e9}l");
    assert_eq!(string_of(&chars, 2, 2), "");
}

#[test]
fn trim_drops_white_space_at_both_ends() {
    assert_eq!(trim("  Custom Title \n"), "Custom Title");
    assert_eq!(trim("\t\r\n x y \u{a0}\u{3000}"), "x y");
    assert_eq!(trim("   "), "");
    assert_eq!(trim(""), "");
    assert_eq!(trim("a"), "a");
    assert_eq!(trim("\u{200b}a"), "\u{200b}a");
}

#[test]
fn white_space_is_what_std_takes_for_it() {
    let mut code: u32 = 0;
    while code <= 0x10ffff {
        if let Some(c) = char::from_u32(code) {
            assert_eq!(is_whitespace(c), c.is_whitespace());
        }
        code += 1;
    }
}

#[test]
fn trim_is_what_std_does() {
    for text in [" a ", "\u{85}b\u{2028}", "\u{1680}\u{2000}c\u{200a}\u{202f}\u{205f}", "\u{feff}d"] {
        assert_eq!(trim(text), text.trim());
    }
}

#[test]
fn replace_turns_every_occurrence() {
    assert_eq!(replace_char("the-matrix_1999", '-', ' '), "the matrix_1999");
    assert_eq!(replace_char("a\\b\\c", '\\', '/'), "a/b/c");
    assert_eq!(replace_char("", 'a', 'b'), "");
    assert_eq!(replace_char("aaa", 'a', 'a'), "aaa");
}

#[test]
fn small_letters() {
    assert_eq!(to_lower('A'), 'a');
    assert_eq!(to_lower('Z'), 'z');
    assert_eq!(to_lower('m'), 'm');
    assert_eq!(to_lower('@'), '@');
    assert_eq!(to_lower('['), '[');
    assert_eq!(to_lower('\u{c9}'), '\u{c9}');
}

#[test]
fn decimal_notation() {
    assert_eq!(to_decimal(0), "0");
    assert_eq!(to_decimal(9), "9");
    assert_eq!(to_decimal(10), "10");
    assert_eq!(to_decimal(4_294_967_295), "4294967295");
    assert_eq!(to_decimal(u64::MAX), "18446744073709551615");
    assert_eq!(to_signed_decimal(-1), "-1");
    assert_eq!(to_signed_decimal(0), "0");
    assert_eq!(to_signed_decimal(i64::MIN), "-9223372036854775808");
    assert_eq!(to_signed_decimal(i64::MAX), "9223372036854775807");
}

#[test]
fn padding() {
    assert_eq!(pad_left("5", 2, '0'), "05");
    assert_eq!(pad_left("15", 2, '0'), "15");
    assert_eq!(pad_left("150", 2, '0'), "150");
    assert_eq!(pad_left("", 3, '*'), "***");
    assert_eq!(pad_left("-5", 4, '0'), "00-5");
}

#[test]
fn numbers_are_parsed_as_std_parses_them() {
    for text in [
        "0", "7", "007", "1999", "65535", "65536", "99999999999999999999", "+5", "+", "", "-1",
        " 5", "5 ", "1_000", "12a", "\u{663}", "+-5", "++5",
    ] {
        assert_eq!(parse_u16(text), text.parse::<u16>().ok(), "{text:?}");
    }
}

#[test]
fn texts_are_ordered_by_code() {
    assert_eq!(sign_of("Beta", "alpha"), -1);
    assert_eq!(sign_of("alpha", "Gamma"), 1);
    assert_eq!(sign_of("a", "ab"), -1);
    assert_eq!(sign_of("ab", "a"), 1);
    assert_eq!(sign_of("", ""), 0);
    assert_eq!(sign_of("same", "same"), 0);
    assert_eq!(sign_of("", "a"), -1);
    for (a, b) in [("z", "\u{e9}"), ("\u{e9}", "\u{10000}"), ("\u{ffff}", "\u{10000}"), ("Z", "a")] {
        assert_eq!(sign_of(a, b), -1);
        assert_eq!(a.cmp(b), std::cmp::Ordering::Less);
    }
    assert!(same_text("abc", "abc"));
    assert!(!same_text("abc", "abd"));
    assert!(!same_text("abc", "ab"));
}
