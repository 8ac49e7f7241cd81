use nerve::number::{decimal_text, fixed_hex_chars, parse_number, NumberError};
use nerve::text::{chars_of, is_whitespace, joined, split_chars, split_entries, split_whitespace, text_of, trim};

fn texts(pieces: &[Vec<char>]) -> Vec<String> {
    pieces.iter().map(text_of).collect()
}

#[test]
fn whitespace_is_that_of_unicode() {
    for n in 0..=0x10FFFFu32 {
        if let Some(c) = char::from_u32(n) {
            assert_eq!(is_whitespace(c), c.is_whitespace(), "U+{n:04X}");
        }
    }
}

#[test]
fn trimming_agrees_with_std() {
    for s in ["", " ", "a", " a ", "\t a b\u{3000}", "\u{a0}x", "x\n\r"] {
        assert_eq!(trim(s), s.trim());
    }
}

#[test]
fn splitting_agrees_with_std() {
    for s in ["", ",", "a", "a,b", ",a,,b,", " a , b "] {
        let expected: Vec<&str> = s.split(',').collect();
        assert_eq!(texts(&split_chars(&chars_of(s), ',')), expected);
        let kept: Vec<&str> = s.split(',').map(str::trim).filter(|t| !t.is_empty()).collect();
        assert_eq!(texts(&split_entries(&chars_of(s), ',')), kept);
    }
    for s in ["", " ", "a b", "  a\t\nb  ", "a\u{2003}b"] {
        let expected: Vec<&str> = s.split_whitespace().collect();
        assert_eq!(texts(&split_whitespace(&chars_of(s))), expected);
    }
}

#[test]
fn numbers_parse_as_in_std() {
    for s in [
        "", "0", "00", "7", "+7", "+", "-", "-1", "++1", "1a", "a", "18446744073709551615",
        "18446744073709551616", "99999999999999999999x", "184467440737095516159", " 1", "١",
    ] {
        let ours = parse_number(&chars_of(s), u64::MAX);
        match (s.parse::<u64>(), ours) {
            (Ok(a), Ok(b)) => assert_eq!(a, b, "{s:?}"),
            (Err(a), Err(b)) => assert_eq!(a.to_string(), b.message(), "{s:?}"),
            (a, b) => panic!("{s:?}: {a:?} and {b:?}"),
        }
    }
    assert_eq!(parse_number(&chars_of("65536"), 65535), Err(NumberError::TooLarge));
    assert_eq!(parse_number(&chars_of("65535"), 65535), Ok(65535));
}

#[test]
fn printed_numbers_read_back() {
    for n in [0, 1, 9, 10, 99, 100, 12345, u64::MAX] {
        assert_eq!(decimal_text(n), n.to_string());
        assert_eq!(parse_number(&chars_of(&decimal_text(n)), u64::MAX), Ok(n));
    }
}

#[test]
fn hexadecimal_of_fixed_width() {
    for n in [0u64, 1, 0xabc, 0x18f_1234_5678, 0xfff_ffff_ffff] {
        assert_eq!(text_of(&fixed_hex_chars(n, 11)), format!("{n:0>11x}"));
    }
}

#[test]
fn joining_keeps_order() {
    assert_eq!(joined("añ", "b"), "añb");
}
