use js_strings::{
    is_trimmable_whitespace, IntegerOrInfinity, JsString, Placement, String, StringError,
};

fn js(text: &str) -> JsString {
    JsString::from_units(text.encode_utf16().collect())
}

fn integer(value: i64) -> IntegerOrInfinity {
    IntegerOrInfinity::Integer(value)
}

#[test]
fn space_and_byte_order_mark_are_trimmable() {
    for c in [
        '\u{9}', '\u{A}', '\u{B}', '\u{C}', '\u{D}', ' ', '\u{A0}', '\u{1680}', '\u{2000}',
        '\u{2005}', '\u{200A}', '\u{2028}', '\u{2029}', '\u{202F}', '\u{205F}', '\u{3000}',
        '\u{FEFF}',
    ] {
        assert!(is_trimmable_whitespace(c), "{:x}", c as u32);
    }
    for c in ['\u{85}', 'a', '\u{8}', '\u{E}', '\u{1FFF}', '\u{200B}', '\u{180E}', '\u{1F600}'] {
        assert!(!is_trimmable_whitespace(c), "{:x}", c as u32);
    }
}

#[test]
fn trimming_takes_white_space_from_the_ends() {
    let padded = js(" \t\u{FEFF}a b\u{3000}\n");
    assert_eq!(String::trim(&padded), js("a b"));
    assert_eq!(String::trim_start(&padded), js("a b\u{3000}\n"));
    assert_eq!(String::trim_end(&padded), js(" \t\u{FEFF}a b"));
    assert_eq!(String::trim(&js(" \n ")), js(""));
    assert_eq!(String::trim(&js("")), js(""));
    assert_eq!(String::trim(&js("\u{85}a\u{85}")), js("\u{85}a\u{85}"));
    let lone = JsString::from_units(vec![0x20, 0xD800, 0x20]);
    assert_eq!(String::trim(&lone), JsString::from_units(vec![0xD800]));
}

#[test]
fn char_at_gives_one_code_unit() {
    let abc = js("abc");
    assert_eq!(String::char_at(&abc, integer(0)), js("a"));
    assert_eq!(String::char_at(&abc, integer(2)), js("c"));
    assert_eq!(String::char_at(&abc, integer(3)), js(""));
    assert_eq!(String::char_at(&abc, integer(-1)), js(""));
    assert_eq!(String::char_at(&abc, IntegerOrInfinity::PositiveInfinity), js(""));
    assert_eq!(String::char_at(&abc, IntegerOrInfinity::NegativeInfinity), js(""));
    assert_eq!(String::char_at(&js("\u{1F600}"), integer(1)), JsString::from_units(vec![0xDE00]));
}

#[test]
fn at_counts_from_the_end_too() {
    let abc = js("abc");
    assert_eq!(String::at(&abc, integer(0)), Some(js("a")));
    assert_eq!(String::at(&abc, integer(-1)), Some(js("c")));
    assert_eq!(String::at(&abc, integer(-3)), Some(js("a")));
    assert_eq!(String::at(&abc, integer(-4)), None);
    assert_eq!(String::at(&abc, integer(3)), None);
    assert_eq!(String::at(&abc, integer(i64::MIN)), None);
    assert_eq!(String::at(&abc, IntegerOrInfinity::PositiveInfinity), None);
    assert_eq!(String::at(&js(""), integer(0)), None);
}

#[test]
fn code_point_at_joins_a_pair() {
    let face = js("a\u{1F600}");
    assert_eq!(String::code_point_at(&face, integer(0)), Some(0x61));
    assert_eq!(String::code_point_at(&face, integer(1)), Some(0x1F600));
    assert_eq!(String::code_point_at(&face, integer(2)), Some(0xDE00));
    assert_eq!(String::code_point_at(&face, integer(3)), None);
    assert_eq!(String::code_point_at(&face, integer(-1)), None);
    assert_eq!(String::char_code_at(&face, integer(1)), Some(0xD83D));
    assert_eq!(String::char_code_at(&face, integer(3)), None);
    assert_eq!(String::char_code_at(&face, IntegerOrInfinity::NegativeInfinity), None);
}

#[test]
fn concat_appends_every_argument() {
    assert_eq!(String::concat(&js("a"), &[js("b"), js(""), js("cd")]), js("abcd"));
    assert_eq!(String::concat(&js("a"), &[]), js("a"));
}

#[test]
fn repeat_copies() {
    assert_eq!(String::repeat(&js("ab"), integer(3)), Ok(js("ababab")));
    assert_eq!(String::repeat(&js("ab"), integer(1)), Ok(js("ab")));
    assert_eq!(String::repeat(&js("ab"), integer(0)), Ok(js("")));
    assert_eq!(String::repeat(&js(""), integer(i64::MAX)), Ok(js("")));
}

#[test]
fn repeat_refuses_a_bad_count() {
    assert_eq!(String::repeat(&js("ab"), integer(-1)), Err(StringError::InvalidCount));
    assert_eq!(
        String::repeat(&js("ab"), IntegerOrInfinity::PositiveInfinity),
        Err(StringError::InvalidCount)
    );
    assert_eq!(
        String::repeat(&js(""), IntegerOrInfinity::PositiveInfinity),
        Err(StringError::InvalidCount)
    );
    assert_eq!(
        String::repeat(&js("ab"), IntegerOrInfinity::NegativeInfinity),
        Err(StringError::InvalidCount)
    );
    assert_eq!(String::repeat(&js("ab"), integer(0x8000_0000)), Err(StringError::InvalidCount));
    assert_eq!(String::repeat(&js("abc"), integer(i64::MAX)), Err(StringError::InvalidCount));
}

#[test]
fn slice_counts_from_either_end() {
    let hello = js("hello");
    assert_eq!(String::slice(&hello, integer(1), Some(integer(3))), js("el"));
    assert_eq!(String::slice(&hello, integer(-3), None), js("llo"));
    assert_eq!(String::slice(&hello, integer(-3), Some(integer(-1))), js("ll"));
    assert_eq!(String::slice(&hello, integer(3), Some(integer(1))), js(""));
    assert_eq!(String::slice(&hello, integer(-99), Some(integer(99))), js("hello"));
    assert_eq!(String::slice(&hello, IntegerOrInfinity::NegativeInfinity, Some(IntegerOrInfinity::PositiveInfinity)), js("hello"));
    assert_eq!(String::slice(&hello, IntegerOrInfinity::PositiveInfinity, None), js(""));
    assert_eq!(String::slice(&hello, integer(0), Some(IntegerOrInfinity::NegativeInfinity)), js(""));
}

#[test]
fn substring_takes_the_smaller_position_first() {
    let hello = js("hello");
    assert_eq!(String::substring(&hello, integer(1), Some(integer(3))), js("el"));
    assert_eq!(String::substring(&hello, integer(3), Some(integer(1))), js("el"));
    assert_eq!(String::substring(&hello, integer(2), None), js("llo"));
    assert_eq!(String::substring(&hello, integer(-2), Some(integer(2))), js("he"));
    assert_eq!(String::substring(&hello, integer(99), Some(integer(3))), js("lo"));
    assert_eq!(String::substring(&hello, integer(2), Some(integer(2))), js(""));
}

#[test]
fn substr_takes_a_length() {
    let hello = js("hello");
    assert_eq!(String::substr(&hello, integer(1), Some(integer(3))), js("ell"));
    assert_eq!(String::substr(&hello, integer(1), None), js("ello"));
    assert_eq!(String::substr(&hello, integer(-3), Some(integer(2))), js("ll"));
    assert_eq!(String::substr(&hello, integer(-99), Some(integer(2))), js("he"));
    assert_eq!(String::substr(&hello, integer(3), Some(integer(99))), js("lo"));
    assert_eq!(String::substr(&hello, integer(3), Some(integer(i64::MAX))), js("lo"));
    assert_eq!(String::substr(&hello, integer(5), Some(integer(1))), js(""));
    assert_eq!(String::substr(&hello, integer(9), None), js(""));
    assert_eq!(String::substr(&hello, integer(1), Some(integer(0))), js(""));
    assert_eq!(String::substr(&hello, integer(1), Some(integer(-1))), js(""));
    assert_eq!(String::substr(&hello, integer(1), Some(IntegerOrInfinity::PositiveInfinity)), js(""));
    assert_eq!(String::substr(&hello, IntegerOrInfinity::PositiveInfinity, None), js(""));
    assert_eq!(String::substr(&hello, IntegerOrInfinity::NegativeInfinity, Some(integer(2))), js("he"));
}

#[test]
fn padding_repeats_and_cuts_the_filler() {
    assert_eq!(String::pad_start(&js("abc"), 10, Some(&js("foo"))), js("foofoofabc"));
    assert_eq!(String::pad_end(&js("abc"), 6, Some(&js("123456"))), js("abc123"));
    assert_eq!(String::pad_end(&js("abc"), 10, Some(&js("12"))), js("abc1212121"));
    assert_eq!(String::pad_start(&js("abc"), 6, None), js("   abc"));
    assert_eq!(String::pad_end(&js("abc"), 5, None), js("abc  "));
    assert_eq!(String::string_pad(&js("abc"), 4, Some(&js("xy")), Placement::Start), js("xabc"));
    assert_eq!(String::string_pad(&js("abc"), 4, Some(&js("xy")), Placement::End), js("abcx"));
}

#[test]
fn padding_leaves_a_long_string_alone() {
    assert_eq!(String::pad_start(&js("abc"), 3, Some(&js("x"))), js("abc"));
    assert_eq!(String::pad_end(&js("abc"), 0, Some(&js("x"))), js("abc"));
    assert_eq!(String::pad_end(&js("abc"), 9, Some(&js(""))), js("abc"));
}

#[test]
fn strings_from_code_units_and_code_points() {
    assert_eq!(String::from_char_code(&[0x61, 0xD800, 0x62]), JsString::from_units(vec![0x61, 0xD800, 0x62]));
    assert_eq!(String::from_char_code(&[]), js(""));
    assert_eq!(String::from_code_point(&[0x61, 0x1F600, 0x10FFFF, 0]), Ok(js("a\u{1F600}\u{10FFFF}\0")));
    assert_eq!(String::from_code_point(&[]), Ok(js("")));
}

#[test]
fn a_number_that_is_no_code_point_is_refused() {
    assert_eq!(
        String::from_code_point(&[0x61, 0x110000, -1]),
        Err(StringError::InvalidCodePoint(0x110000))
    );
    assert_eq!(String::from_code_point(&[-1]), Err(StringError::InvalidCodePoint(-1)));
    assert_eq!(
        String::from_code_point(&[i64::MAX, 0x61]),
        Err(StringError::InvalidCodePoint(i64::MAX))
    );
}

#[test]
fn raw_puts_substitutions_between_segments() {
    let segments = [js("a"), js("b"), js("c")];
    assert_eq!(String::raw(&segments, &[js("1"), js("2")]), js("a1b2c"));
    assert_eq!(String::raw(&segments, &[js("1")]), js("a1bc"));
    assert_eq!(String::raw(&segments, &[]), js("abc"));
    assert_eq!(String::raw(&segments, &[js("1"), js("2"), js("3")]), js("a1b2c"));
    assert_eq!(String::raw(&segments[..1], &[js("1")]), js("a"));
    assert_eq!(String::raw(&[], &[js("1")]), js(""));
}

#[test]
fn a_failure_has_a_text() {
    assert_eq!(StringError::IndexOutOfRange.message(), "index out of range");
    assert_eq!(
        StringError::InvalidNormalizationForm.message(),
        "The normalization form should be one of NFC, NFD, NFKC, NFKD."
    );
    assert_eq!(StringError::InvalidCodePoint(-1).message(), "invalid code point");
    assert_eq!(
        StringError::InvalidCount.message(),
        "repeat count must be a positive finite number that doesn't overflow the maximum string length"
    );
}

#[test]
fn a_position_is_brought_into_a_range() {
    assert_eq!(integer(7).clamp_finite(0, 5), 5);
    assert_eq!(integer(-7).clamp_finite(0, 5), 0);
    assert_eq!(integer(3).clamp_finite(0, 5), 3);
    assert_eq!(IntegerOrInfinity::PositiveInfinity.clamp_finite(-2, 5), 5);
    assert_eq!(IntegerOrInfinity::NegativeInfinity.clamp_finite(-2, 5), -2);
    assert_eq!(integer(i64::MAX).clamp_to_length(4), 4);
    assert_eq!(integer(i64::MIN).clamp_to_length(4), 0);
    assert_eq!(integer(-1).relative_to_length(4), 3);
    assert_eq!(integer(i64::MIN).relative_to_length(4), 0);
    assert_eq!(integer(-4).relative_to_length(4), 0);
    assert_eq!(integer(9).relative_to_length(4), 4);
}
