use js_strings::{IntegerOrInfinity, JsString, String};

fn js(text: &str) -> JsString {
    JsString::from_units(text.encode_utf16().collect())
}

#[test]
fn the_empty_needle_matches_at_the_offset() {
    assert_eq!(String::index_of(&js("hello"), &js(""), IntegerOrInfinity::Integer(2)), Some(2));
    assert_eq!(js("hello").index_of(&js(""), 2), Some(2));
    assert_eq!(js("hello").index_of(&js(""), 5), Some(5));
    assert_eq!(js("").index_of(&js(""), 0), Some(0));
}

#[test]
fn the_leftmost_occurrence_is_found() {
    let hello = js("hello");
    assert_eq!(hello.index_of(&js("l"), 0), Some(2));
    assert_eq!(hello.index_of(&js("l"), 2), Some(2));
    assert_eq!(hello.index_of(&js("l"), 3), Some(3));
    assert_eq!(hello.index_of(&js("l"), 4), None);
    assert_eq!(hello.index_of(&js("lo"), 0), Some(3));
    assert_eq!(hello.index_of(&js("hello"), 0), Some(0));
    assert_eq!(hello.index_of(&js("hello"), 1), None);
    assert_eq!(hello.index_of(&js("hello!"), 0), None);
    assert_eq!(hello.index_of(&js("x"), 0), None);
}

#[test]
fn a_search_past_the_end_finds_nothing() {
    assert_eq!(js("ab").index_of(&js(""), 3), None);
    assert_eq!(js("ab").index_of(&js("b"), 7), None);
}

#[test]
fn the_position_is_brought_into_the_string() {
    let hello = js("hello");
    assert_eq!(String::index_of(&hello, &js(""), IntegerOrInfinity::Integer(10)), Some(5));
    assert_eq!(String::index_of(&hello, &js("h"), IntegerOrInfinity::Integer(-3)), Some(0));
    assert_eq!(String::index_of(&hello, &js("h"), IntegerOrInfinity::NegativeInfinity), Some(0));
    assert_eq!(String::index_of(&hello, &js("o"), IntegerOrInfinity::PositiveInfinity), None);
    assert_eq!(String::index_of(&hello, &js(""), IntegerOrInfinity::PositiveInfinity), Some(5));
}

#[test]
fn what_is_found_is_the_needle() {
    let haystack = js("abracadabra");
    for needle in ["a", "bra", "cad", "abra", ""] {
        let needle = js(needle);
        let found = haystack.index_of(&needle, 0).unwrap();
        assert_eq!(haystack.slice(found, found + needle.len()), Ok(needle));
    }
}

#[test]
fn the_rightmost_occurrence_is_found() {
    let canal = js("canal");
    assert_eq!(String::last_index_of(&canal, &js("a"), IntegerOrInfinity::PositiveInfinity), Some(3));
    assert_eq!(String::last_index_of(&canal, &js("a"), IntegerOrInfinity::Integer(2)), Some(1));
    assert_eq!(String::last_index_of(&canal, &js("a"), IntegerOrInfinity::Integer(0)), None);
    assert_eq!(String::last_index_of(&canal, &js("a"), IntegerOrInfinity::Integer(-5)), None);
    assert_eq!(String::last_index_of(&canal, &js("c"), IntegerOrInfinity::Integer(-5)), Some(0));
    assert_eq!(String::last_index_of(&canal, &js("x"), IntegerOrInfinity::PositiveInfinity), None);
    assert_eq!(String::last_index_of(&canal, &js(""), IntegerOrInfinity::PositiveInfinity), Some(5));
    assert_eq!(String::last_index_of(&canal, &js(""), IntegerOrInfinity::Integer(2)), Some(2));
    assert_eq!(String::last_index_of(&canal, &js("canals"), IntegerOrInfinity::PositiveInfinity), None);
    assert_eq!(String::last_index_of(&canal, &js("al"), IntegerOrInfinity::PositiveInfinity), Some(3));
    assert_eq!(canal.last_index_of(&js("al"), 100), Some(3));
}

#[test]
fn includes_searches_from_the_position() {
    let hello = js("hello");
    assert!(String::includes(&hello, &js("ell"), IntegerOrInfinity::Integer(0)));
    assert!(String::includes(&hello, &js("ell"), IntegerOrInfinity::Integer(1)));
    assert!(!String::includes(&hello, &js("ell"), IntegerOrInfinity::Integer(2)));
    assert!(String::includes(&hello, &js(""), IntegerOrInfinity::Integer(99)));
    assert!(!String::includes(&hello, &js("hex"), IntegerOrInfinity::NegativeInfinity));
}

#[test]
fn starts_with_looks_at_the_position() {
    let hello = js("hello");
    assert!(String::starts_with(&hello, &js("he"), None));
    assert!(!String::starts_with(&hello, &js("el"), None));
    assert!(String::starts_with(&hello, &js("el"), Some(IntegerOrInfinity::Integer(1))));
    assert!(String::starts_with(&hello, &js(""), Some(IntegerOrInfinity::Integer(99))));
    assert!(!String::starts_with(&hello, &js("o!"), Some(IntegerOrInfinity::Integer(4))));
    assert!(!String::starts_with(&hello, &js("h"), Some(IntegerOrInfinity::PositiveInfinity)));
    assert!(String::starts_with(&hello, &js("h"), Some(IntegerOrInfinity::Integer(-2))));
}

#[test]
fn ends_with_looks_before_the_position() {
    let hello = js("hello");
    assert!(String::ends_with(&hello, &js("lo"), None));
    assert!(!String::ends_with(&hello, &js("ll"), None));
    assert!(String::ends_with(&hello, &js("ll"), Some(IntegerOrInfinity::Integer(4))));
    assert!(String::ends_with(&hello, &js(""), Some(IntegerOrInfinity::Integer(0))));
    assert!(!String::ends_with(&hello, &js("hello"), Some(IntegerOrInfinity::Integer(4))));
    assert!(String::ends_with(&hello, &js("hello"), Some(IntegerOrInfinity::PositiveInfinity)));
    assert!(!String::ends_with(&hello, &js("h"), Some(IntegerOrInfinity::NegativeInfinity)));
}

fn occurs(haystack: &[u16], needle: &[u16], at: usize) -> bool {
    at + needle.len() <= haystack.len() && &haystack[at..at + needle.len()] == needle
}

#[test]
fn nothing_found_means_no_occurrence_from_the_offset_on() {
    let haystacks = ["", "a", "abab", "aaab", "abcabcabd", "\u{1F600}a\u{1F600}"];
    let needles = ["", "a", "b", "ab", "ba", "abd", "aab", "\u{1F600}", "abcabcabdx"];
    for haystack in haystacks {
        for needle in needles {
            let (text, pattern) = (js(haystack), js(needle));
            for from in 0..text.len() + 3 {
                let expected = (from..=text.len())
                    .find(|&at| occurs(text.as_slice(), pattern.as_slice(), at));
                assert_eq!(text.index_of(&pattern, from), expected, "{haystack} {needle} {from}");
                let backwards = (0..=from.min(text.len()))
                    .rev()
                    .find(|&at| occurs(text.as_slice(), pattern.as_slice(), at));
                assert_eq!(text.last_index_of(&pattern, from), backwards);
                if expected.is_none() {
                    for at in from..text.len() + 3 {
                        assert!(!occurs(text.as_slice(), pattern.as_slice(), at));
                    }
                }
            }
        }
    }
}
