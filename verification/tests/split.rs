use js_strings::{JsString, String};

fn js(text: &str) -> JsString {
    JsString::from_units(text.encode_utf16().collect())
}

fn all(texts: &[&str]) -> Vec<JsString> {
    texts.iter().map(|text| js(text)).collect()
}

#[test]
fn an_empty_piece_stands_between_two_separators() {
    assert_eq!(String::split(&js("a,,b"), Some(&js(",")), None), all(&["a", "", "b"]));
}

#[test]
fn a_limit_of_zero_gives_nothing() {
    assert_eq!(String::split(&js("a,b"), Some(&js(",")), Some(0)), all(&[]));
    assert_eq!(String::split(&js("a,b"), None, Some(0)), all(&[]));
    assert_eq!(String::split(&js(""), Some(&js("")), Some(0)), all(&[]));
}

#[test]
fn without_a_separator_the_string_stays_whole() {
    assert_eq!(String::split(&js("a,b"), None, None), all(&["a,b"]));
    assert_eq!(String::split(&js(""), None, Some(3)), all(&[""]));
}

#[test]
fn the_empty_separator_splits_into_code_units() {
    assert_eq!(String::split(&js("abc"), Some(&js("")), None), all(&["a", "b", "c"]));
    assert_eq!(String::split(&js("abc"), Some(&js("")), Some(2)), all(&["a", "b"]));
    assert_eq!(String::split(&js("abc"), Some(&js("")), Some(7)), all(&["a", "b", "c"]));
    assert_eq!(String::split(&js(""), Some(&js("")), None), all(&[]));
    let pair = JsString::from_units(vec![0xD83D, 0xDE00]);
    assert_eq!(
        String::split(&pair, Some(&js("")), None),
        vec![JsString::from_units(vec![0xD83D]), JsString::from_units(vec![0xDE00])]
    );
}

#[test]
fn the_empty_string_gives_one_empty_piece() {
    assert_eq!(String::split(&js(""), Some(&js(",")), None), all(&[""]));
}

#[test]
fn the_limit_ends_the_work() {
    assert_eq!(String::split(&js("a,b,c"), Some(&js(",")), Some(1)), all(&["a"]));
    assert_eq!(String::split(&js("a,b,c"), Some(&js(",")), Some(2)), all(&["a", "b"]));
    assert_eq!(String::split(&js("a,b,c"), Some(&js(",")), Some(3)), all(&["a", "b", "c"]));
    assert_eq!(String::split(&js("a,b,c"), Some(&js(",")), Some(4)), all(&["a", "b", "c"]));
    assert_eq!(String::split(&js("abc"), Some(&js(",")), Some(1)), all(&["abc"]));
}

#[test]
fn a_separator_that_does_not_occur_leaves_one_piece() {
    assert_eq!(String::split(&js("abc"), Some(&js(",")), None), all(&["abc"]));
    assert_eq!(String::split(&js("abc"), Some(&js("abcd")), None), all(&["abc"]));
    assert_eq!(String::split(&js("a"), Some(&js("bb")), Some(5)), all(&["a"]));
}

#[test]
fn separators_at_the_ends_leave_empty_pieces() {
    assert_eq!(String::split(&js(",a,"), Some(&js(",")), None), all(&["", "a", ""]));
    assert_eq!(String::split(&js(","), Some(&js(",")), None), all(&["", ""]));
    assert_eq!(String::split(&js("abc"), Some(&js("abc")), None), all(&["", ""]));
}

#[test]
fn a_long_separator_is_skipped_whole() {
    assert_eq!(String::split(&js("a--b---c"), Some(&js("--")), None), all(&["a", "b", "-c"]));
    assert_eq!(String::split(&js("aaaa"), Some(&js("aa")), None), all(&["", "", ""]));
}
