use js_strings::{JsString, String};

fn js(text: &str) -> JsString {
    JsString::from_units(text.encode_utf16().collect())
}

fn position_in_brackets(
    searched: &JsString,
    position: usize,
    _whole: &JsString,
) -> Result<JsString, &'static str> {
    Ok(js(&format!("[{}@{}]", std::string::String::from_utf16_lossy(searched.as_slice()), position)))
}

#[test]
fn the_first_occurrence_is_replaced() {
    assert_eq!(String::replace(&js("xxabyyab"), &js("ab"), &js("[$&]")), js("xx[ab]yyab"));
    assert_eq!(String::replace(&js("xxabyy"), &js("ab"), &js("$'$`")), js("xxyyxxyy"));
    assert_eq!(String::replace(&js("xxabyy"), &js("ab"), &js("")), js("xxyy"));
    assert_eq!(String::replace(&js("abc"), &js(""), &js("-")), js("-abc"));
    assert_eq!(String::replace(&js("abc"), &js("c"), &js("$1")), js("ab$1"));
}

#[test]
fn without_an_occurrence_nothing_is_replaced() {
    assert_eq!(String::replace(&js("xxabyy"), &js("ba"), &js("[$&]")), js("xxabyy"));
    assert_eq!(String::replace(&js(""), &js("a"), &js("b")), js(""));
}

#[test]
fn the_empty_search_matches_before_every_unit_and_at_the_end() {
    assert_eq!(String::replace_all(&js("ab"), &js(""), &js("-")), js("-a-b-"));
    assert_eq!(String::replace_all(&js(""), &js(""), &js("-")), js("-"));
}

#[test]
fn every_occurrence_is_replaced() {
    assert_eq!(String::replace_all(&js("a,b,,c"), &js(","), &js(";")), js("a;b;;c"));
    assert_eq!(String::replace_all(&js("abab"), &js("ab"), &js("[$&]")), js("[ab][ab]"));
    assert_eq!(String::replace_all(&js("xaxbx"), &js("x"), &js("($`|$')")), js("(|axbx)a(xa|bx)b(xaxb|)"));
    assert_eq!(String::replace_all(&js("abc"), &js("d"), &js("e")), js("abc"));
    assert_eq!(String::replace_all(&js("abc"), &js("abc"), &js("")), js(""));
}

#[test]
fn occurrences_do_not_overlap() {
    assert_eq!(String::replace_all(&js("aaa"), &js("aa"), &js("b")), js("ba"));
    assert_eq!(String::replace_all(&js("aaaa"), &js("aa"), &js("b")), js("bb"));
    assert_eq!(js("aaaaa").match_positions(&js("aa")), vec![0, 2]);
    assert_eq!(js("ab").match_positions(&js("")), vec![0, 1, 2]);
    assert_eq!(js("ab").match_positions(&js("abc")), vec![]);
}

#[test]
fn a_function_gives_the_replacement() {
    assert_eq!(
        String::replace_with(&js("xxabyyab"), &js("ab"), position_in_brackets),
        Ok(js("xx[ab@2]yyab"))
    );
    assert_eq!(
        String::replace_all_with(&js("xxabyyab"), &js("ab"), position_in_brackets),
        Ok(js("xx[ab@2]yy[ab@6]"))
    );
    assert_eq!(
        String::replace_all_with(&js("ab"), &js(""), position_in_brackets),
        Ok(js("[@0]a[@1]b[@2]"))
    );
}

#[test]
fn what_a_function_returns_is_not_expanded() {
    let dollars = |_: &JsString, _: usize, _: &JsString| -> Result<JsString, ()> { Ok(js("$&")) };
    assert_eq!(String::replace_with(&js("abc"), &js("b"), dollars), Ok(js("a$&c")));
    assert_eq!(String::replace_all_with(&js("abcb"), &js("b"), dollars), Ok(js("a$&c$&")));
}

#[test]
fn a_function_is_not_called_without_a_match() {
    let fails = |_: &JsString, _: usize, _: &JsString| -> Result<JsString, &'static str> {
        Err("called")
    };
    assert_eq!(String::replace_with(&js("abc"), &js("x"), fails), Ok(js("abc")));
    assert_eq!(String::replace_all_with(&js("abc"), &js("x"), fails), Ok(js("abc")));
}

#[test]
fn the_failure_of_a_function_is_handed_on() {
    let fails_later = |_: &JsString, position: usize, _: &JsString| -> Result<JsString, usize> {
        if position < 2 {
            Ok(js("-"))
        } else {
            Err(position)
        }
    };
    assert_eq!(String::replace_with(&js("abcabc"), &js("c"), fails_later), Err(2));
    assert_eq!(String::replace_with(&js("abcabc"), &js("a"), fails_later), Ok(js("-bcabc")));
    assert_eq!(String::replace_all_with(&js("abcabc"), &js("a"), fails_later), Err(3));
    assert_eq!(String::replace_all_with(&js("abcabc"), &js("c"), fails_later), Err(2));
}
