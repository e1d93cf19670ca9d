use js_strings::{get_substitution, named_references, JsString, NamedCapture};

fn js(text: &str) -> JsString {
    JsString::from_units(text.encode_utf16().collect())
}

fn expand(captures: &[Option<JsString>], template: &str) -> JsString {
    get_substitution(&js("ab"), &js("xxabyy"), 2, captures, None, &js(template))
}

fn numbered(count: usize) -> Vec<Option<JsString>> {
    (1..=count).map(|n| Some(js(&format!("<{n}>")))).collect()
}

#[test]
fn the_match_is_substituted() {
    assert_eq!(expand(&[], "[$&]"), js("[ab]"));
}

#[test]
fn a_group_and_the_text_before_the_match() {
    assert_eq!(expand(&[Some(js("C1"))], "$1-$`"), js("C1-xx"));
}

#[test]
fn the_text_after_the_match() {
    assert_eq!(expand(&[], "$'"), js("yy"));
    let at_end = get_substitution(&js("yy"), &js("xxabyy"), 4, &[], None, &js("[$']"));
    assert_eq!(at_end, js("[]"));
    let beyond = get_substitution(&js("abyyzz"), &js("xxabyy"), 2, &[], None, &js("[$']"));
    assert_eq!(beyond, js("[]"));
}

#[test]
fn two_dollars_are_one() {
    assert_eq!(expand(&[], "$$"), js("$"));
    assert_eq!(expand(&[], "$$&"), js("$&"));
    assert_eq!(expand(&[], "$$$&"), js("$ab"));
}

#[test]
fn a_dollar_before_anything_else_stands_for_itself() {
    assert_eq!(expand(&[], "$"), js("$"));
    assert_eq!(expand(&[], "a$"), js("a$"));
    assert_eq!(expand(&[], "$x"), js("$x"));
    assert_eq!(expand(&[], "$ $&"), js("$ ab"));
    assert_eq!(expand(&[], "$\u{1F600}"), js("$\u{1F600}"));
}

#[test]
fn text_without_dollars_is_copied() {
    assert_eq!(expand(&[], ""), js(""));
    assert_eq!(expand(&[], "plain \u{1F600}"), js("plain \u{1F600}"));
    let lone = JsString::from_units(vec![0xD800, 0x24, 0x26, 0xDC00]);
    let expected = JsString::from_units(vec![0xD800, 0x61, 0x62, 0xDC00]);
    assert_eq!(get_substitution(&js("ab"), &js("xxabyy"), 2, &[], None, &lone), expected);
}

#[test]
fn what_was_substituted_is_not_read_again() {
    let result = get_substitution(&js("$&"), &js("a$&b"), 1, &[Some(js("$1"))], None, &js("$&$1"));
    assert_eq!(result, js("$&$1"));
}

#[test]
fn one_digit_without_groups_stays() {
    assert_eq!(expand(&[], "$1"), js("$1"));
    assert_eq!(expand(&[], "$0"), js("$0"));
    assert_eq!(expand(&numbered(3), "$0"), js("$0"));
}

#[test]
fn one_digit_names_a_group() {
    assert_eq!(expand(&numbered(3), "$1$2$3"), js("<1><2><3>"));
    assert_eq!(expand(&numbered(3), "$4"), js("$4"));
    assert_eq!(expand(&numbered(3), "$1x"), js("<1>x"));
}

#[test]
fn a_group_that_did_not_take_part_is_empty() {
    assert_eq!(expand(&[None, Some(js("two"))], "[$1][$2]"), js("[][two]"));
    assert_eq!(expand(&[None], "[$01]"), js("[]"));
}

#[test]
fn two_digits_with_a_leading_zero() {
    assert_eq!(expand(&numbered(9), "$09"), js("<9>"));
    assert_eq!(expand(&numbered(9), "$01"), js("<1>"));
    assert_eq!(expand(&numbered(8), "$09"), js("$09"));
    assert_eq!(expand(&numbered(9), "$00"), js("$00"));
}

#[test]
fn two_digits_are_read_together() {
    assert_eq!(expand(&numbered(9), "$10"), js("$10"));
    assert_eq!(expand(&numbered(10), "$10"), js("<10>"));
    assert_eq!(expand(&numbered(3), "$15"), js("$15"));
    assert_eq!(expand(&numbered(3), "$99"), js("$99"));
    assert_eq!(expand(&numbered(99), "$99"), js("<99>"));
    assert_eq!(expand(&numbered(12), "$123"), js("<12>3"));
}

#[test]
fn a_named_group_without_named_groups_stays() {
    assert_eq!(expand(&[], "$<name>"), js("$<name>"));
    assert_eq!(expand(&[], "$<"), js("$<"));
}

#[test]
fn a_named_group_is_looked_up() {
    let groups = vec![
        NamedCapture { name: js("year"), value: Some(js("2024")) },
        NamedCapture { name: js("month"), value: None },
        NamedCapture { name: js("year"), value: Some(js("second")) },
    ];
    let expand = |template: &str| {
        get_substitution(&js("ab"), &js("xxabyy"), 2, &[], Some(&groups), &js(template))
    };
    assert_eq!(expand("$<year>-$<month>-$<day>."), js("2024--."));
    assert_eq!(expand("$<>"), js(""));
    assert_eq!(expand("$<year"), js("$<year"));
    assert_eq!(expand("a$<"), js("a$<"));
    assert_eq!(expand("$<ye$&ar>"), js(""));
    assert_eq!(expand("$<year>>"), js("2024>"));
}

#[test]
fn a_name_may_hold_any_code_unit() {
    let name = JsString::from_units(vec![0xD83D, 0xDE00, 0xD800]);
    let groups = vec![NamedCapture { name, value: Some(js("face")) }];
    let template = JsString::from_units(vec![0x24, 0x3C, 0xD83D, 0xDE00, 0xD800, 0x3E]);
    let result = get_substitution(&js("ab"), &js("xxabyy"), 2, &[], Some(&groups), &template);
    assert_eq!(result, js("face"));
}

#[test]
fn the_names_that_a_template_refers_to() {
    let names = |template: &str| named_references(&js(template));
    assert_eq!(names("$<year>-$<month>-$<year>"), vec![js("year"), js("month"), js("year")]);
    assert_eq!(names("no names"), vec![]);
    assert_eq!(names("$$<a>"), vec![]);
    assert_eq!(names("$<a"), vec![]);
    assert_eq!(names("$<>"), vec![js("")]);
    assert_eq!(names("$<a$<b>c>"), vec![js("a$<b")]);
    assert_eq!(names("$1$<a>$&$<b>$"), vec![js("a"), js("b")]);
    assert_eq!(names("$<a>$<b"), vec![js("a")]);
}

#[test]
fn groups_for_the_names_referred_to_are_enough() {
    let template = js("$<b>$<a>$<b>$<c");
    let all = vec![
        NamedCapture { name: js("a"), value: Some(js("A")) },
        NamedCapture { name: js("b"), value: None },
        NamedCapture { name: js("c"), value: Some(js("C")) },
        NamedCapture { name: js("d"), value: Some(js("D")) },
    ];
    let some: Vec<NamedCapture> = named_references(&template)
        .into_iter()
        .map(|name| {
            let value = all.iter().find(|group| group.name == name).and_then(|group| group.value.clone());
            NamedCapture { name, value }
        })
        .collect();
    let with_all = get_substitution(&js("ab"), &js("xxabyy"), 2, &[], Some(&all), &template);
    let with_some = get_substitution(&js("ab"), &js("xxabyy"), 2, &[], Some(&some), &template);
    assert_eq!(with_all, js("A$<c"));
    assert_eq!(with_some, with_all);
}
