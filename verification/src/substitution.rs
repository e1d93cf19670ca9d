//! Expanding a replacement template against one match.
//!
//! A template is read once, from left to right, code point by code point,
//! and falls into items: stretches of text that are copied, and escapes,
//! which begin with `$` and stand for a part of the match. Text that an
//! escape produced is never read again.

use vstd::prelude::*;
use crate::code_point::{decode, encode_code_points, CodePoint};
use crate::code_units::{append_all, append_range, matches_at, JsString};

verus! {

/// A named group of a match: the group's name and what it captured, if it
/// took part in the match.
#[derive(Debug)]
pub struct NamedCapture {
    pub name: JsString,
    pub value: Option<JsString>,
}

/// One match as the expansion sees it.
pub struct MatchContext {
    /// The matched text.
    pub matched: Seq<u16>,
    /// The string in which the match was found.
    pub source: Seq<u16>,
    /// Where the match begins in `source`.
    pub position: int,
    /// The numbered groups, the first at index 0; `None` for a group that
    /// did not take part.
    pub captures: Seq<Option<Seq<u16>>>,
    /// The named groups as name and value, or `None` where the pattern has
    /// none.
    pub named_captures: Option<Seq<(Seq<u16>, Option<Seq<u16>>)>>,
}

/// What an item of a template is.
#[derive(Debug, Clone, Copy, PartialEq, Eq, Structural)]
pub enum ItemKind {
    /// Text that is copied.
    Text,
    /// `$&`: the matched text.
    Matched,
    /// `` $` ``: what stands before the match.
    Before,
    /// `$'`: what stands after the match.
    After,
    /// `$n` or `$nn`: the group with that number.
    Group(usize),
    /// `$<name>`: the group with that name.
    Named,
}

/// One item of a template: its kind, its text and the index of the code
/// point behind it. The text is what is copied for `Text`, the reference as
/// it is written for `Group`, the name for `Named`, and empty otherwise.
pub struct Item {
    pub kind: ItemKind,
    pub text: Seq<u16>,
    pub next: int,
}

/// Whether `point` is the character `c`.
pub open spec fn is_char(point: CodePoint, c: char) -> bool {
    point == CodePoint::Scalar(c)
}

/// Whether `point` is one of the digits `0` to `9`.
pub open spec fn is_digit(point: CodePoint) -> bool {
    match point {
        CodePoint::Scalar(c) => 0x30 <= c as u32 <= 0x39,
        CodePoint::UnpairedSurrogate(_) => false,
    }
}

/// The value of a digit.
pub open spec fn digit_value(point: CodePoint) -> int {
    point.value() - 0x30
}

/// How many code points stand at `from` before the next `>`, or before the
/// end where there is no `>`.
pub open spec fn name_length(template: Seq<CodePoint>, from: int) -> nat
    decreases template.len() - from,
{
    if from < 0 || from >= template.len() || is_char(template[from], '>') {
        0
    } else {
        1 + name_length(template, from + 1)
    }
}

/// The item of `template` that begins at `i`. `named` says whether the
/// match has named groups.
///
/// After `$` the forms are tried in this order: `$$`, `$&`, `` $` ``, `$'`,
/// two digits, one digit, `$<`.
/// - Two digits are always read together, also where their number names no
///   group.
/// - `$<` without named groups is text. With them, the name runs to the
///   next `>`; where there is none, `$<` and all that follows is text.
/// - `$` before anything else, or at the end, is text by itself, and what
///   follows it is read as usual.
pub open spec fn item_at(template: Seq<CodePoint>, i: int, named: bool) -> Item
    recommends
        0 <= i < template.len(),
{
    if !is_char(template[i], '$') {
        Item { kind: ItemKind::Text, text: template[i].encoded(), next: i + 1 }
    } else if i + 1 >= template.len() {
        Item { kind: ItemKind::Text, text: seq![0x24u16], next: i + 1 }
    } else {
        let second = template[i + 1];
        if is_char(second, '$') {
            Item { kind: ItemKind::Text, text: seq![0x24u16], next: i + 2 }
        } else if is_char(second, '&') {
            Item { kind: ItemKind::Matched, text: Seq::empty(), next: i + 2 }
        } else if is_char(second, '`') {
            Item { kind: ItemKind::Before, text: Seq::empty(), next: i + 2 }
        } else if is_char(second, '\'') {
            Item { kind: ItemKind::After, text: Seq::empty(), next: i + 2 }
        } else if is_digit(second) && i + 2 < template.len() && is_digit(template[i + 2]) {
            Item {
                kind: ItemKind::Group(
                    (10 * digit_value(second) + digit_value(template[i + 2])) as usize,
                ),
                text: seq![0x24u16] + second.encoded() + template[i + 2].encoded(),
                next: i + 3,
            }
        } else if is_digit(second) {
            Item {
                kind: ItemKind::Group(digit_value(second) as usize),
                text: seq![0x24u16] + second.encoded(),
                next: i + 2,
            }
        } else if is_char(second, '<') {
            let close = i + 2 + name_length(template, i + 2);
            let name = encode_code_points(template.subrange(i + 2, close));
            if !named {
                Item { kind: ItemKind::Text, text: seq![0x24u16, 0x3Cu16], next: i + 2 }
            } else if close >= template.len() {
                Item { kind: ItemKind::Text, text: seq![0x24u16, 0x3Cu16] + name, next: close }
            } else {
                Item { kind: ItemKind::Named, text: name, next: close + 1 }
            }
        } else {
            Item { kind: ItemKind::Text, text: seq![0x24u16], next: i + 1 }
        }
    }
}

/// A name ends at the end of the template at the latest.
pub proof fn lemma_name_length(template: Seq<CodePoint>, from: int)
    requires
        0 <= from <= template.len(),
    ensures
        from + name_length(template, from) <= template.len(),
        from + name_length(template, from) < template.len() ==> is_char(
            template[from + name_length(template, from)],
            '>',
        ),
    decreases template.len() - from,
{
    if from < template.len() && !is_char(template[from], '>') {
        lemma_name_length(template, from + 1);
    }
}

/// An item is not empty and ends inside the template.
pub proof fn lemma_item_next(template: Seq<CodePoint>, i: int, named: bool)
    requires
        0 <= i < template.len(),
    ensures
        i < item_at(template, i, named).next <= template.len(),
{
    if i + 2 <= template.len() {
        lemma_name_length(template, i + 2);
    }
}

/// The text of the first group called `name`; empty where there is none or
/// where it did not take part in the match.
pub open spec fn named_text(groups: Seq<(Seq<u16>, Option<Seq<u16>>)>, name: Seq<u16>) -> Seq<u16>
    decreases groups.len(),
{
    if groups.len() == 0 {
        Seq::empty()
    } else if groups[0].0 == name {
        match groups[0].1 {
            Some(text) => text,
            None => Seq::empty(),
        }
    } else {
        named_text(groups.skip(1), name)
    }
}

impl MatchContext {
    /// The part of the source before the match.
    pub open spec fn before(self) -> Seq<u16> {
        self.source.take(self.position)
    }

    /// The part of the source after the match; empty where the match
    /// reaches the end or beyond.
    pub open spec fn after(self) -> Seq<u16> {
        if self.position + self.matched.len() < self.source.len() {
            self.source.skip(self.position + self.matched.len())
        } else {
            Seq::empty()
        }
    }

    /// What a reference to group `n` stands for. The groups are numbered from
    /// one. A number that names no group leaves `literal`, the reference as
    /// written; a group that did not take part gives the empty text.
    pub open spec fn numbered(self, n: int, literal: Seq<u16>) -> Seq<u16> {
        if n <= 0 || n > self.captures.len() {
            literal
        } else {
            match self.captures[n - 1] {
                Some(text) => text,
                None => Seq::empty(),
            }
        }
    }

    /// What a reference to the group called `name` stands for.
    pub open spec fn named(self, name: Seq<u16>) -> Seq<u16> {
        match self.named_captures {
            Some(groups) => named_text(groups, name),
            None => Seq::empty(),
        }
    }

    /// What `item` stands for.
    pub open spec fn item_text(self, item: Item) -> Seq<u16> {
        match item.kind {
            ItemKind::Text => item.text,
            ItemKind::Matched => self.matched,
            ItemKind::Before => self.before(),
            ItemKind::After => self.after(),
            ItemKind::Group(n) => self.numbered(n as int, item.text),
            ItemKind::Named => self.named(item.text),
        }
    }
}

/// The expansion of `template[i..]`: what its items stand for, one after
/// another.
pub open spec fn expand_from(context: MatchContext, template: Seq<CodePoint>, i: int) -> Seq<u16>
    decreases template.len() - i,
{
    if i < 0 || i >= template.len() {
        Seq::empty()
    } else {
        let item = item_at(template, i, context.named_captures is Some);
        proof {
            lemma_item_next(template, i, context.named_captures is Some);
        }
        context.item_text(item) + expand_from(context, template, item.next)
    }
}

/// The expansion of a whole template.
pub open spec fn expand(context: MatchContext, template: Seq<u16>) -> Seq<u16> {
    expand_from(context, decode(template), 0)
}

/// The names that `template[i..]` refers to, in their order and as often as
/// it refers to them, where the match has named groups.
pub open spec fn references_from(template: Seq<CodePoint>, i: int) -> Seq<Seq<u16>>
    decreases template.len() - i,
{
    if i < 0 || i >= template.len() {
        Seq::empty()
    } else {
        let item = item_at(template, i, true);
        proof {
            lemma_item_next(template, i, true);
        }
        if item.kind == ItemKind::Named {
            seq![item.text] + references_from(template, item.next)
        } else {
            references_from(template, item.next)
        }
    }
}

/// The names that a whole template refers to.
pub open spec fn references(template: Seq<u16>) -> Seq<Seq<u16>> {
    references_from(decode(template), 0)
}

/// The numbered groups as texts.
pub open spec fn captures_view(captures: Seq<Option<JsString>>) -> Seq<Option<Seq<u16>>> {
    Seq::new(
        captures.len(),
        |k: int|
            match captures[k] {
                Some(text) => Some(text@),
                None => None,
            },
    )
}

/// The named groups as pairs of texts.
pub open spec fn named_view(groups: Seq<NamedCapture>) -> Seq<(Seq<u16>, Option<Seq<u16>>)> {
    Seq::new(
        groups.len(),
        |k: int|
            (
                groups[k].name@,
                match groups[k].value {
                    Some(text) => Some(text@),
                    None => None,
                },
            ),
    )
}

/// The match that the arguments of `get_substitution` describe.
pub open spec fn context_of(
    matched: Seq<u16>,
    source: Seq<u16>,
    position: int,
    captures: Seq<Option<JsString>>,
    named_captures: Option<Seq<NamedCapture>>,
) -> MatchContext {
    MatchContext {
        matched,
        source,
        position,
        captures: captures_view(captures),
        named_captures: match named_captures {
            Some(groups) => Some(named_view(groups)),
            None => None,
        },
    }
}

/// An expansion reads of the named groups only what they give for the
/// names that the template refers to: two matches that differ only in
/// their named groups, and agree on those names, expand alike.
pub proof fn lemma_expand_reads_references(
    first: MatchContext,
    second: MatchContext,
    template: Seq<CodePoint>,
    i: int,
)
    requires
        first.matched == second.matched,
        first.source == second.source,
        first.position == second.position,
        first.captures == second.captures,
        first.named_captures is Some,
        second.named_captures is Some,
        forall|k: int|
            0 <= k < references_from(template, i).len() ==> first.named(
                #[trigger] references_from(template, i)[k],
            ) == second.named(references_from(template, i)[k]),
    ensures
        expand_from(first, template, i) == expand_from(second, template, i),
    decreases template.len() - i,
{
    if 0 <= i < template.len() {
        let item = item_at(template, i, true);
        lemma_item_next(template, i, true);
        let names = references_from(template, i);
        let later = references_from(template, item.next);
        if item.kind == ItemKind::Named {
            assert(names =~= seq![item.text] + later);
            assert(names[0] == item.text);
            assert forall|k: int| 0 <= k < later.len() implies first.named(#[trigger] later[k])
                == second.named(later[k]) by {
                assert(later[k] == names[k + 1]);
            }
        }
        lemma_expand_reads_references(first, second, template, item.next);
    }
}

/// Whether `point` is the character `c`.
fn point_is(point: &CodePoint, c: char) -> (r: bool)
    ensures
        r == is_char(*point, c),
{
    match point {
        CodePoint::Scalar(d) => *d == c,
        CodePoint::UnpairedSurrogate(_) => false,
    }
}

/// The value of `point` where it is a digit.
fn digit_of(point: &CodePoint) -> (r: Option<usize>)
    ensures
        r == (if is_digit(*point) {
            Some(digit_value(*point) as usize)
        } else {
            None
        }),
        r matches Some(value) ==> value <= 9,
{
    match point {
        CodePoint::Scalar(c) => {
            let v: u32 = *c as u32;
            if 0x30 <= v && v <= 0x39 {
                Some((v - 0x30) as usize)
            } else {
                None
            }
        },
        CodePoint::UnpairedSurrogate(_) => None,
    }
}

/// An item as the scan returns it.
struct Scanned {
    kind: ItemKind,
    text: Vec<u16>,
    next: usize,
}

impl Scanned {
    spec fn item(&self) -> Item {
        Item { kind: self.kind, text: self.text@, next: self.next as int }
    }
}

/// Reads the item of `template` that begins at `i`.
fn scan(template: &Vec<CodePoint>, i: usize, named: bool) -> (r: Scanned)
    requires
        i < template@.len(),
    ensures
        r.item() == item_at(template@, i as int, named),
        i < r.next <= template@.len(),
{
    let length: usize = template.len();
    let first: CodePoint = template[i];
    let mut text: Vec<u16> = Vec::new();
    if !point_is(&first, '$') {
        first.encode_utf16(&mut text);
        assert(text@ =~= first.encoded());
        return Scanned { kind: ItemKind::Text, text, next: i + 1 };
    }
    text.push(0x24);
    assert(text@ =~= seq![0x24u16]);
    if i + 1 >= length {
        return Scanned { kind: ItemKind::Text, text, next: i + 1 };
    }
    let second: CodePoint = template[i + 1];
    let second_digit: Option<usize> = digit_of(&second);
    if point_is(&second, '$') {
        Scanned { kind: ItemKind::Text, text, next: i + 2 }
    } else if point_is(&second, '&') {
        Scanned { kind: ItemKind::Matched, text: Vec::new(), next: i + 2 }
    } else if point_is(&second, '`') {
        Scanned { kind: ItemKind::Before, text: Vec::new(), next: i + 2 }
    } else if point_is(&second, '\'') {
        Scanned { kind: ItemKind::After, text: Vec::new(), next: i + 2 }
    } else if second_digit.is_some() {
        let tens: usize = second_digit.unwrap();
        second.encode_utf16(&mut text);
        let third_digit: Option<usize> = if i + 2 < length {
            digit_of(&template[i + 2])
        } else {
            None
        };
        match third_digit {
            Some(units) => {
                template[i + 2].encode_utf16(&mut text);
                Scanned { kind: ItemKind::Group(10 * tens + units), text, next: i + 3 }
            },
            None => Scanned { kind: ItemKind::Group(tens), text, next: i + 2 },
        }
    } else if point_is(&second, '<') {
        text.push(0x3C);
        assert(text@ =~= seq![0x24u16, 0x3Cu16]);
        if !named {
            return Scanned { kind: ItemKind::Text, text, next: i + 2 };
        }
        let mut name: Vec<u16> = Vec::new();
        let mut j: usize = i + 2;
        assert(template@.subrange(i + 2, j as int) =~= Seq::<CodePoint>::empty());
        while j < length && !point_is(&template[j], '>')
            invariant
                i + 2 <= j <= length == template@.len(),
                name@ == encode_code_points(template@.subrange(i + 2, j as int)),
                i + 2 + name_length(template@, i + 2) == j + name_length(template@, j as int),
            decreases length - j,
        {
            template[j].encode_utf16(&mut name);
            proof {
                let longer = template@.subrange(i + 2, j + 1);
                assert(longer.drop_last() =~= template@.subrange(i + 2, j as int));
                assert(longer.last() == template@[j as int]);
            }
            j += 1;
        }
        if j >= length {
            append_all(&mut text, name.as_slice());
            Scanned { kind: ItemKind::Text, text, next: j }
        } else {
            Scanned { kind: ItemKind::Named, text: name, next: j + 1 }
        }
    } else {
        Scanned { kind: ItemKind::Text, text, next: i + 1 }
    }
}

/// Appends what a reference to group `n` stands for.
fn push_numbered(
    out: &mut Vec<u16>,
    captures: &[Option<JsString>],
    n: usize,
    literal: &Vec<u16>,
    Ghost(context): Ghost<MatchContext>,
)
    requires
        context.captures == captures_view(captures@),
    ensures
        final(out)@ == old(out)@ + context.numbered(n as int, literal@),
{
    if n == 0 || n > captures.len() {
        append_all(out, literal.as_slice());
    } else {
        match &captures[n - 1] {
            Some(text) => {
                append_all(out, text.as_slice());
            },
            None => {
                assert(out@ =~= old(out)@ + Seq::<u16>::empty());
            },
        }
    }
}

/// Appends the text of the first group called `name`.
fn push_named(out: &mut Vec<u16>, groups: &[NamedCapture], name: &Vec<u16>)
    ensures
        final(out)@ == old(out)@ + named_text(named_view(groups@), name@),
{
    let mut k: usize = 0;
    let ghost all = named_view(groups@);
    assert(all.skip(0) =~= all);
    while k < groups.len()
        invariant
            k <= groups@.len(),
            all == named_view(groups@),
            named_text(all.skip(k as int), name@) == named_text(all, name@),
            out@ == old(out)@,
        decreases groups@.len() - k,
    {
        let group: &NamedCapture = &groups[k];
        proof {
            assert(all.skip(k as int)[0] == all[k as int]);
            assert(all.skip(k as int).skip(1) =~= all.skip(k + 1));
        }
        if group.name.len() == name.len() && matches_at(
            group.name.as_slice(),
            0,
            name.as_slice(),
        ) {
            assert(group.name@.subrange(0, name@.len() as int) =~= group.name@);
            match &group.value {
                Some(text) => {
                    append_all(out, text.as_slice());
                },
                None => {
                    assert(out@ =~= old(out)@ + Seq::<u16>::empty());
                },
            }
            return ;
        }
        assert(group.name@ != name@) by {
            if group.name@ == name@ {
                assert(group.name@.subrange(0, name@.len() as int) =~= group.name@);
            }
        }
        k += 1;
    }
    assert(out@ =~= old(out)@ + Seq::<u16>::empty());
}

/// Expands `replacement` for one match.
///
/// `matched` was found in `source` at `position`; `captures` are the
/// numbered groups and `named_captures` the named ones, `None` where the
/// pattern has none.
pub fn get_substitution(
    matched: &JsString,
    source: &JsString,
    position: usize,
    captures: &[Option<JsString>],
    named_captures: Option<&[NamedCapture]>,
    replacement: &JsString,
) -> (r: JsString)
    requires
        position <= source@.len(),
    ensures
        r@ == expand(
            context_of(
                matched@,
                source@,
                position as int,
                captures@,
                match named_captures {
                    Some(groups) => Some(groups@),
                    None => None,
                },
            ),
            replacement@,
        ),
{
    let ghost context = context_of(
        matched@,
        source@,
        position as int,
        captures@,
        match named_captures {
            Some(groups) => Some(groups@),
            None => None,
        },
    );
    let template: Vec<CodePoint> = replacement.to_code_points();
    let length: usize = template.len();
    let source_length: usize = source.len();
    let mut out: Vec<u16> = Vec::new();
    let mut i: usize = 0;
    assert(out@ + expand_from(context, template@, 0) =~= expand_from(context, template@, 0));
    while i < length
        invariant
            i <= length == template@.len(),
            position <= source@.len() == source_length,
            context == context_of(
                matched@,
                source@,
                position as int,
                captures@,
                match named_captures {
                    Some(groups) => Some(groups@),
                    None => None,
                },
            ),
            out@ + expand_from(context, template@, i as int) == expand_from(
                context,
                template@,
                0,
            ),
        decreases length - i,
    {
        let ghost before = out@;
        let item: Scanned = scan(&template, i, named_captures.is_some());
        match item.kind {
            ItemKind::Text => {
                append_all(&mut out, item.text.as_slice());
            },
            ItemKind::Matched => {
                append_all(&mut out, matched.as_slice());
            },
            ItemKind::Before => {
                append_range(&mut out, source.as_slice(), 0, position);
                assert(source@.subrange(0, position as int) =~= context.before());
            },
            ItemKind::After => {
                if matched.len() < source_length - position {
                    append_range(
                        &mut out,
                        source.as_slice(),
                        position + matched.len(),
                        source_length,
                    );
                    assert(source@.subrange(position + matched@.len(), source_length as int)
                        =~= context.after());
                } else {
                    assert(out@ =~= before + context.after());
                }
            },
            ItemKind::Group(n) => {
                push_numbered(&mut out, captures, n, &item.text, Ghost(context));
            },
            ItemKind::Named => {
                match named_captures {
                    Some(groups) => {
                        push_named(&mut out, groups, &item.text);
                    },
                    None => {
                        assert(out@ =~= before + context.named(item.text@));
                    },
                }
            },
        }
        proof {
            assert(out@ == before + context.item_text(item.item()));
            assert(out@ + expand_from(context, template@, item.next as int) =~= before
                + expand_from(context, template@, i as int));
        }
        i = item.next;
    }
    assert(out@ + expand_from(context, template@, i as int) =~= out@);
    JsString::from_units(out)
}

/// The names of the groups that `replacement` refers to with `$<name>`, in
/// their order and as often as it refers to them: the names that an
/// expansion looks up where the match has named groups.
pub fn named_references(replacement: &JsString) -> (r: Vec<JsString>)
    ensures
        r@.len() == references(replacement@).len(),
        forall|k: int| 0 <= k < r@.len() ==> (#[trigger] r@[k])@ == references(replacement@)[k],
{
    let template: Vec<CodePoint> = replacement.to_code_points();
    let length: usize = template.len();
    let ghost all = references_from(template@, 0);
    let mut names: Vec<JsString> = Vec::new();
    let mut i: usize = 0;
    while i < length
        invariant
            i <= length == template@.len(),
            template@ == decode(replacement@),
            all == references_from(template@, 0),
            names@.len() + references_from(template@, i as int).len() == all.len(),
            forall|k: int| 0 <= k < names@.len() ==> (#[trigger] names@[k])@ == all[k],
            forall|k: int|
                0 <= k < references_from(template@, i as int).len() ==> references_from(
                    template@,
                    i as int,
                )[k] == all[names@.len() + k],
        decreases length - i,
    {
        let ghost rest = references_from(template@, i as int);
        let item: Scanned = scan(&template, i, true);
        let ghost later = references_from(template@, item.next as int);
        match item.kind {
            ItemKind::Named => {
                assert(rest =~= seq![item.text@] + later);
                assert(rest[0] == item.text@);
                names.push(JsString::from_units(item.text));
                assert forall|k: int| 0 <= k < later.len() implies later[k] == all[names@.len()
                    + k] by {
                    assert(later[k] == rest[k + 1]);
                }
            },
            _ => {
                assert(rest == later);
            },
        }
        i = item.next;
    }
    names
}

} // verus!
