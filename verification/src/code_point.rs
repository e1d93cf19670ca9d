//! Decoding a string into code points and encoding code points back.
//!
//! Decoding never fails. A high surrogate directly followed by a low one is
//! one character; any other surrogate stands for itself.

use vstd::prelude::*;
use crate::builtins::String;
use crate::code_units::{is_high_surrogate, is_low_surrogate, is_surrogate, JsString};

verus! {

/// One step of decoding: a character, or a surrogate that has no partner.
#[derive(Debug, Clone, Copy, PartialEq, Eq, Structural)]
pub enum CodePoint {
    /// A Unicode scalar value, from one code unit or from a surrogate pair.
    Scalar(char),
    /// A surrogate code unit that could not be paired.
    UnpairedSurrogate(u16),
}

/// The character that `i` numbers, if it numbers one: every value up to
/// U+10FFFF but the surrogates.
pub open spec fn scalar_of(i: u32) -> Option<char> {
    if i <= 0xD7FF || 0xE000 <= i <= 0x10FFFF {
        Some(i as char)
    } else {
        None
    }
}

/// `char::from_u32` of core. Its documentation says that it returns `None`
/// when the number is not a valid `char` and the character with that
/// number otherwise; the valid numbers are those up to 0x10FFFF outside
/// the surrogate range 0xD800..=0xDFFF.
pub assume_specification[ char::from_u32 ](i: u32) -> (r: Option<char>)
    ensures
        r == scalar_of(i),
;

/// The number of the character that the pair `high`, `low` encodes.
pub open spec fn pair_value(high: u16, low: u16) -> int {
    0x10000 + (high - 0xD800) * 0x400 + (low - 0xDC00)
}

/// Whether `units` begins with a surrogate pair.
pub open spec fn starts_with_pair(units: Seq<u16>) -> bool {
    units.len() >= 2 && is_high_surrogate(units[0]) && is_low_surrogate(units[1])
}

/// The code point with which a non-empty `units` begins.
pub open spec fn first_code_point(units: Seq<u16>) -> CodePoint
    recommends
        units.len() > 0,
{
    if starts_with_pair(units) {
        CodePoint::Scalar(pair_value(units[0], units[1]) as char)
    } else if is_surrogate(units[0]) {
        CodePoint::UnpairedSurrogate(units[0])
    } else {
        CodePoint::Scalar(units[0] as char)
    }
}

/// The code points of `units`, from left to right.
pub open spec fn decode(units: Seq<u16>) -> Seq<CodePoint>
    decreases units.len(),
{
    if units.len() == 0 {
        Seq::empty()
    } else {
        let first = first_code_point(units);
        seq![first] + decode(units.skip(first.unit_count() as int))
    }
}

/// The one or two code units that encode `c`.
pub open spec fn encode_char(c: char) -> Seq<u16> {
    let v = c as u32 as int;
    if v < 0x10000 {
        seq![v as u16]
    } else {
        seq![(0xD800 + (v - 0x10000) / 0x400) as u16, (0xDC00 + (v - 0x10000) % 0x400) as u16]
    }
}

/// The code units that encode `text`, character after character.
pub open spec fn encode_chars(text: Seq<char>) -> Seq<u16>
    decreases text.len(),
{
    if text.len() == 0 {
        Seq::empty()
    } else {
        encode_chars(text.drop_last()) + encode_char(text.last())
    }
}

/// The code units of `points`, one after another.
pub open spec fn encode_code_points(points: Seq<CodePoint>) -> Seq<u16>
    decreases points.len(),
{
    if points.len() == 0 {
        Seq::empty()
    } else {
        encode_code_points(points.drop_last()) + points.last().encoded()
    }
}

impl CodePoint {
    /// A lone surrogate holds a surrogate; a character is always valid.
    pub open spec fn wf(self) -> bool {
        match self {
            CodePoint::Scalar(_) => true,
            CodePoint::UnpairedSurrogate(unit) => is_surrogate(unit),
        }
    }

    /// The number of the code point.
    pub open spec fn value(self) -> u32 {
        match self {
            CodePoint::Scalar(c) => c as u32,
            CodePoint::UnpairedSurrogate(unit) => unit as u32,
        }
    }

    /// How many code units encode the code point.
    pub open spec fn unit_count(self) -> nat {
        match self {
            CodePoint::Scalar(c) => if c as u32 >= 0x10000 {
                2
            } else {
                1
            },
            CodePoint::UnpairedSurrogate(_) => 1,
        }
    }

    /// The code units of the code point.
    pub open spec fn encoded(self) -> Seq<u16> {
        match self {
            CodePoint::Scalar(c) => encode_char(c),
            CodePoint::UnpairedSurrogate(unit) => seq![unit],
        }
    }

    /// The number of the code point.
    pub fn as_u32(&self) -> (r: u32)
        ensures
            r == self.value(),
    {
        match self {
            CodePoint::Scalar(c) => *c as u32,
            CodePoint::UnpairedSurrogate(unit) => *unit as u32,
        }
    }

    /// The character, unless this is a lone surrogate.
    pub fn as_char(&self) -> (r: Option<char>)
        ensures
            r == (match *self {
                CodePoint::Scalar(c) => Some(c),
                CodePoint::UnpairedSurrogate(_) => None,
            }),
    {
        match self {
            CodePoint::Scalar(c) => Some(*c),
            CodePoint::UnpairedSurrogate(_) => None,
        }
    }

    /// How many code units encode the code point.
    pub fn code_unit_count(&self) -> (r: usize)
        ensures
            r == self.unit_count(),
    {
        match self {
            CodePoint::Scalar(c) => if *c as u32 >= 0x10000 {
                2
            } else {
                1
            },
            CodePoint::UnpairedSurrogate(_) => 1,
        }
    }

    /// Appends the code units of the code point to `out`.
    pub fn encode_utf16(&self, out: &mut Vec<u16>)
        ensures
            final(out)@ == old(out)@ + self.encoded(),
    {
        match self {
            CodePoint::Scalar(c) => {
                push_char(out, *c);
            },
            CodePoint::UnpairedSurrogate(unit) => {
                out.push(*unit);
                assert(out@ =~= old(out)@ + seq![*unit]);
            },
        }
    }
}

/// Appends the UTF-16 encoding of `c` to `out`.
pub fn push_char(out: &mut Vec<u16>, c: char)
    ensures
        final(out)@ == old(out)@ + encode_char(c),
{
    let v: u32 = c as u32;
    if v < 0x10000 {
        out.push(v as u16);
        assert(out@ =~= old(out)@ + encode_char(c));
    } else {
        let offset: u32 = v - 0x10000;
        let high: u16 = (0xD800 + offset / 0x400) as u16;
        let low: u16 = (0xDC00 + offset % 0x400) as u16;
        out.push(high);
        out.push(low);
        assert(out@ =~= old(out)@ + encode_char(c));
    }
}

/// Appends the UTF-16 encoding of `text` to `out`.
pub fn push_chars(out: &mut Vec<u16>, text: &Vec<char>)
    ensures
        final(out)@ == old(out)@ + encode_chars(text@),
{
    let mut i: usize = 0;
    assert(text@.take(0) =~= Seq::<char>::empty());
    assert(out@ =~= old(out)@ + encode_chars(text@.take(0)));
    while i < text.len()
        invariant
            i <= text@.len(),
            out@ == old(out)@ + encode_chars(text@.take(i as int)),
        decreases text@.len() - i,
    {
        push_char(out, text[i]);
        proof {
            let longer = text@.take(i + 1);
            assert(longer.drop_last() =~= text@.take(i as int));
            assert(longer.last() == text@[i as int]);
            assert(out@ =~= old(out)@ + encode_chars(longer));
        }
        i += 1;
    }
    assert(text@.take(text@.len() as int) =~= text@);
}

/// Decodes the code point with which `units[position..]` begins.
pub fn code_point_at_position(units: &[u16], position: usize) -> (r: CodePoint)
    requires
        position < units@.len(),
    ensures
        r == first_code_point(units@.skip(position as int)),
        r.wf(),
{
    let first: u16 = units[position];
    if 0xD800 <= first && first <= 0xDBFF && position + 1 < units.len() {
        let second: u16 = units[position + 1];
        if 0xDC00 <= second && second <= 0xDFFF {
            let high: u32 = (first - 0xD800) as u32;
            let low: u32 = (second - 0xDC00) as u32;
            let value: u32 = 0x10000 + high * 0x400 + low;
            let decoded: Option<char> = char::from_u32(value);
            return CodePoint::Scalar(decoded.unwrap());
        }
    }
    if 0xD800 <= first && first <= 0xDFFF {
        CodePoint::UnpairedSurrogate(first)
    } else {
        let decoded: Option<char> = char::from_u32(first as u32);
        CodePoint::Scalar(decoded.unwrap())
    }
}

/// A cursor over the code points of a string. Each call of `next` decodes
/// one code point and moves on; a fresh cursor starts at the beginning.
#[derive(Debug)]
pub struct CodePoints<'a> {
    units: &'a [u16],
    cursor: usize,
}

impl<'a> CodePoints<'a> {
    #[verifier::type_invariant]
    spec fn inside(&self) -> bool {
        self.cursor <= self.units@.len()
    }

    /// The code units that the cursor has still to decode.
    pub closed spec fn remaining(&self) -> Seq<u16> {
        self.units@.skip(self.cursor as int)
    }

    /// A cursor at the beginning of `units`.
    pub fn new(units: &'a [u16]) -> (r: Self)
        ensures
            r.remaining() == units@,
    {
        assert(units@.skip(0) =~= units@);
        CodePoints { units, cursor: 0 }
    }

    /// The next code point, or `None` at the end. What remains afterwards is
    /// what remained before without the code units of that code point.
    pub fn next(&mut self) -> (r: Option<CodePoint>)
        ensures
            match r {
                Some(point) => {
                    &&& old(self).remaining().len() > 0
                    &&& point == first_code_point(old(self).remaining())
                    &&& point.wf()
                    &&& final(self).remaining() == old(self).remaining().skip(
                        point.unit_count() as int,
                    )
                    &&& decode(old(self).remaining()) == seq![point] + decode(
                        final(self).remaining(),
                    )
                },
                None => {
                    &&& old(self).remaining().len() == 0
                    &&& final(self).remaining().len() == 0
                },
            },
    {
        proof {
            use_type_invariant(&*self);
        }
        if self.cursor >= self.units.len() {
            return None;
        }
        let point: CodePoint = code_point_at_position(self.units, self.cursor);
        let count: usize = point.code_unit_count();
        proof {
            let rest = self.units@.skip(self.cursor as int);
            assert(rest.skip(count as int) =~= self.units@.skip(self.cursor + count));
        }
        self.cursor = self.cursor + count;
        Some(point)
    }
}

impl JsString {
    /// A cursor over the code points of the string, at its beginning.
    pub fn code_points(&self) -> (r: CodePoints<'_>)
        ensures
            r.remaining() == self@,
    {
        CodePoints::new(self.as_slice())
    }

    /// The code point that begins at `position`: the character of a
    /// surrogate pair that starts there, else the code unit itself.
    pub fn code_point_at(&self, position: usize) -> (r: CodePoint)
        requires
            position < self@.len(),
        ensures
            r == first_code_point(self@.skip(position as int)),
            r.wf(),
    {
        code_point_at_position(self.as_slice(), position)
    }

    /// The code points of the string, from left to right.
    pub fn to_code_points(&self) -> (r: Vec<CodePoint>)
        ensures
            r@ == decode(self@),
    {
        decode_units(self.as_slice())
    }
}

impl String {
    /// A cursor over the code points of `this`, at its beginning: what
    /// iterating over a string goes through.
    pub fn iterator(this: &JsString) -> (r: CodePoints<'_>)
        ensures
            r.remaining() == this@,
    {
        this.code_points()
    }
}

/// The code points of `units`, from left to right.
pub fn decode_units(units: &[u16]) -> (r: Vec<CodePoint>)
    ensures
        r@ == decode(units@),
{
    let mut points: Vec<CodePoint> = Vec::new();
    let mut cursor: CodePoints<'_> = CodePoints::new(units);
    assert(points@ + decode(units@) =~= decode(units@));
    loop
        invariant
            points@ + decode(cursor.remaining()) == decode(units@),
        decreases cursor.remaining().len(),
    {
        let ghost before = cursor.remaining();
        match cursor.next() {
            Some(point) => {
                assert(points@.push(point) + decode(cursor.remaining()) =~= points@ + decode(
                    before,
                ));
                points.push(point);
            },
            None => {
                assert(points@ + decode(before) =~= points@);
                return points;
            },
        }
    }
}

/// Decoding and encoding again gives the string back, whatever it holds:
/// characters of one or two code units and surrogates without a partner.
pub proof fn lemma_decode_round_trip(units: Seq<u16>)
    ensures
        encode_code_points(decode(units)) == units,
    decreases units.len(),
{
    if units.len() > 0 {
        let first = first_code_point(units);
        let rest = units.skip(first.unit_count() as int);
        lemma_decode_round_trip(rest);
        lemma_encode_code_points_concat(seq![first], decode(rest));
        let single = seq![first];
        assert(single.len() == 1 && single.last() == first);
        assert(single.drop_last() =~= Seq::<CodePoint>::empty());
        assert(encode_code_points(single.drop_last()) =~= Seq::<u16>::empty());
        assert(encode_code_points(single) =~= first.encoded());
        assert(first.encoded() =~= units.take(first.unit_count() as int));
        assert(units.take(first.unit_count() as int) + rest =~= units);
    }
}

/// Encoding goes through concatenation.
pub proof fn lemma_encode_code_points_concat(a: Seq<CodePoint>, b: Seq<CodePoint>)
    ensures
        encode_code_points(a + b) == encode_code_points(a) + encode_code_points(b),
    decreases b.len(),
{
    if b.len() == 0 {
        assert(a + b =~= a);
        assert(encode_code_points(a) + encode_code_points(b) =~= encode_code_points(a));
    } else {
        lemma_encode_code_points_concat(a, b.drop_last());
        assert((a + b).drop_last() =~= a + b.drop_last());
        assert((a + b).last() == b.last());
        assert(encode_code_points(a + b) =~= encode_code_points(a) + encode_code_points(b));
    }
}

/// Encoding goes through concatenation.
pub proof fn lemma_encode_chars_concat(a: Seq<char>, b: Seq<char>)
    ensures
        encode_chars(a + b) == encode_chars(a) + encode_chars(b),
    decreases b.len(),
{
    if b.len() == 0 {
        assert(a + b =~= a);
        assert(encode_chars(a) + encode_chars(b) =~= encode_chars(a));
    } else {
        lemma_encode_chars_concat(a, b.drop_last());
        assert((a + b).drop_last() =~= a + b.drop_last());
        assert((a + b).last() == b.last());
        assert(encode_chars(a + b) =~= encode_chars(a) + encode_chars(b));
    }
}

} // verus!
