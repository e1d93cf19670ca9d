//! The characters that trimming removes.

use vstd::prelude::*;
use crate::builtins::String;
use crate::code_units::{append_range, is_surrogate, JsString};

verus! {

/// The white space and line terminator characters of the language: the
/// characters that the trimming operations strip from the ends of a string.
pub open spec fn trimmable(c: char) -> bool {
    let v = c as u32;
    ||| v == 0x0009
    ||| v == 0x000A
    ||| v == 0x000B
    ||| v == 0x000C
    ||| v == 0x000D
    ||| v == 0x0020
    ||| v == 0x00A0
    ||| v == 0x1680
    ||| 0x2000 <= v <= 0x200A
    ||| v == 0x2028
    ||| v == 0x2029
    ||| v == 0x202F
    ||| v == 0x205F
    ||| v == 0x3000
    ||| v == 0xFEFF
}

/// Whether `c` is white space or a line terminator.
///
/// This is not the set that `char::is_whitespace` accepts: U+0085 is left
/// out and U+FEFF is included.
pub fn is_trimmable_whitespace(c: char) -> (r: bool)
    ensures
        r == trimmable(c),
{
    let v: u32 = c as u32;
    v == 0x0009 || v == 0x000A || v == 0x000B || v == 0x000C || v == 0x000D || v == 0x0020
        || v == 0x00A0 || v == 0x1680 || (0x2000 <= v && v <= 0x200A) || v == 0x2028
        || v == 0x2029 || v == 0x202F || v == 0x205F || v == 0x3000 || v == 0xFEFF
}

/// Whether `unit` is a white space or line terminator character by itself.
/// A surrogate never is.
pub open spec fn trimmable_unit(unit: u16) -> bool {
    !is_surrogate(unit) && trimmable(unit as char)
}

/// How many code units at the start of `text` are white space.
pub open spec fn leading_whitespace(text: Seq<u16>) -> nat
    decreases text.len(),
{
    if text.len() > 0 && trimmable_unit(text[0]) {
        1 + leading_whitespace(text.skip(1))
    } else {
        0
    }
}

/// How many code units at the end of `text` are white space.
pub open spec fn trailing_whitespace(text: Seq<u16>) -> nat
    decreases text.len(),
{
    if text.len() > 0 && trimmable_unit(text.last()) {
        1 + trailing_whitespace(text.drop_last())
    } else {
        0
    }
}

/// `text` without the white space at its start.
pub open spec fn trimmed_start(text: Seq<u16>) -> Seq<u16> {
    text.skip(leading_whitespace(text) as int)
}

/// `text` without the white space at its end.
pub open spec fn trimmed_end(text: Seq<u16>) -> Seq<u16> {
    text.take(text.len() - trailing_whitespace(text))
}

/// `text` without the white space at its start and at its end.
pub open spec fn trimmed(text: Seq<u16>) -> Seq<u16> {
    trimmed_end(trimmed_start(text))
}

/// Whether `unit` is a white space or line terminator character by itself.
pub fn is_trimmable_unit(unit: u16) -> (r: bool)
    ensures
        r == trimmable_unit(unit),
{
    match char::from_u32(unit as u32) {
        Some(c) => is_trimmable_whitespace(c),
        None => false,
    }
}

impl JsString {
    /// The string without the white space at its start.
    pub fn trim_start(&self) -> (r: JsString)
        ensures
            r@ == trimmed_start(self@),
    {
        let text: &[u16] = self.as_slice();
        let length: usize = text.len();
        let mut i: usize = 0;
        assert(text@.skip(0) =~= text@);
        while i < length && is_trimmable_unit(text[i])
            invariant
                i <= length == text@.len(),
                i + leading_whitespace(text@.skip(i as int)) == leading_whitespace(text@),
            decreases length - i,
        {
            assert(text@.skip(i as int).skip(1) =~= text@.skip(i + 1));
            i += 1;
        }
        let mut out: Vec<u16> = Vec::new();
        append_range(&mut out, text, i, length);
        assert(out@ =~= text@.skip(i as int));
        JsString::from_units(out)
    }

    /// The string without the white space at its end.
    pub fn trim_end(&self) -> (r: JsString)
        ensures
            r@ == trimmed_end(self@),
    {
        let text: &[u16] = self.as_slice();
        let length: usize = text.len();
        let mut j: usize = length;
        assert(text@.take(length as int) =~= text@);
        while j > 0 && is_trimmable_unit(text[j - 1])
            invariant
                j <= length == text@.len(),
                length - j + trailing_whitespace(text@.take(j as int)) == trailing_whitespace(
                    text@,
                ),
            decreases j,
        {
            assert(text@.take(j as int).drop_last() =~= text@.take(j - 1));
            j -= 1;
        }
        let mut out: Vec<u16> = Vec::new();
        append_range(&mut out, text, 0, j);
        assert(out@ =~= text@.take(j as int));
        JsString::from_units(out)
    }

    /// The string without the white space at its start and at its end.
    pub fn trim(&self) -> (r: JsString)
        ensures
            r@ == trimmed(self@),
    {
        self.trim_start().trim_end()
    }
}

impl String {
    /// `this` without the white space and line terminators at both ends.
    pub fn trim(this: &JsString) -> (r: JsString)
        ensures
            r@ == trimmed(this@),
    {
        this.trim()
    }

    /// `this` without the white space and line terminators at its start.
    pub fn trim_start(this: &JsString) -> (r: JsString)
        ensures
            r@ == trimmed_start(this@),
    {
        this.trim_start()
    }

    /// `this` without the white space and line terminators at its end.
    pub fn trim_end(this: &JsString) -> (r: JsString)
        ensures
            r@ == trimmed_end(this@),
    {
        this.trim_end()
    }
}

} // verus!
