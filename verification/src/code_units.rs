//! The string type: an immutable sequence of UTF-16 code units.

use vstd::prelude::*;
use crate::error::StringError;

verus! {

/// Whether `unit` is the first half of a surrogate pair.
pub open spec fn is_high_surrogate(unit: u16) -> bool {
    0xD800 <= unit <= 0xDBFF
}

/// Whether `unit` is the second half of a surrogate pair.
pub open spec fn is_low_surrogate(unit: u16) -> bool {
    0xDC00 <= unit <= 0xDFFF
}

/// Whether `unit` is a surrogate of either kind.
pub open spec fn is_surrogate(unit: u16) -> bool {
    0xD800 <= unit <= 0xDFFF
}

/// Appends `source[start..end]` to `out`.
pub fn append_range(out: &mut Vec<u16>, source: &[u16], start: usize, end: usize)
    requires
        start <= end <= source@.len(),
    ensures
        final(out)@ == old(out)@ + source@.subrange(start as int, end as int),
{
    let mut i: usize = start;
    while i < end
        invariant
            start <= i <= end <= source@.len(),
            out@ == old(out)@ + source@.subrange(start as int, i as int),
        decreases end - i,
    {
        out.push(source[i]);
        i += 1;
        assert(out@ =~= old(out)@ + source@.subrange(start as int, i as int));
    }
}

/// Appends all of `source` to `out`.
pub fn append_all(out: &mut Vec<u16>, source: &[u16])
    ensures
        final(out)@ == old(out)@ + source@,
{
    append_range(out, source, 0, source.len());
    assert(source@.subrange(0, source@.len() as int) =~= source@);
}

/// Whether `text[at..at + pattern.len()]` is `pattern`.
pub fn matches_at(text: &[u16], at: usize, pattern: &[u16]) -> (r: bool)
    requires
        at + pattern@.len() <= text@.len(),
    ensures
        r == (text@.subrange(at as int, at + pattern@.len()) == pattern@),
{
    let length: usize = text.len();
    let mut k: usize = 0;
    while k < pattern.len()
        invariant
            k <= pattern@.len(),
            at + pattern@.len() <= text@.len() == length,
            text@.subrange(at as int, at + k) == pattern@.subrange(0, k as int),
        decreases pattern@.len() - k,
    {
        if text[at + k] != pattern[k] {
            assert(text@.subrange(at as int, at + pattern@.len())[k as int] != pattern@[k as int]);
            return false;
        }
        k += 1;
        assert(text@.subrange(at as int, at + k) =~= text@.subrange(at as int, at + k - 1).push(
            text@[at + k - 1],
        ));
        assert(pattern@.subrange(0, k as int) =~= pattern@.subrange(0, k - 1).push(
            pattern@[k - 1],
        ));
    }
    assert(pattern@.subrange(0, k as int) =~= pattern@);
    true
}

/// A string: a sequence of 16-bit code units, fixed once it is made. Its
/// length is the number of code units, not of characters.
#[derive(Debug, Hash)]
pub struct JsString {
    units: Vec<u16>,
}

impl View for JsString {
    type V = Seq<u16>;

    closed spec fn view(&self) -> Seq<u16> {
        self.units@
    }
}

/// The texts of `strings`.
pub open spec fn texts(strings: Seq<JsString>) -> Seq<Seq<u16>> {
    Seq::new(strings.len(), |k: int| strings[k]@)
}

impl JsString {
    /// The empty string.
    pub fn new() -> (r: Self)
        ensures
            r@ == Seq::<u16>::empty(),
    {
        JsString { units: Vec::new() }
    }

    /// The string that holds exactly `units`.
    pub fn from_units(units: Vec<u16>) -> (r: Self)
        ensures
            r@ == units@,
    {
        JsString { units }
    }

    /// The string that holds a copy of `units`.
    pub fn from_slice(units: &[u16]) -> (r: Self)
        ensures
            r@ == units@,
    {
        let mut out: Vec<u16> = Vec::new();
        append_all(&mut out, units);
        assert(out@ =~= units@);
        JsString { units: out }
    }

    /// The code units, borrowed.
    pub fn as_slice(&self) -> (r: &[u16])
        ensures
            r@ == self@,
    {
        self.units.as_slice()
    }

    /// The code units, owned.
    pub fn into_units(self) -> (r: Vec<u16>)
        ensures
            r@ == self@,
    {
        self.units
    }

    /// The number of code units.
    pub fn len(&self) -> (r: usize)
        ensures
            r == self@.len(),
    {
        self.units.len()
    }

    /// Whether the string has no code unit.
    pub fn is_empty(&self) -> (r: bool)
        ensures
            r == (self@.len() == 0),
    {
        self.units.len() == 0
    }

    /// The code unit at `index`, or `None` past the end.
    pub fn get(&self, index: usize) -> (r: Option<u16>)
        ensures
            r == (if index < self@.len() {
                Some(self@[index as int])
            } else {
                None
            }),
    {
        if index < self.units.len() {
            Some(self.units[index])
        } else {
            None
        }
    }

    /// The code units from `start` up to, not including, `end`.
    ///
    /// Fails exactly when the range is not inside the string:
    /// when `start > end` or `end > len`.
    pub fn slice(&self, start: usize, end: usize) -> (r: Result<JsString, StringError>)
        ensures
            start <= end <= self@.len() ==> r.is_ok() && r.unwrap()@ == self@.subrange(
                start as int,
                end as int,
            ),
            !(start <= end <= self@.len()) ==> r == Err::<JsString, StringError>(
                StringError::IndexOutOfRange,
            ),
    {
        if start <= end && end <= self.units.len() {
            let mut out: Vec<u16> = Vec::new();
            append_range(&mut out, self.units.as_slice(), start, end);
            assert(out@ =~= self@.subrange(start as int, end as int));
            Ok(JsString { units: out })
        } else {
            Err(StringError::IndexOutOfRange)
        }
    }

    /// This string followed by `other`.
    pub fn concat(&self, other: &JsString) -> (r: JsString)
        ensures
            r@ == self@ + other@,
    {
        let mut out: Vec<u16> = Vec::new();
        append_all(&mut out, self.units.as_slice());
        append_all(&mut out, other.units.as_slice());
        assert(out@ =~= self@ + other@);
        JsString { units: out }
    }

    /// Whether `unit` is one of the code units.
    pub fn contains(&self, unit: u16) -> (r: bool)
        ensures
            r == self@.contains(unit),
    {
        let mut i: usize = 0;
        while i < self.units.len()
            invariant
                i <= self.units@.len(),
                forall|j: int| 0 <= j < i ==> self.units@[j] != unit,
            decreases self.units@.len() - i,
        {
            if self.units[i] == unit {
                return true;
            }
            i += 1;
        }
        false
    }
}

impl Clone for JsString {
    fn clone(&self) -> (r: Self)
        ensures
            r@ == self@,
    {
        JsString::from_slice(self.units.as_slice())
    }
}

impl PartialEq for JsString {
    /// Code unit by code unit: no normalization, no folding.
    fn eq(&self, other: &Self) -> (r: bool) {
        proof {
            assert(self@.subrange(0, self@.len() as int) =~= self@);
        }
        self.units.len() == other.units.len() && matches_at(
            self.units.as_slice(),
            0,
            other.units.as_slice(),
        )
    }
}

impl Eq for JsString {

}

impl vstd::std_specs::cmp::PartialEqSpecImpl for JsString {
    open spec fn obeys_eq_spec() -> bool {
        true
    }

    open spec fn eq_spec(&self, other: &Self) -> bool {
        self@ == other@
    }
}

} // verus!
