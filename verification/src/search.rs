//! Finding one string inside another, code unit by code unit.

use vstd::prelude::*;
use crate::code_units::{matches_at, JsString};

verus! {

/// Whether `pattern` stands in `text` at index `at`.
///
/// The empty pattern stands at every index from 0 up to the length of the
/// text, and nowhere else.
pub open spec fn occurs_at(text: Seq<u16>, pattern: Seq<u16>, at: int) -> bool {
    0 <= at && at + pattern.len() <= text.len() && text.subrange(at, at + pattern.len())
        == pattern
}

/// The least index at or after `from` where `pattern` stands in `text`.
pub open spec fn first_occurrence(text: Seq<u16>, pattern: Seq<u16>, from: int) -> Option<int>
    decreases text.len() - from + 1,
{
    if from < 0 || from + pattern.len() > text.len() {
        None
    } else if occurs_at(text, pattern, from) {
        Some(from)
    } else {
        first_occurrence(text, pattern, from + 1)
    }
}

/// The greatest index at or before `from` where `pattern` stands in `text`.
pub open spec fn last_occurrence(text: Seq<u16>, pattern: Seq<u16>, from: int) -> Option<int>
    decreases from + 1,
{
    if from < 0 {
        None
    } else if occurs_at(text, pattern, from) {
        Some(from)
    } else {
        last_occurrence(text, pattern, from - 1)
    }
}

/// What `first_occurrence` finds is an occurrence, and the leftmost one; where
/// it finds nothing, there is none at or after `from`.
pub proof fn lemma_first_occurrence(text: Seq<u16>, pattern: Seq<u16>, from: int)
    requires
        0 <= from,
    ensures
        match first_occurrence(text, pattern, from) {
            Some(p) => {
                &&& from <= p
                &&& occurs_at(text, pattern, p)
                &&& forall|q: int| from <= q < p ==> !occurs_at(text, pattern, q)
            },
            None => forall|q: int| from <= q ==> !occurs_at(text, pattern, q),
        },
    decreases text.len() - from + 1,
{
    if from + pattern.len() <= text.len() && !occurs_at(text, pattern, from) {
        lemma_first_occurrence(text, pattern, from + 1);
    }
}

/// What `last_occurrence` finds is an occurrence, and the rightmost one at or
/// before `from`; where it finds nothing, there is none there.
pub proof fn lemma_last_occurrence(text: Seq<u16>, pattern: Seq<u16>, from: int)
    ensures
        match last_occurrence(text, pattern, from) {
            Some(p) => {
                &&& p <= from
                &&& occurs_at(text, pattern, p)
                &&& forall|q: int| p < q <= from ==> !occurs_at(text, pattern, q)
            },
            None => forall|q: int| q <= from ==> !occurs_at(text, pattern, q),
        },
    decreases from + 1,
{
    if from >= 0 && !occurs_at(text, pattern, from) {
        lemma_last_occurrence(text, pattern, from - 1);
    }
}

impl JsString {
    /// The least index at or after `from` at which `search` stands in this
    /// string, or `None` where it stands at no such index.
    ///
    /// The empty string is found at `from` itself as long as `from` is not
    /// past the end.
    pub fn index_of(&self, search: &JsString, from: usize) -> (r: Option<usize>)
        ensures
            match r {
                Some(p) => {
                    &&& from <= p
                    &&& occurs_at(self@, search@, p as int)
                    &&& forall|q: int| from <= q < p ==> !occurs_at(self@, search@, q)
                    &&& first_occurrence(self@, search@, from as int) == Some(p as int)
                },
                None => {
                    &&& forall|q: int| from <= q ==> !occurs_at(self@, search@, q)
                    &&& first_occurrence(self@, search@, from as int) is None
                },
            },
    {
        let text: &[u16] = self.as_slice();
        let pattern: &[u16] = search.as_slice();
        let length: usize = text.len();
        let width: usize = pattern.len();
        proof {
            lemma_first_occurrence(self@, search@, from as int);
        }
        if width > length || from > length - width {
            return None;
        }
        let last: usize = length - width;
        let mut i: usize = from;
        loop
            invariant
                from <= i <= last,
                last + width == length,
                length == text@.len(),
                width == pattern@.len(),
                text@ == self@,
                pattern@ == search@,
                first_occurrence(self@, search@, i as int) == first_occurrence(
                    self@,
                    search@,
                    from as int,
                ),
            decreases last - i,
        {
            proof {
                lemma_first_occurrence(self@, search@, from as int);
            }
            if matches_at(text, i, pattern) {
                return Some(i);
            }
            if i == last {
                assert(first_occurrence(self@, search@, i + 1) is None);
                return None;
            }
            i += 1;
        }
    }

    /// The greatest index at or before `from` at which `search` stands in this
    /// string, or `None` where it stands at no such index.
    pub fn last_index_of(&self, search: &JsString, from: usize) -> (r: Option<usize>)
        ensures
            match r {
                Some(p) => {
                    &&& p <= from
                    &&& occurs_at(self@, search@, p as int)
                    &&& forall|q: int| p < q <= from ==> !occurs_at(self@, search@, q)
                    &&& last_occurrence(self@, search@, from as int) == Some(p as int)
                },
                None => {
                    &&& forall|q: int| q <= from ==> !occurs_at(self@, search@, q)
                    &&& last_occurrence(self@, search@, from as int) is None
                },
            },
    {
        let text: &[u16] = self.as_slice();
        let pattern: &[u16] = search.as_slice();
        let length: usize = text.len();
        let width: usize = pattern.len();
        proof {
            lemma_last_occurrence(self@, search@, from as int);
        }
        if width > length {
            return None;
        }
        let last: usize = length - width;
        let mut i: usize = if from < last {
            from
        } else {
            last
        };
        proof {
            lemma_skip_beyond(self@, search@, from as int, i as int);
        }
        loop
            invariant
                i <= last,
                i <= from,
                last + width == length,
                length == text@.len(),
                width == pattern@.len(),
                text@ == self@,
                pattern@ == search@,
                last_occurrence(self@, search@, i as int) == last_occurrence(
                    self@,
                    search@,
                    from as int,
                ),
            decreases i,
        {
            proof {
                lemma_last_occurrence(self@, search@, from as int);
            }
            if matches_at(text, i, pattern) {
                return Some(i);
            }
            if i == 0 {
                assert(last_occurrence(self@, search@, -1) is None);
                return None;
            }
            i -= 1;
        }
    }
}

/// Starting the backward search past the last index at which the pattern
/// fits finds the same as starting at that index.
proof fn lemma_skip_beyond(text: Seq<u16>, pattern: Seq<u16>, from: int, fit: int)
    requires
        0 <= fit <= from,
        fit == from || fit + pattern.len() == text.len(),
    ensures
        last_occurrence(text, pattern, from) == last_occurrence(text, pattern, fit),
    decreases from - fit,
{
    if fit < from {
        lemma_skip_beyond(text, pattern, from - 1, fit);
    }
}

} // verus!
