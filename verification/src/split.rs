//! Splitting a string at a separator.

use vstd::prelude::*;
use crate::builtins::String;
use crate::code_units::{append_range, texts, JsString};
use crate::search::{first_occurrence, lemma_first_occurrence, occurs_at};

verus! {

/// The limit that stands for "no limit".
pub const NO_LIMIT: u32 = 0xFFFF_FFFF;

/// The pieces of `text` from `start` on, at most `limit` of them: what
/// stands before each occurrence of the non-empty `separator`, the search
/// going on behind each occurrence, and at last what follows the last one.
pub open spec fn pieces(text: Seq<u16>, separator: Seq<u16>, start: int, limit: nat) -> Seq<
    Seq<u16>,
>
    decreases limit,
{
    if limit == 0 {
        Seq::empty()
    } else {
        match first_occurrence(text, separator, start) {
            None => seq![text.skip(start)],
            Some(p) => seq![text.subrange(start, p)] + pieces(
                text,
                separator,
                p + separator.len(),
                (limit - 1) as nat,
            ),
        }
    }
}

/// What `split` answers.
///
/// - With a limit of 0: nothing.
/// - Without a separator: the text, whole.
/// - With the empty separator: the code units one by one, at most `limit`.
/// - For the empty text: the empty text, once.
/// - Else the pieces between the separators.
pub open spec fn split_result(text: Seq<u16>, separator: Option<Seq<u16>>, limit: nat) -> Seq<
    Seq<u16>,
> {
    if limit == 0 {
        Seq::empty()
    } else {
        match separator {
            None => seq![text],
            Some(between) => if between.len() == 0 {
                Seq::new(
                    if text.len() <= limit {
                        text.len()
                    } else {
                        limit
                    },
                    |k: int| seq![text[k]],
                )
            } else if text.len() == 0 {
                seq![text]
            } else {
                pieces(text, between, 0, limit)
            },
        }
    }
}

/// A non-empty separator that occurs nowhere in the text leaves the text
/// in one piece, whatever the limit, as long as it is not 0.
pub proof fn lemma_split_without_separator(text: Seq<u16>, separator: Seq<u16>, limit: nat)
    requires
        separator.len() > 0,
        limit > 0,
        forall|q: int| !occurs_at(text, separator, q),
    ensures
        split_result(text, Some(separator), limit) == seq![text],
{
    lemma_first_occurrence(text, separator, 0);
    assert(text.skip(0) =~= text);
}

impl String {
    /// Splits `this` at each occurrence of `separator` and returns the
    /// pieces, at most `limit` of them. `separator` left out means that
    /// nothing separates; `limit` left out means no limit.
    pub fn split(this: &JsString, separator: Option<&JsString>, limit: Option<u32>) -> (r: Vec<
        JsString,
    >)
        ensures
            texts(r@) == split_result(
                this@,
                (match separator {
                    Some(between) => Some(between@),
                    None => None,
                }),
                (match limit {
                    Some(most) => most,
                    None => NO_LIMIT,
                }) as nat,
            ),
    {
        let most: u32 = match limit {
            Some(most) => most,
            None => NO_LIMIT,
        };
        let ghost expected = split_result(
            this@,
            (match separator {
                Some(between) => Some(between@),
                None => None,
            }),
            most as nat,
        );
        let mut substrings: Vec<JsString> = Vec::new();
        if most == 0 {
            assert(texts(substrings@) =~= expected);
            return substrings;
        }
        let between: &JsString = match separator {
            Some(between) => between,
            None => {
                substrings.push(this.clone());
                assert(texts(substrings@) =~= expected);
                return substrings;
            },
        };
        let length: usize = this.len();
        let width: usize = between.len();
        let text: &[u16] = this.as_slice();
        if width == 0 {
            let mut k: usize = 0;
            while k < length && (k as u64) < most as u64
                invariant
                    k <= length == text@.len(),
                    k <= most,
                    text@ == this@,
                    substrings@.len() == k,
                    forall|j: int| 0 <= j < k ==> (#[trigger] substrings@[j])@ == seq![this@[j]],
                decreases length - k,
            {
                let mut unit: Vec<u16> = Vec::new();
                unit.push(text[k]);
                assert(unit@ =~= seq![this@[k as int]]);
                substrings.push(JsString::from_units(unit));
                k += 1;
            }
            assert(texts(substrings@) =~= expected);
            return substrings;
        }
        if length == 0 {
            substrings.push(this.clone());
            assert(texts(substrings@) =~= expected);
            return substrings;
        }
        let mut i: usize = 0;
        let mut found: Option<usize> = this.index_of(between, 0);
        loop
            invariant
                i <= length == text@.len(),
                text@ == this@,
                0 < width == between@.len(),
                expected == pieces(this@, between@, 0, most as nat),
                expected == split_result(
                    this@,
                    (match separator {
                        Some(between) => Some(between@),
                        None => None,
                    }),
                    (match limit {
                        Some(most) => most,
                        None => NO_LIMIT,
                    }) as nat,
                ),
                substrings@.len() < most,
                match found {
                    Some(p) => first_occurrence(this@, between@, i as int) == Some(p as int),
                    None => first_occurrence(this@, between@, i as int) is None,
                },
                texts(substrings@) + pieces(
                    this@,
                    between@,
                    i as int,
                    (most - substrings@.len()) as nat,
                ) == expected,
            decreases length - i,
        {
            let ghost before = texts(substrings@);
            let ghost rest = pieces(this@, between@, i as int, (most - substrings@.len()) as nat);
            proof {
                lemma_first_occurrence(this@, between@, i as int);
            }
            match found {
                None => {
                    let mut piece: Vec<u16> = Vec::new();
                    append_range(&mut piece, text, i, length);
                    assert(piece@ =~= this@.skip(i as int));
                    substrings.push(JsString::from_units(piece));
                    assert(texts(substrings@) =~= before + rest);
                    return substrings;
                },
                Some(p) => {
                    let mut piece: Vec<u16> = Vec::new();
                    append_range(&mut piece, text, i, p);
                    substrings.push(JsString::from_units(piece));
                    let ghost after = pieces(
                        this@,
                        between@,
                        p + width,
                        (most - substrings@.len()) as nat,
                    );
                    assert(rest =~= seq![this@.subrange(i as int, p as int)] + after);
                    assert(texts(substrings@) =~= before + seq![this@.subrange(i as int, p as int)]);
                    assert(texts(substrings@) + after =~= before + rest);
                    if substrings.len() as u64 == most as u64 {
                        assert(after =~= Seq::<Seq<u16>>::empty());
                        assert(texts(substrings@) =~= texts(substrings@) + after);
                        return substrings;
                    }
                    i = p + width;
                    found = this.index_of(between, i);
                },
            }
        }
    }
}

} // verus!
