//! Replacing the first or every occurrence of a text.
//!
//! The replacement is either a template, expanded for each match, or a
//! function that is called for each match with the matched text, its
//! position and the whole string.

use vstd::prelude::*;
use crate::builtins::String;
use crate::code_units::{append_all, append_range, texts, JsString};
use crate::search::{first_occurrence, lemma_first_occurrence, occurs_at};
use crate::substitution::{context_of, expand, get_substitution, MatchContext, NamedCapture};

verus! {

/// How far the search moves on after a match: by the length of the pattern,
/// and by one where the pattern is empty.
pub open spec fn advance(pattern: Seq<u16>) -> int {
    if pattern.len() == 0 {
        1
    } else {
        pattern.len() as int
    }
}

/// The occurrences of `pattern` in `text` at or after `from` that do not
/// overlap, found from left to right. The empty pattern occurs at every
/// index up to and including the length of the text.
pub open spec fn match_positions(text: Seq<u16>, pattern: Seq<u16>, from: int) -> Seq<int>
    decreases text.len() - from + 1,
{
    if from < 0 || from + pattern.len() > text.len() {
        Seq::empty()
    } else if occurs_at(text, pattern, from) {
        seq![from] + match_positions(text, pattern, from + advance(pattern))
    } else {
        match_positions(text, pattern, from + 1)
    }
}

/// The text of `text` in which, from match `k` on, each match at
/// `positions[i]`, `width` code units long, is replaced by
/// `replacements[i]`. What stands between the matches and after the last
/// one is kept.
pub open spec fn spliced(
    text: Seq<u16>,
    width: int,
    positions: Seq<int>,
    replacements: Seq<Seq<u16>>,
    k: int,
) -> Seq<u16>
    decreases positions.len() - k,
{
    let done = if k <= 0 {
        0
    } else {
        positions[k - 1] + width
    };
    if k < 0 || k >= positions.len() {
        text.skip(done)
    } else {
        text.subrange(done, positions[k]) + replacements[k] + spliced(
            text,
            width,
            positions,
            replacements,
            k + 1,
        )
    }
}

/// A match of a plain text: no groups, numbered or named.
pub open spec fn text_match(matched: Seq<u16>, source: Seq<u16>, position: int) -> MatchContext {
    context_of(matched, source, position, Seq::empty(), None)
}

/// `text` with its first occurrence of `pattern` replaced by the expansion
/// of `template`; `text` itself where `pattern` does not occur.
pub open spec fn replace_first(text: Seq<u16>, pattern: Seq<u16>, template: Seq<u16>) -> Seq<u16> {
    match first_occurrence(text, pattern, 0) {
        None => text,
        Some(p) => text.take(p) + expand(text_match(pattern, text, p), template) + text.skip(
            p + pattern.len(),
        ),
    }
}

/// The expansions of `template` for the matches at `positions`.
pub open spec fn expansions(
    text: Seq<u16>,
    pattern: Seq<u16>,
    template: Seq<u16>,
    positions: Seq<int>,
) -> Seq<Seq<u16>> {
    Seq::new(positions.len(), |k: int| expand(text_match(pattern, text, positions[k]), template))
}

/// `text` with every occurrence of `pattern` replaced by the expansion of
/// `template` for that occurrence.
pub open spec fn replace_every(text: Seq<u16>, pattern: Seq<u16>, template: Seq<u16>) -> Seq<u16> {
    let positions = match_positions(text, pattern, 0);
    spliced(text, pattern.len() as int, positions, expansions(text, pattern, template, positions), 0)
}

/// The search for the next match after one at `from - advance` finds either
/// nothing, and then no further match exists, or the first of the matches
/// that remain.
pub proof fn lemma_match_positions_step(text: Seq<u16>, pattern: Seq<u16>, from: int)
    requires
        0 <= from,
    ensures
        match first_occurrence(text, pattern, from) {
            None => match_positions(text, pattern, from) == Seq::<int>::empty(),
            Some(p) => match_positions(text, pattern, from) == seq![p] + match_positions(
                text,
                pattern,
                p + advance(pattern),
            ),
        },
    decreases text.len() - from + 1,
{
    if from + pattern.len() <= text.len() && !occurs_at(text, pattern, from) {
        lemma_match_positions_step(text, pattern, from + 1);
    }
}

/// Every match lies inside the text, at or after `from`, and begins where
/// the one before it has ended or later.
pub proof fn lemma_match_positions_spaced(text: Seq<u16>, pattern: Seq<u16>, from: int)
    requires
        0 <= from,
    ensures
        forall|k: int|
            0 <= k < match_positions(text, pattern, from).len() ==> {
                &&& from <= #[trigger] match_positions(text, pattern, from)[k]
                &&& occurs_at(text, pattern, match_positions(text, pattern, from)[k])
            },
        forall|k: int|
            0 < k < match_positions(text, pattern, from).len() ==> match_positions(
                text,
                pattern,
                from,
            )[k - 1] + advance(pattern) <= #[trigger] match_positions(text, pattern, from)[k],
    decreases text.len() - from + 1,
{
    let all = match_positions(text, pattern, from);
    if from + pattern.len() <= text.len() {
        if occurs_at(text, pattern, from) {
            let rest = match_positions(text, pattern, from + advance(pattern));
            lemma_match_positions_spaced(text, pattern, from + advance(pattern));
            assert(all =~= seq![from] + rest);
            assert(all[0] == from);
            assert forall|k: int| 0 <= k < all.len() implies from <= #[trigger] all[k] && occurs_at(
                text,
                pattern,
                all[k],
            ) by {
                if k > 0 {
                    assert(all[k] == rest[k - 1]);
                    assert(from + advance(pattern) <= rest[k - 1]);
                }
            }
            assert forall|k: int| 0 < k < all.len() implies all[k - 1] + advance(pattern)
                <= #[trigger] all[k] by {
                assert(all[k] == rest[k - 1]);
                assert(from + advance(pattern) <= rest[k - 1]);
                if k > 1 {
                    assert(all[k - 1] == rest[k - 2]);
                    assert(rest[k - 2] + advance(pattern) <= rest[k - 1]);
                }
            }
        } else {
            let rest = match_positions(text, pattern, from + 1);
            lemma_match_positions_spaced(text, pattern, from + 1);
            assert(all == rest);
            assert forall|k: int| 0 <= k < all.len() implies from <= #[trigger] all[k] && occurs_at(
                text,
                pattern,
                all[k],
            ) by {
                assert(from + 1 <= rest[k]);
            }
        }
    } else {
        assert(all =~= Seq::<int>::empty());
    }
}

impl JsString {
    /// Where `search` occurs in this string: the first occurrence, then the
    /// first one that begins after the end of the one before, and so on. For
    /// the empty `search`, every index from 0 to the length.
    pub fn match_positions(&self, search: &JsString) -> (r: Vec<usize>)
        ensures
            r@.len() == match_positions(self@, search@, 0).len(),
            forall|k: int| 0 <= k < r@.len() ==> r@[k] == match_positions(self@, search@, 0)[k],
    {
        let length: usize = self.len();
        let width: usize = search.len();
        let step: usize = if width == 0 {
            1
        } else {
            width
        };
        let ghost all = match_positions(self@, search@, 0);
        let mut positions: Vec<usize> = Vec::new();
        let mut found: Option<usize> = self.index_of(search, 0);
        let ghost mut from: int = 0;
        loop
            invariant
                length == self@.len(),
                width == search@.len(),
                step == advance(search@),
                all == match_positions(self@, search@, 0),
                0 <= from,
                match found {
                    Some(p) => first_occurrence(self@, search@, from) == Some(p as int),
                    None => first_occurrence(self@, search@, from) is None,
                },
                positions@.len() + match_positions(self@, search@, from).len() == all.len(),
                forall|k: int| 0 <= k < positions@.len() ==> positions@[k] == all[k],
                forall|k: int|
                    0 <= k < match_positions(self@, search@, from).len() ==> match_positions(
                        self@,
                        search@,
                        from,
                    )[k] == all[positions@.len() + k],
            decreases length + 1 - from,
        {
            proof {
                lemma_match_positions_step(self@, search@, from);
                lemma_first_occurrence(self@, search@, from);
            }
            match found {
                None => {
                    return positions;
                },
                Some(p) => {
                    let ghost remaining = match_positions(self@, search@, from);
                    let ghost next = match_positions(self@, search@, p + step);
                    assert(remaining =~= seq![p as int] + next);
                    assert(remaining[0] == p);
                    positions.push(p);
                    assert forall|k: int| 0 <= k < next.len() implies next[k] == all[positions@.len()
                        + k] by {
                        assert(next[k] == remaining[k + 1]);
                    }
                    proof {
                        from = p + step;
                    }
                    if step > length - p {
                        assert(first_occurrence(self@, search@, from) is None);
                        found = None;
                    } else {
                        found = self.index_of(search, p + step);
                    }
                },
            }
        }
    }
}

/// Replaces the matches at `positions` in `string`, each `width` long, by
/// the texts in `replacements`.
fn splice(string: &JsString, width: usize, positions: &Vec<usize>, replacements: &Vec<JsString>) -> (r:
    JsString)
    requires
        positions@.len() == replacements@.len(),
        forall|k: int| 0 <= k < positions@.len() ==> #[trigger] positions@[k] + width <= string@.len(),
        forall|k: int|
            0 < k < positions@.len() ==> positions@[k - 1] + width <= #[trigger] positions@[k],
    ensures
        r@ == spliced(
            string@,
            width as int,
            positions@.map_values(|p: usize| p as int),
            texts(replacements@),
            0,
        ),
{
    let ghost places = positions@.map_values(|p: usize| p as int);
    let ghost answers = texts(replacements@);
    let text: &[u16] = string.as_slice();
    let length: usize = text.len();
    let mut out: Vec<u16> = Vec::new();
    let mut done: usize = 0;
    let mut k: usize = 0;
    assert(out@ + spliced(string@, width as int, places, answers, 0) =~= spliced(
        string@,
        width as int,
        places,
        answers,
        0,
    ));
    while k < positions.len()
        invariant
            k <= positions@.len() == replacements@.len(),
            places == positions@.map_values(|p: usize| p as int),
            answers == texts(replacements@),
            text@ == string@,
            length == text@.len(),
            forall|i: int|
                0 <= i < positions@.len() ==> #[trigger] positions@[i] + width <= string@.len(),
            forall|i: int|
                0 < i < positions@.len() ==> positions@[i - 1] + width <= #[trigger] positions@[i],
            done == (if k == 0 {
                0
            } else {
                positions@[k - 1] + width
            }),
            done <= length,
            out@ + spliced(string@, width as int, places, answers, k as int) == spliced(
                string@,
                width as int,
                places,
                answers,
                0,
            ),
        decreases positions@.len() - k,
    {
        let p: usize = positions[k];
        let ghost before = out@;
        assert(places[k as int] == p);
        assert(answers[k as int] == replacements@[k as int]@);
        if k > 0 {
            assert(places[k - 1] == positions@[k - 1]);
        }
        append_range(&mut out, text, done, p);
        append_all(&mut out, replacements[k].as_slice());
        assert(out@ + spliced(string@, width as int, places, answers, k + 1) =~= before + spliced(
            string@,
            width as int,
            places,
            answers,
            k as int,
        ));
        done = p + width;
        k += 1;
    }
    if k > 0 {
        assert(places[k - 1] == positions@[k - 1]);
    }
    append_range(&mut out, text, done, length);
    assert(string@.subrange(done as int, length as int) =~= string@.skip(done as int));
    JsString::from_units(out)
}

impl String {
    /// Replaces the first occurrence of `search_value` in `this` by the
    /// expansion of the template `replace_value`. Where `search_value` does
    /// not occur, the result is `this`.
    pub fn replace(this: &JsString, search_value: &JsString, replace_value: &JsString) -> (r:
        JsString)
        ensures
            r@ == replace_first(this@, search_value@, replace_value@),
    {
        let position: usize = match this.index_of(search_value, 0) {
            Some(p) => p,
            None => {
                return this.clone();
            },
        };
        let captures: Vec<Option<JsString>> = Vec::new();
        let named: Option<&[NamedCapture]> = None;
        let replacement: JsString = get_substitution(
            search_value,
            this,
            position,
            captures.as_slice(),
            named,
            replace_value,
        );
        let length: usize = this.len();
        let mut out: Vec<u16> = Vec::new();
        append_range(&mut out, this.as_slice(), 0, position);
        append_all(&mut out, replacement.as_slice());
        append_range(&mut out, this.as_slice(), position + search_value.len(), length);
        proof {
            assert(captures@ =~= Seq::<Option<JsString>>::empty());
            assert(this@.subrange(0, position as int) =~= this@.take(position as int));
            assert(this@.subrange(position + search_value@.len(), this@.len() as int) =~= this@.skip(
                position + search_value@.len(),
            ));
        }
        JsString::from_units(out)
    }

    /// Replaces the first occurrence of `search_value` in `this` by what
    /// `replacer` returns for it. `replacer` is called once, with the
    /// searched text, the position of the match and `this`, and not at all
    /// where there is no match. Its failure is handed on.
    pub fn replace_with<F, E>(this: &JsString, search_value: &JsString, replacer: F) -> (r: Result<
        JsString,
        E,
    >) where F: FnOnce(&JsString, usize, &JsString) -> Result<JsString, E>
        requires
            forall|p: usize| p <= this@.len() ==> call_requires(replacer, (search_value, p, this)),
        ensures
            match first_occurrence(this@, search_value@, 0) {
                None => r matches Ok(text) && text@ == this@,
                Some(p) => match r {
                    Ok(text) => exists|answer: JsString|
                        {
                            &&& #[trigger] call_ensures(
                                replacer,
                                (search_value, p as usize, this),
                                Ok::<JsString, E>(answer),
                            )
                            &&& text@ == this@.take(p) + answer@ + this@.skip(
                                p + search_value@.len(),
                            )
                        },
                    Err(error) => call_ensures(
                        replacer,
                        (search_value, p as usize, this),
                        Err::<JsString, E>(error),
                    ),
                },
            },
    {
        let position: usize = match this.index_of(search_value, 0) {
            Some(p) => p,
            None => {
                return Ok(this.clone());
            },
        };
        let replacement: JsString = match replacer(search_value, position, this) {
            Ok(text) => text,
            Err(error) => {
                return Err(error);
            },
        };
        let length: usize = this.len();
        let mut out: Vec<u16> = Vec::new();
        append_range(&mut out, this.as_slice(), 0, position);
        append_all(&mut out, replacement.as_slice());
        append_range(&mut out, this.as_slice(), position + search_value.len(), length);
        proof {
            assert(this@.subrange(0, position as int) =~= this@.take(position as int));
            assert(this@.subrange(position + search_value@.len(), this@.len() as int) =~= this@.skip(
                position + search_value@.len(),
            ));
        }
        Ok(JsString::from_units(out))
    }

    /// Replaces every occurrence of `search_value` in `this` by the expansion
    /// of the template `replace_value` for that occurrence. The occurrences
    /// do not overlap and are found from left to right; the empty text
    /// occurs before every code unit and at the end.
    pub fn replace_all(this: &JsString, search_value: &JsString, replace_value: &JsString) -> (r:
        JsString)
        ensures
            r@ == replace_every(this@, search_value@, replace_value@),
    {
        let positions: Vec<usize> = this.match_positions(search_value);
        let ghost places = match_positions(this@, search_value@, 0);
        let captures: Vec<Option<JsString>> = Vec::new();
        let named: Option<&[NamedCapture]> = None;
        let mut replacements: Vec<JsString> = Vec::new();
        let mut k: usize = 0;
        proof {
            lemma_match_positions_spaced(this@, search_value@, 0);
            assert(captures@ =~= Seq::<Option<JsString>>::empty());
        }
        while k < positions.len()
            invariant
                k <= positions@.len() == places.len(),
                places == match_positions(this@, search_value@, 0),
                forall|i: int| 0 <= i < positions@.len() ==> positions@[i] == places[i],
                forall|i: int|
                    0 <= i < places.len() ==> occurs_at(this@, search_value@, #[trigger] places[i]),
                captures@ == Seq::<Option<JsString>>::empty(),
                named is None,
                replacements@.len() == k,
                forall|i: int|
                    0 <= i < k ==> (#[trigger] replacements@[i])@ == expand(
                        text_match(search_value@, this@, places[i]),
                        replace_value@,
                    ),
            decreases positions@.len() - k,
        {
            let p: usize = positions[k];
            assert(occurs_at(this@, search_value@, places[k as int]));
            let replacement: JsString = get_substitution(
                search_value,
                this,
                p,
                captures.as_slice(),
                named,
                replace_value,
            );
            replacements.push(replacement);
            k += 1;
        }
        proof {
            assert(positions@.map_values(|p: usize| p as int) =~= places);
            assert(texts(replacements@) =~= expansions(
                this@,
                search_value@,
                replace_value@,
                places,
            ));
            assert forall|i: int| 0 <= i < positions@.len() implies #[trigger] positions@[i]
                + search_value@.len() <= this@.len() by {
                assert(occurs_at(this@, search_value@, places[i]));
            }
            assert forall|i: int| 0 < i < positions@.len() implies positions@[i - 1]
                + search_value@.len() <= #[trigger] positions@[i] by {
                assert(places[i - 1] + advance(search_value@) <= places[i]);
            }
        }
        splice(this, search_value.len(), &positions, &replacements)
    }

    /// Replaces every occurrence of `search_value` in `this` by what
    /// `replacer` returns for it. `replacer` is called for the occurrences
    /// from left to right, with the searched text, the position of the match
    /// and `this`. The first failure ends the work and is handed on.
    pub fn replace_all_with<F, E>(this: &JsString, search_value: &JsString, replacer: F) -> (r:
        Result<JsString, E>) where F: Fn(&JsString, usize, &JsString) -> Result<JsString, E>
        requires
            forall|p: usize| p <= this@.len() ==> call_requires(replacer, (search_value, p, this)),
        ensures
            match r {
                Ok(text) => exists|answers: Seq<JsString>|
                    {
                        &&& answers.len() == match_positions(this@, search_value@, 0).len()
                        &&& forall|k: int|
                            0 <= k < answers.len() ==> call_ensures(
                                replacer,
                                (
                                    search_value,
                                    match_positions(this@, search_value@, 0)[k] as usize,
                                    this,
                                ),
                                Ok::<JsString, E>(#[trigger] answers[k]),
                            )
                        &&& text@ == spliced(
                            this@,
                            search_value@.len() as int,
                            match_positions(this@, search_value@, 0),
                            #[trigger] texts(answers),
                            0,
                        )
                    },
                Err(error) => exists|answers: Seq<JsString>|
                    {
                        &&& answers.len() < match_positions(this@, search_value@, 0).len()
                        &&& forall|k: int|
                            0 <= k < answers.len() ==> call_ensures(
                                replacer,
                                (
                                    search_value,
                                    match_positions(this@, search_value@, 0)[k] as usize,
                                    this,
                                ),
                                Ok::<JsString, E>(#[trigger] answers[k]),
                            )
                        &&& call_ensures(
                            replacer,
                            (
                                search_value,
                                match_positions(this@, search_value@, 0)[answers.len() as int] as usize,
                                this,
                            ),
                            Err::<JsString, E>(error),
                        )
                    },
            },
    {
        let positions: Vec<usize> = this.match_positions(search_value);
        let ghost places = match_positions(this@, search_value@, 0);
        let mut replacements: Vec<JsString> = Vec::new();
        let mut k: usize = 0;
        proof {
            lemma_match_positions_spaced(this@, search_value@, 0);
        }
        while k < positions.len()
            invariant
                k <= positions@.len() == places.len(),
                places == match_positions(this@, search_value@, 0),
                forall|i: int| 0 <= i < positions@.len() ==> positions@[i] == places[i],
                forall|i: int|
                    0 <= i < places.len() ==> occurs_at(this@, search_value@, #[trigger] places[i]),
                forall|p: usize|
                    p <= this@.len() ==> call_requires(replacer, (search_value, p, this)),
                replacements@.len() == k,
                forall|i: int|
                    0 <= i < k ==> call_ensures(
                        replacer,
                        (search_value, places[i] as usize, this),
                        Ok::<JsString, E>(#[trigger] replacements@[i]),
                    ),
            decreases positions@.len() - k,
        {
            let p: usize = positions[k];
            assert(occurs_at(this@, search_value@, places[k as int]));
            match replacer(search_value, p, this) {
                Ok(text) => {
                    replacements.push(text);
                },
                Err(error) => {
                    assert(places[k as int] as usize == p);
                    return Err(error);
                },
            }
            k += 1;
        }
        proof {
            assert(positions@.map_values(|p: usize| p as int) =~= places);
            assert forall|i: int| 0 <= i < positions@.len() implies #[trigger] positions@[i]
                + search_value@.len() <= this@.len() by {
                assert(occurs_at(this@, search_value@, places[i]));
            }
            assert forall|i: int| 0 < i < positions@.len() implies positions@[i - 1]
                + search_value@.len() <= #[trigger] positions@[i] by {
                assert(places[i - 1] + advance(search_value@) <= places[i]);
            }
        }
        let text: JsString = splice(this, search_value.len(), &positions, &replacements);
        proof {
            let answers = replacements@;
            assert(text@ == spliced(
                this@,
                search_value@.len() as int,
                places,
                texts(answers),
                0,
            ));
        }
        Ok(text)
    }
}

} // verus!
