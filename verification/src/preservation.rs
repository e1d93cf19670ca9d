//! What cutting a string into runs and joining them again keeps, and what
//! a conversion run by run keeps.
//!
//! Two of the statements assume of the conversion what the contracts of the
//! outside algorithms do not say: that it turns no run but the empty one
//! into the empty text, and that converting twice gives what converting
//! once gives.

use vstd::prelude::*;
use crate::code_point::{
    decode, encode_char, encode_chars, encode_code_points, first_code_point,
    lemma_decode_round_trip, lemma_encode_chars_concat, lemma_encode_code_points_concat,
    CodePoint,
};
use crate::code_units::{is_high_surrogate, is_low_surrogate, is_surrogate};
use crate::convert::{
    convert_units, converted_runs, joined, leading_run, lemma_leading_run_ends,
    lemma_lone_surrogates_after_run, lone_surrogates, runs_of, Conversion,
};

verus! {

/// The characters of `text` as code points.
pub open spec fn scalars(text: Seq<char>) -> Seq<CodePoint>
    decreases text.len(),
{
    if text.len() == 0 {
        Seq::empty()
    } else {
        scalars(text.drop_last()).push(CodePoint::Scalar(text.last()))
    }
}

/// Whether `point` is a high surrogate without a partner.
pub open spec fn is_lone_high(point: CodePoint) -> bool {
    match point {
        CodePoint::UnpairedSurrogate(unit) => is_high_surrogate(unit),
        CodePoint::Scalar(_) => false,
    }
}

/// Whether `point` is a low surrogate without a partner.
pub open spec fn is_lone_low(point: CodePoint) -> bool {
    match point {
        CodePoint::UnpairedSurrogate(unit) => is_low_surrogate(unit),
        CodePoint::Scalar(_) => false,
    }
}

/// Whether `points` can come out of decoding: each lone surrogate is a
/// surrogate, and no lone high surrogate stands directly before a lone low
/// one, since decoding would have paired the two.
pub open spec fn well_decoded(points: Seq<CodePoint>) -> bool {
    &&& forall|k: int| 0 <= k < points.len() ==> (#[trigger] points[k]).wf()
    &&& forall|k: int|
        0 <= k < points.len() - 1 ==> !(is_lone_high(#[trigger] points[k]) && is_lone_low(
            points[k + 1],
        ))
}

/// Whether joining `runs` with `surrogates` between them can be undone by
/// decoding: there is one run more than there are surrogates, each
/// surrogate is one, and no high surrogate is parted from a low one by an
/// empty run only.
pub open spec fn well_separated(runs: Seq<Seq<char>>, surrogates: Seq<u16>) -> bool {
    &&& runs.len() == surrogates.len() + 1
    &&& forall|k: int| 0 <= k < surrogates.len() ==> is_surrogate(#[trigger] surrogates[k])
    &&& forall|k: int|
        0 <= k < surrogates.len() - 1 ==> !(is_high_surrogate(#[trigger] surrogates[k])
            && runs[k + 1].len() == 0 && is_low_surrogate(surrogates[k + 1]))
}

/// Whether the conversion `kind` turns only the empty run into the empty
/// text.
pub open spec fn keeps_runs(kind: Conversion) -> bool {
    forall|run: Seq<char>| run.len() > 0 ==> (#[trigger] kind.of(run)).len() > 0
}

/// Whether converting a converted run changes nothing more.
pub open spec fn idempotent(kind: Conversion) -> bool {
    forall|run: Seq<char>| kind.of(#[trigger] kind.of(run)) == kind.of(run)
}

/// A character is a code point that is no surrogate.
pub proof fn lemma_char_range(c: char)
    ensures
        0 <= c as int <= 0xD7FF || 0xE000 <= c as int <= 0x10FFFF,
        c as u32 == c as int,
{
}

/// `scalars` keeps the length and the places.
pub proof fn lemma_scalars(text: Seq<char>)
    ensures
        scalars(text).len() == text.len(),
        forall|k: int|
            0 <= k < text.len() ==> #[trigger] scalars(text)[k] == CodePoint::Scalar(text[k]),
    decreases text.len(),
{
    if text.len() > 0 {
        lemma_scalars(text.drop_last());
        lemma_char_range(text.last());
    }
}

/// The encoding of a text of one character is the encoding of the
/// character.
pub proof fn lemma_encode_single(c: char)
    ensures
        encode_chars(seq![c]) == encode_char(c),
{
    let single = seq![c];
    assert(single.len() == 1 && single.last() == c);
    assert(single.drop_last() =~= Seq::<char>::empty());
    assert(encode_chars(single.drop_last()) =~= Seq::<u16>::empty());
    assert(encode_chars(single) =~= encode_char(c));
}

/// The encoding of one code point alone is its own encoding.
pub proof fn lemma_encode_single_point(point: CodePoint)
    ensures
        encode_code_points(seq![point]) == point.encoded(),
{
    let single = seq![point];
    assert(single.len() == 1 && single.last() == point);
    assert(single.drop_last() =~= Seq::<CodePoint>::empty());
    assert(encode_code_points(single.drop_last()) =~= Seq::<u16>::empty());
    assert(encode_code_points(single) =~= point.encoded());
}

/// Encoding characters as code points is encoding them as characters.
pub proof fn lemma_encode_scalars(text: Seq<char>)
    ensures
        encode_code_points(scalars(text)) == encode_chars(text),
    decreases text.len(),
{
    if text.len() > 0 {
        lemma_encode_scalars(text.drop_last());
        lemma_scalars(text);
        lemma_scalars(text.drop_last());
        assert(scalars(text).drop_last() =~= scalars(text.drop_last()));
        assert(scalars(text).last() == CodePoint::Scalar(text.last()));
    }
}

/// The encoding of one character decodes to that character, whatever
/// follows it.
pub proof fn lemma_decode_char(c: char, more: Seq<u16>)
    ensures
        decode(encode_char(c) + more) == seq![CodePoint::Scalar(c)] + decode(more),
{
    let units = encode_char(c) + more;
    let first = first_code_point(units);
    assert(units[0] == encode_char(c)[0]);
    if c as u32 >= 0x10000 {
        assert(units[1] == encode_char(c)[1]);
    }
    assert(first == CodePoint::Scalar(c));
    assert(units.skip(first.unit_count() as int) =~= more);
}

/// The encoding of a text decodes to its characters, whatever follows it.
pub proof fn lemma_decode_chars(text: Seq<char>, more: Seq<u16>)
    ensures
        decode(encode_chars(text) + more) == scalars(text) + decode(more),
    decreases text.len(),
{
    lemma_scalars(text);
    if text.len() == 0 {
        assert(encode_chars(text) + more =~= more);
        assert(scalars(text) + decode(more) =~= decode(more));
    } else {
        let c = text[0];
        let tail = text.skip(1);
        let single = seq![c];
        lemma_char_range(c);
        lemma_scalars(tail);
        assert(text =~= single + tail);
        lemma_encode_chars_concat(single, tail);
        lemma_encode_single(c);
        assert(encode_chars(text) + more =~= encode_char(c) + (encode_chars(tail) + more));
        lemma_decode_char(c, encode_chars(tail) + more);
        lemma_decode_chars(tail, more);
        assert(scalars(text) =~= seq![CodePoint::Scalar(c)] + scalars(tail));
        assert(scalars(text) + decode(more) =~= seq![CodePoint::Scalar(c)] + (scalars(tail)
            + decode(more)));
    }
}

/// A surrogate decodes to itself unless it is a high one before a low one.
pub proof fn lemma_decode_lone(unit: u16, more: Seq<u16>)
    requires
        is_surrogate(unit),
        !(is_high_surrogate(unit) && more.len() > 0 && is_low_surrogate(more[0])),
    ensures
        decode(seq![unit] + more) == seq![CodePoint::UnpairedSurrogate(unit)] + decode(more),
{
    let units = seq![unit] + more;
    assert(units[0] == unit);
    if more.len() > 0 {
        assert(units[1] == more[0]);
    }
    assert(units.skip(1) =~= more);
}

/// What decoding yields is well decoded.
pub proof fn lemma_decode_well_decoded(units: Seq<u16>)
    ensures
        well_decoded(decode(units)),
    decreases units.len(),
{
    if units.len() > 0 {
        let first = first_code_point(units);
        let rest = units.skip(first.unit_count() as int);
        let points = decode(units);
        lemma_decode_well_decoded(rest);
        assert(points =~= seq![first] + decode(rest));
        assert forall|k: int| 0 <= k < points.len() implies (#[trigger] points[k]).wf() by {
            if k > 0 {
                assert(points[k] == decode(rest)[k - 1]);
            }
        }
        assert forall|k: int| 0 <= k < points.len() - 1 implies !(is_lone_high(
            #[trigger] points[k],
        ) && is_lone_low(points[k + 1])) by {
            if k > 0 {
                assert(points[k] == decode(rest)[k - 1]);
                assert(points[k + 1] == decode(rest)[k]);
            } else {
                assert(points[1] == decode(rest)[0]);
                if is_lone_high(first) {
                    assert(rest =~= units.skip(1));
                    if rest.len() > 0 {
                        assert(rest[0] == units[1]);
                        assert(decode(rest)[0] == first_code_point(rest));
                    }
                }
            }
        }
    }
}

/// A part of a well decoded sequence from some index on is well decoded.
pub proof fn lemma_well_decoded_skip(points: Seq<CodePoint>, n: int)
    requires
        well_decoded(points),
        0 <= n <= points.len(),
    ensures
        well_decoded(points.skip(n)),
{
    let rest = points.skip(n);
    assert forall|k: int| 0 <= k < rest.len() implies (#[trigger] rest[k]).wf() by {
        assert(rest[k] == points[k + n]);
    }
    assert forall|k: int| 0 <= k < rest.len() - 1 implies !(is_lone_high(#[trigger] rest[k])
        && is_lone_low(rest[k + 1])) by {
        assert(rest[k] == points[k + n]);
        assert(rest[k + 1] == points[k + n + 1]);
    }
}

/// The first code unit of an encoded text is no low surrogate.
pub proof fn lemma_encoded_start(text: Seq<char>)
    requires
        text.len() > 0,
    ensures
        encode_chars(text).len() > 0,
        !is_low_surrogate(encode_chars(text)[0]),
{
    let single = seq![text[0]];
    let tail = text.skip(1);
    lemma_char_range(text[0]);
    assert(text =~= single + tail);
    lemma_encode_chars_concat(single, tail);
    lemma_encode_single(text[0]);
    assert(encode_chars(text)[0] == encode_char(text[0])[0]);
}

/// The lone surrogates of a concatenation.
pub proof fn lemma_lone_surrogates_concat(a: Seq<CodePoint>, b: Seq<CodePoint>)
    ensures
        lone_surrogates(a + b) == lone_surrogates(a) + lone_surrogates(b),
    decreases a.len(),
{
    if a.len() == 0 {
        assert(a + b =~= b);
        assert(lone_surrogates(a) + lone_surrogates(b) =~= lone_surrogates(b));
    } else {
        lemma_lone_surrogates_concat(a.skip(1), b);
        assert((a + b).skip(1) =~= a.skip(1) + b);
        assert((a + b)[0] == a[0]);
        assert(lone_surrogates(a + b) =~= lone_surrogates(a) + lone_surrogates(b));
    }
}

/// Characters hold no lone surrogate.
pub proof fn lemma_lone_surrogates_scalars(text: Seq<char>)
    ensures
        lone_surrogates(scalars(text)) == Seq::<u16>::empty(),
    decreases text.len(),
{
    lemma_scalars(text);
    if text.len() > 0 {
        lemma_lone_surrogates_scalars(text.skip(1));
        lemma_scalars(text.skip(1));
        assert(scalars(text).skip(1) =~= scalars(text.skip(1)));
        assert(scalars(text)[0] == CodePoint::Scalar(text[0]));
    }
}

/// The first run of characters followed by a lone surrogate or by nothing.
pub proof fn lemma_leading_run_of(text: Seq<char>, rest: Seq<CodePoint>)
    requires
        rest.len() == 0 || rest[0] is UnpairedSurrogate,
    ensures
        leading_run(scalars(text) + rest) == text,
    decreases text.len(),
{
    let points = scalars(text) + rest;
    lemma_scalars(text);
    if text.len() == 0 {
        assert(points =~= rest);
        assert(leading_run(points) =~= text);
    } else {
        lemma_leading_run_of(text.skip(1), rest);
        lemma_scalars(text.skip(1));
        lemma_char_range(text[0]);
        assert(points[0] == scalars(text)[0]);
        assert(points[0] == CodePoint::Scalar(text[0]));
        assert(points.skip(1) =~= scalars(text.skip(1)) + rest);
        assert(leading_run(points) =~= text);
    }
}

/// Code points are their first run of characters and what stands behind it.
pub proof fn lemma_points_split(points: Seq<CodePoint>)
    ensures
        points == scalars(leading_run(points)) + points.skip(leading_run(points).len() as int),
{
    let run = leading_run(points);
    lemma_leading_run_ends(points);
    lemma_scalars(run);
    assert(points =~= scalars(run) + points.skip(run.len() as int));
}

/// Where joined runs begin with a low surrogate, the first run is empty and
/// that surrogate is the first of the surrogates.
pub proof fn lemma_joined_start(runs: Seq<Seq<char>>, surrogates: Seq<u16>)
    requires
        runs.len() == surrogates.len() + 1,
    ensures
        joined(runs, surrogates).len() > 0 && is_low_surrogate(joined(runs, surrogates)[0]) ==> {
            &&& runs[0].len() == 0
            &&& surrogates.len() > 0
            &&& joined(runs, surrogates)[0] == surrogates[0]
        },
{
    let out = joined(runs, surrogates);
    if runs[0].len() > 0 {
        lemma_encoded_start(runs[0]);
        assert(out[0] == encode_chars(runs[0])[0]);
    } else {
        assert(encode_chars(runs[0]) =~= Seq::<u16>::empty());
        if surrogates.len() > 0 {
            assert(out[0] == surrogates[0]);
        }
    }
}

/// The runs and the lone surrogates of code points, joined, are the
/// encoding of the code points.
pub proof fn lemma_joined_encodes(points: Seq<CodePoint>)
    ensures
        runs_of(points).len() == lone_surrogates(points).len() + 1,
        joined(runs_of(points), lone_surrogates(points)) == encode_code_points(points),
    decreases points.len(),
{
    let run = leading_run(points);
    let n = run.len() as int;
    lemma_leading_run_ends(points);
    lemma_lone_surrogates_after_run(points);
    lemma_points_split(points);
    lemma_encode_scalars(run);
    lemma_scalars(run);
    if n >= points.len() {
        assert(points.skip(n) =~= Seq::<CodePoint>::empty());
        assert(points =~= scalars(run));
        assert(lone_surrogates(points.skip(n)) =~= Seq::<u16>::empty());
    } else {
        let behind = points.skip(n);
        let rest = points.skip(n + 1);
        let lone = points[n];
        let unit = lone->UnpairedSurrogate_0;
        lemma_joined_encodes(rest);
        assert(behind[0] == lone);
        assert(behind.skip(1) =~= rest);
        assert(behind =~= seq![lone] + rest);
        assert(lone_surrogates(points) =~= seq![unit] + lone_surrogates(rest));
        let runs = runs_of(points);
        let found = lone_surrogates(points);
        assert(runs =~= seq![run] + runs_of(rest));
        assert(runs[0] == run);
        assert(runs.skip(1) =~= runs_of(rest));
        assert(found[0] == unit);
        assert(found.skip(1) =~= lone_surrogates(rest));
        lemma_encode_single_point(lone);
        lemma_encode_code_points_concat(seq![lone], rest);
        lemma_encode_code_points_concat(scalars(run), behind);
        assert(joined(runs, found) =~= encode_chars(run) + (seq![unit] + encode_code_points(
            rest,
        )));
    }
}

/// Cutting a string into its runs and lone surrogates and joining them
/// again, each run encoded and each surrogate as it is, gives the string
/// back, whatever it holds.
pub proof fn lemma_join_runs(units: Seq<u16>)
    ensures
        joined(runs_of(decode(units)), lone_surrogates(decode(units))) == units,
{
    lemma_joined_encodes(decode(units));
    lemma_decode_round_trip(units);
}

/// The runs and lone surrogates of well decoded code points are well
/// separated.
pub proof fn lemma_runs_well_separated(points: Seq<CodePoint>)
    requires
        well_decoded(points),
    ensures
        well_separated(runs_of(points), lone_surrogates(points)),
        lone_surrogates(points).len() > 0 && leading_run(points).len() == 0 ==> points.len() > 0
            && points[0] == CodePoint::UnpairedSurrogate(lone_surrogates(points)[0]),
    decreases points.len(),
{
    let run = leading_run(points);
    let n = run.len() as int;
    let runs = runs_of(points);
    let found = lone_surrogates(points);
    lemma_leading_run_ends(points);
    lemma_lone_surrogates_after_run(points);
    if n >= points.len() {
        assert(points.skip(n) =~= Seq::<CodePoint>::empty());
        assert(found =~= Seq::<u16>::empty());
    } else {
        let behind = points.skip(n);
        let rest = points.skip(n + 1);
        let lone = points[n];
        let unit = lone->UnpairedSurrogate_0;
        lemma_well_decoded_skip(points, n + 1);
        lemma_runs_well_separated(rest);
        lemma_leading_run_ends(rest);
        let later_runs = runs_of(rest);
        let later = lone_surrogates(rest);
        assert(behind[0] == lone);
        assert(behind.skip(1) =~= rest);
        assert(found =~= seq![unit] + later);
        assert(runs =~= seq![run] + later_runs);
        assert(lone.wf());
        assert forall|k: int| 0 <= k < found.len() implies is_surrogate(#[trigger] found[k]) by {
            if k > 0 {
                assert(found[k] == later[k - 1]);
            }
        }
        assert forall|k: int| 0 <= k < found.len() - 1 implies !(is_high_surrogate(
            #[trigger] found[k],
        ) && runs[k + 1].len() == 0 && is_low_surrogate(found[k + 1])) by {
            assert(runs[k + 1] == later_runs[k]);
            assert(found[k + 1] == later[k]);
            if k > 0 {
                assert(found[k] == later[k - 1]);
            } else {
                assert(later_runs[0] == leading_run(rest));
                if leading_run(rest).len() == 0 {
                    assert(rest[0] == points[n + 1]);
                    assert(rest[0] == CodePoint::UnpairedSurrogate(later[0]));
                    assert(!(is_lone_high(points[n]) && is_lone_low(points[n + 1])));
                }
            }
        }
    }
}

/// Well separated runs, joined and decoded, fall into the same runs with
/// the same surrogates between them.
pub proof fn lemma_split_joined(runs: Seq<Seq<char>>, surrogates: Seq<u16>)
    requires
        well_separated(runs, surrogates),
    ensures
        runs_of(decode(joined(runs, surrogates))) == runs,
        lone_surrogates(decode(joined(runs, surrogates))) == surrogates,
    decreases runs.len(),
{
    let first = runs[0];
    let out = joined(runs, surrogates);
    lemma_scalars(first);
    lemma_lone_surrogates_scalars(first);
    if surrogates.len() == 0 {
        lemma_decode_chars(first, Seq::empty());
        assert(encode_chars(first) + Seq::<u16>::empty() =~= encode_chars(first));
        assert(scalars(first) + decode(Seq::<u16>::empty()) =~= scalars(first));
        lemma_leading_run_of(first, Seq::empty());
        assert(scalars(first) + Seq::<CodePoint>::empty() =~= scalars(first));
        assert(runs_of(scalars(first)) =~= seq![first]);
        assert(runs =~= seq![first]);
    } else {
        let unit = surrogates[0];
        let later_runs = runs.skip(1);
        let later = surrogates.skip(1);
        let behind = joined(later_runs, later);
        assert forall|k: int| 0 <= k < later.len() implies is_surrogate(#[trigger] later[k]) by {
            assert(later[k] == surrogates[k + 1]);
        }
        assert forall|k: int| 0 <= k < later.len() - 1 implies !(is_high_surrogate(
            #[trigger] later[k],
        ) && later_runs[k + 1].len() == 0 && is_low_surrogate(later[k + 1])) by {
            assert(later[k] == surrogates[k + 1]);
            assert(later[k + 1] == surrogates[k + 2]);
            assert(later_runs[k + 1] == runs[k + 2]);
        }
        lemma_split_joined(later_runs, later);
        lemma_joined_start(later_runs, later);
        if is_high_surrogate(unit) && behind.len() > 0 && is_low_surrogate(behind[0]) {
            assert(later_runs[0] == runs[1]);
            assert(later[0] == surrogates[1]);
            assert(!(is_high_surrogate(surrogates[0]) && runs[1].len() == 0 && is_low_surrogate(
                surrogates[1],
            )));
        }
        lemma_decode_lone(unit, behind);
        lemma_decode_chars(first, seq![unit] + behind);
        assert(out =~= encode_chars(first) + (seq![unit] + behind));
        let tail = seq![CodePoint::UnpairedSurrogate(unit)] + decode(behind);
        let points = scalars(first) + tail;
        assert(decode(out) == points);
        assert(tail[0] == CodePoint::UnpairedSurrogate(unit));
        lemma_leading_run_of(first, tail);
        assert(points[first.len() as int] == tail[0]);
        assert(points.skip(first.len() as int + 1) =~= decode(behind));
        assert(runs_of(points) =~= seq![first] + later_runs);
        assert(runs =~= seq![first] + later_runs);
        lemma_lone_surrogates_concat(scalars(first), tail);
        assert(tail.skip(1) =~= decode(behind));
        assert(lone_surrogates(tail) =~= seq![unit] + later);
        assert(surrogates =~= seq![unit] + later);
        assert(lone_surrogates(points) =~= surrogates);
    }
}

/// Converted runs are well separated where the runs were and the
/// conversion leaves no run empty that was not.
pub proof fn lemma_converted_well_separated(
    runs: Seq<Seq<char>>,
    surrogates: Seq<u16>,
    kind: Conversion,
)
    requires
        well_separated(runs, surrogates),
        keeps_runs(kind),
    ensures
        well_separated(converted_runs(runs, kind), surrogates),
{
    let converted = converted_runs(runs, kind);
    assert forall|k: int| 0 <= k < surrogates.len() - 1 implies !(is_high_surrogate(
        #[trigger] surrogates[k],
    ) && converted[k + 1].len() == 0 && is_low_surrogate(surrogates[k + 1])) by {
        assert(converted[k + 1] == kind.of(runs[k + 1]));
    }
}

/// An encoded run of characters holds no lone surrogate.
pub proof fn lemma_encoded_run_pairs(run: Seq<char>)
    ensures
        decode(encode_chars(run)) == scalars(run),
        lone_surrogates(decode(encode_chars(run))) == Seq::<u16>::empty(),
{
    lemma_decode_chars(run, Seq::empty());
    lemma_lone_surrogates_scalars(run);
    assert(encode_chars(run) + Seq::<u16>::empty() =~= encode_chars(run));
    assert(scalars(run) + decode(Seq::<u16>::empty()) =~= scalars(run));
}

/// A converted string holds every lone surrogate of the string, in their
/// order, each between two encoded runs of characters, however the runs
/// have changed; and an encoded run holds no lone surrogate by itself.
pub proof fn lemma_conversion_places_lone_surrogates(units: Seq<u16>, kind: Conversion)
    ensures
        exists|runs: Seq<Seq<char>>|
            {
                &&& runs.len() == lone_surrogates(decode(units)).len() + 1
                &&& convert_units(units, kind) == #[trigger] joined(
                    runs,
                    lone_surrogates(decode(units)),
                )
                &&& forall|k: int|
                    0 <= k < runs.len() ==> lone_surrogates(
                        decode(encode_chars(#[trigger] runs[k])),
                    ) == Seq::<u16>::empty()
            },
{
    lemma_joined_encodes(decode(units));
    let runs = converted_runs(runs_of(decode(units)), kind);
    assert forall|k: int| 0 <= k < runs.len() implies lone_surrogates(
        decode(encode_chars(#[trigger] runs[k])),
    ) == Seq::<u16>::empty() by {
        lemma_encoded_run_pairs(runs[k]);
    }
    assert(convert_units(units, kind) == joined(runs, lone_surrogates(decode(units))));
}

/// Decoding a converted string finds the lone surrogates of the string,
/// each one and in their order, however the runs between them have changed,
/// where the conversion leaves no run empty that was not.
pub proof fn lemma_conversion_keeps_lone_surrogates(units: Seq<u16>, kind: Conversion)
    requires
        keeps_runs(kind),
    ensures
        lone_surrogates(decode(convert_units(units, kind))) == lone_surrogates(decode(units)),
{
    let points = decode(units);
    lemma_decode_well_decoded(units);
    lemma_runs_well_separated(points);
    lemma_converted_well_separated(runs_of(points), lone_surrogates(points), kind);
    lemma_split_joined(converted_runs(runs_of(points), kind), lone_surrogates(points));
}

/// Converting a converted string changes nothing more, where converting a
/// converted run does not and the conversion leaves no run empty that was
/// not.
pub proof fn lemma_conversion_idempotent(units: Seq<u16>, kind: Conversion)
    requires
        keeps_runs(kind),
        idempotent(kind),
    ensures
        convert_units(convert_units(units, kind), kind) == convert_units(units, kind),
{
    let points = decode(units);
    let runs = runs_of(points);
    let converted = converted_runs(runs, kind);
    lemma_decode_well_decoded(units);
    lemma_runs_well_separated(points);
    lemma_converted_well_separated(runs, lone_surrogates(points), kind);
    lemma_split_joined(converted, lone_surrogates(points));
    assert(converted_runs(converted, kind) =~= converted) by {
        assert forall|k: int| 0 <= k < converted.len() implies #[trigger] converted_runs(
            converted,
            kind,
        )[k] == converted[k] by {
            assert(converted[k] == kind.of(runs[k]));
        }
    }
}

} // verus!
