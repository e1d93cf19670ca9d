//! Case conversion and normalization of strings that may hold surrogates
//! without a partner.
//!
//! A Unicode algorithm works on characters, so it cannot be given such a
//! surrogate. The string is therefore cut at each of them. What stands
//! between two of them is a run of characters, possibly empty; each run is
//! converted as a whole, because a conversion may look at the neighbours of
//! a character, and the surrogates are put back between the converted runs.

use vstd::prelude::*;
use crate::builtins::String;
use crate::code_point::{decode, encode_chars, push_chars, CodePoint, CodePoints};
use crate::code_units::JsString;
use crate::error::StringError;
use crate::unicode::{
    lowercase, lowercase_of, nfc, nfc_of, nfd, nfd_of, nfkc, nfkc_of, nfkd, nfkd_of, uppercase,
    uppercase_of,
};

verus! {

/// One of the four normalization forms.
#[derive(Debug, Clone, Copy, PartialEq, Eq, Structural)]
pub enum Normalization {
    Nfc,
    Nfd,
    Nfkc,
    Nfkd,
}

/// What is done to each run of characters.
#[derive(Debug, Clone, Copy, PartialEq, Eq, Structural)]
pub enum Conversion {
    Lowercase,
    Uppercase,
    Normalize(Normalization),
}

impl Conversion {
    /// The conversion of one run.
    pub open spec fn of(self, run: Seq<char>) -> Seq<char> {
        match self {
            Conversion::Lowercase => lowercase_of(run),
            Conversion::Uppercase => uppercase_of(run),
            Conversion::Normalize(Normalization::Nfc) => nfc_of(run),
            Conversion::Normalize(Normalization::Nfd) => nfd_of(run),
            Conversion::Normalize(Normalization::Nfkc) => nfkc_of(run),
            Conversion::Normalize(Normalization::Nfkd) => nfkd_of(run),
        }
    }

    /// Converts one run.
    pub fn apply(self, run: &Vec<char>) -> (r: Vec<char>)
        ensures
            r@ == self.of(run@),
    {
        match self {
            Conversion::Lowercase => lowercase(run),
            Conversion::Uppercase => uppercase(run),
            Conversion::Normalize(Normalization::Nfc) => nfc(run),
            Conversion::Normalize(Normalization::Nfd) => nfd(run),
            Conversion::Normalize(Normalization::Nfkc) => nfkc(run),
            Conversion::Normalize(Normalization::Nfkd) => nfkd(run),
        }
    }
}

/// The characters with which `points` begins, up to its first lone
/// surrogate or its end.
pub open spec fn leading_run(points: Seq<CodePoint>) -> Seq<char>
    decreases points.len(),
{
    if points.len() == 0 {
        Seq::empty()
    } else {
        match points[0] {
            CodePoint::Scalar(c) => seq![c] + leading_run(points.skip(1)),
            CodePoint::UnpairedSurrogate(_) => Seq::empty(),
        }
    }
}

/// The maximal runs of characters of `points`: what stands before the
/// first lone surrogate, between each two, and behind the last. There is
/// one run more than there are lone surrogates, and a run may be empty.
pub open spec fn runs_of(points: Seq<CodePoint>) -> Seq<Seq<char>>
    decreases points.len(),
{
    let run = leading_run(points);
    if run.len() >= points.len() {
        seq![run]
    } else {
        seq![run] + runs_of(points.skip(run.len() as int + 1))
    }
}

/// The lone surrogates among `points`, in their order.
pub open spec fn lone_surrogates(points: Seq<CodePoint>) -> Seq<u16>
    decreases points.len(),
{
    if points.len() == 0 {
        Seq::empty()
    } else {
        match points[0] {
            CodePoint::UnpairedSurrogate(unit) => seq![unit] + lone_surrogates(points.skip(1)),
            CodePoint::Scalar(_) => lone_surrogates(points.skip(1)),
        }
    }
}

/// The runs encoded, with the surrogates between them: the first run, the
/// first surrogate, the second run and so on.
pub open spec fn joined(runs: Seq<Seq<char>>, surrogates: Seq<u16>) -> Seq<u16>
    decreases runs.len(),
{
    if runs.len() == 0 {
        Seq::empty()
    } else if runs.len() == 1 || surrogates.len() == 0 {
        encode_chars(runs[0])
    } else {
        encode_chars(runs[0]) + seq![surrogates[0]] + joined(runs.skip(1), surrogates.skip(1))
    }
}

/// Each of the runs after the conversion `kind`.
pub open spec fn converted_runs(runs: Seq<Seq<char>>, kind: Conversion) -> Seq<Seq<char>> {
    Seq::new(runs.len(), |k: int| kind.of(runs[k]))
}

/// The code units of a string after the conversion `kind`: each maximal
/// run of characters converted as a whole and encoded, and each lone
/// surrogate unchanged at its place between the runs.
pub open spec fn convert_units(units: Seq<u16>, kind: Conversion) -> Seq<u16> {
    joined(converted_runs(runs_of(decode(units)), kind), lone_surrogates(decode(units)))
}

/// The texts of `runs`.
pub open spec fn runs_view(runs: Seq<Vec<char>>) -> Seq<Seq<char>> {
    Seq::new(runs.len(), |k: int| runs[k]@)
}

/// The form that `name` names, if it is one of `NFC`, `NFD`, `NFKC`, `NFKD`.
pub open spec fn normalization_named(name: Seq<u16>) -> Option<Normalization> {
    if name == seq![0x4Eu16, 0x46u16, 0x43u16] {
        Some(Normalization::Nfc)
    } else if name == seq![0x4Eu16, 0x46u16, 0x44u16] {
        Some(Normalization::Nfd)
    } else if name == seq![0x4Eu16, 0x46u16, 0x4Bu16, 0x43u16] {
        Some(Normalization::Nfkc)
    } else if name == seq![0x4Eu16, 0x46u16, 0x4Bu16, 0x44u16] {
        Some(Normalization::Nfkd)
    } else {
        None
    }
}

/// The form that `form` asks for: the one it names, and NFC where it is
/// left out.
pub open spec fn requested_form(form: Option<Seq<u16>>) -> Option<Normalization> {
    match form {
        Some(name) => normalization_named(name),
        None => Some(Normalization::Nfc),
    }
}

/// A run of characters ends before a lone surrogate or at the end.
pub proof fn lemma_leading_run_ends(points: Seq<CodePoint>)
    ensures
        leading_run(points).len() <= points.len(),
        leading_run(points).len() < points.len() ==> points[leading_run(
            points,
        ).len() as int] is UnpairedSurrogate,
        forall|k: int|
            0 <= k < leading_run(points).len() ==> points[k] == CodePoint::Scalar(
                #[trigger] leading_run(points)[k],
            ),
    decreases points.len(),
{
    if points.len() > 0 {
        match points[0] {
            CodePoint::Scalar(c) => {
                let rest = points.skip(1);
                lemma_leading_run_ends(rest);
                let run = leading_run(points);
                assert(run =~= seq![c] + leading_run(rest));
                if run.len() < points.len() {
                    assert(points[run.len() as int] == rest[leading_run(rest).len() as int]);
                }
                assert forall|k: int| 0 <= k < run.len() implies points[k] == CodePoint::Scalar(
                    #[trigger] run[k],
                ) by {
                    if k > 0 {
                        assert(run[k] == leading_run(rest)[k - 1]);
                        assert(points[k] == rest[k - 1]);
                    }
                }
            },
            CodePoint::UnpairedSurrogate(_) => {},
        }
    }
}

impl Normalization {
    /// The form that `name` names.
    ///
    /// Fails with `InvalidNormalizationForm` exactly when `name` is none of
    /// `NFC`, `NFD`, `NFKC`, `NFKD`.
    pub fn from_name(name: &JsString) -> (r: Result<Normalization, StringError>)
        ensures
            r == (match normalization_named(name@) {
                Some(form) => Ok::<Normalization, StringError>(form),
                None => Err(StringError::InvalidNormalizationForm),
            }),
    {
        let units: &[u16] = name.as_slice();
        let length: usize = units.len();
        if length < 3 || length > 4 || units[0] != 0x4E || units[1] != 0x46 {
            proof {
                lemma_names(name@);
            }
            return Err(StringError::InvalidNormalizationForm);
        }
        let composed: bool = units[length - 1] == 0x43;
        let decomposed: bool = units[length - 1] == 0x44;
        let compatible: bool = length == 4 && units[2] == 0x4B;
        proof {
            lemma_names(name@);
        }
        if length == 3 && composed {
            assert(name@ =~= seq![0x4Eu16, 0x46u16, 0x43u16]);
            Ok(Normalization::Nfc)
        } else if length == 3 && decomposed {
            assert(name@ =~= seq![0x4Eu16, 0x46u16, 0x44u16]);
            Ok(Normalization::Nfd)
        } else if compatible && composed {
            assert(name@ =~= seq![0x4Eu16, 0x46u16, 0x4Bu16, 0x43u16]);
            Ok(Normalization::Nfkc)
        } else if compatible && decomposed {
            assert(name@ =~= seq![0x4Eu16, 0x46u16, 0x4Bu16, 0x44u16]);
            Ok(Normalization::Nfkd)
        } else {
            Err(StringError::InvalidNormalizationForm)
        }
    }
}

/// What a name must hold to name a form.
proof fn lemma_names(name: Seq<u16>)
    ensures
        normalization_named(name) is Some ==> {
            &&& 3 <= name.len() <= 4
            &&& name[0] == 0x4E
            &&& name[1] == 0x46
            &&& name.len() == 4 ==> name[2] == 0x4B
            &&& name[name.len() - 1] == 0x43 || name[name.len() - 1] == 0x44
        },
        normalization_named(name) == Some(Normalization::Nfc) ==> name.len() == 3 && name[2]
            == 0x43,
        normalization_named(name) == Some(Normalization::Nfd) ==> name.len() == 3 && name[2]
            == 0x44,
        normalization_named(name) == Some(Normalization::Nfkc) ==> name.len() == 4 && name[3]
            == 0x43,
        normalization_named(name) == Some(Normalization::Nfkd) ==> name.len() == 4 && name[3]
            == 0x44,
{
    let a = seq![0x4Eu16, 0x46u16, 0x43u16];
    let b = seq![0x4Eu16, 0x46u16, 0x44u16];
    let c = seq![0x4Eu16, 0x46u16, 0x4Bu16, 0x43u16];
    let d = seq![0x4Eu16, 0x46u16, 0x4Bu16, 0x44u16];
    assert(a.len() == 3 && a[0] == 0x4E && a[1] == 0x46 && a[2] == 0x43);
    assert(b.len() == 3 && b[0] == 0x4E && b[1] == 0x46 && b[2] == 0x44);
    assert(c.len() == 4 && c[0] == 0x4E && c[1] == 0x46 && c[2] == 0x4B && c[3] == 0x43);
    assert(d.len() == 4 && d[0] == 0x4E && d[1] == 0x46 && d[2] == 0x4B && d[3] == 0x44);
}

/// The lone surrogates of `points` are those behind its first run.
pub proof fn lemma_lone_surrogates_after_run(points: Seq<CodePoint>)
    ensures
        lone_surrogates(points) == lone_surrogates(points.skip(leading_run(points).len() as int)),
    decreases points.len(),
{
    if points.len() > 0 {
        match points[0] {
            CodePoint::Scalar(c) => {
                let rest = points.skip(1);
                lemma_lone_surrogates_after_run(rest);
                lemma_leading_run_ends(rest);
                lemma_leading_run_ends(points);
                assert(leading_run(points) =~= seq![c] + leading_run(rest));
                assert(leading_run(points).len() == leading_run(rest).len() + 1) by {
                    assert(leading_run(points)[leading_run(rest).len() as int] == (seq![c]
                        + leading_run(rest))[leading_run(rest).len() as int]);
                }
                assert(rest.skip(leading_run(rest).len() as int) =~= points.skip(
                    leading_run(points).len() as int,
                ));
            },
            CodePoint::UnpairedSurrogate(_) => {
                assert(points.skip(0) =~= points);
            },
        }
    } else {
        assert(points.skip(0) =~= points);
    }
}

/// A string cut into its runs of characters and the lone surrogates
/// between them. There is always one run more than there are surrogates.
#[derive(Debug)]
pub struct Runs {
    runs: Vec<Vec<char>>,
    surrogates: Vec<u16>,
}

impl Runs {
    #[verifier::type_invariant]
    spec fn one_run_more(&self) -> bool {
        self.runs@.len() == self.surrogates@.len() + 1
    }

    /// The runs, from left to right.
    pub closed spec fn runs(&self) -> Seq<Seq<char>> {
        runs_view(self.runs@)
    }

    /// The surrogates, from left to right.
    pub closed spec fn surrogates(&self) -> Seq<u16> {
        self.surrogates@
    }

    /// The runs `runs` with the surrogates `surrogates` between them, where
    /// there is exactly one run more than there are surrogates, and `None`
    /// else.
    pub fn new(runs: Vec<Vec<char>>, surrogates: Vec<u16>) -> (r: Option<Runs>)
        ensures
            match r {
                Some(made) => {
                    &&& runs@.len() == surrogates@.len() + 1
                    &&& made.runs() == runs_view(runs@)
                    &&& made.surrogates() == surrogates@
                },
                None => runs@.len() != surrogates@.len() + 1,
            },
    {
        if surrogates.len() < runs.len() && runs.len() - surrogates.len() == 1 {
            Some(Runs { runs, surrogates })
        } else {
            None
        }
    }

    /// The runs of `string` and the lone surrogates between them.
    pub fn of(string: &JsString) -> (r: Runs)
        ensures
            r.runs() == runs_of(decode(string@)),
            r.surrogates() == lone_surrogates(decode(string@)),
    {
        let ghost points = decode(string@);
        let mut cursor: CodePoints<'_> = string.code_points();
        let mut runs: Vec<Vec<char>> = Vec::new();
        let mut surrogates: Vec<u16> = Vec::new();
        assert(runs_view(runs@) + runs_of(points) =~= runs_of(points));
        assert(surrogates@ + lone_surrogates(points) =~= lone_surrogates(points));
        loop
            invariant
                points == decode(string@),
                runs@.len() == surrogates@.len(),
                runs_view(runs@) + runs_of(decode(cursor.remaining())) == runs_of(points),
                surrogates@ + lone_surrogates(decode(cursor.remaining())) == lone_surrogates(
                    points,
                ),
            decreases cursor.remaining().len(),
        {
            let ghost rest = decode(cursor.remaining());
            let ghost done = runs_view(runs@);
            let ghost found = surrogates@;
            let mut run: Vec<char> = Vec::new();
            let mut surrogate: Option<u16> = None;
            let ghost mut taken: int = 0;
            let ghost left = cursor.remaining().len();
            assert(rest.skip(0) =~= rest);
            loop
                invariant_except_break
                    surrogate is None,
                    cursor.remaining().len() <= left,
                    0 <= taken <= rest.len(),
                    taken == run@.len(),
                    decode(cursor.remaining()) == rest.skip(taken),
                    run@ + leading_run(rest.skip(taken)) == leading_run(rest),
                ensures
                    match surrogate {
                        None => run@ == leading_run(rest) && run@.len() == rest.len()
                            && cursor.remaining().len() == 0,
                        Some(unit) => {
                            &&& run@ == leading_run(rest)
                            &&& run@.len() < rest.len()
                            &&& rest[run@.len() as int] == CodePoint::UnpairedSurrogate(unit)
                            &&& decode(cursor.remaining()) == rest.skip(run@.len() as int + 1)
                            &&& cursor.remaining().len() < left
                        },
                    },
                decreases cursor.remaining().len(),
            {
                let ghost tail = rest.skip(taken);
                match cursor.next() {
                    Some(CodePoint::Scalar(c)) => {
                        proof {
                            assert(tail[0] == CodePoint::Scalar(c));
                            assert(tail.skip(1) =~= rest.skip(taken + 1));
                            assert(run@.push(c) + leading_run(rest.skip(taken + 1)) =~= run@
                                + leading_run(tail));
                            taken = taken + 1;
                        }
                        run.push(c);
                    },
                    Some(CodePoint::UnpairedSurrogate(unit)) => {
                        proof {
                            assert(tail[0] == CodePoint::UnpairedSurrogate(unit));
                            assert(tail.skip(1) =~= rest.skip(taken + 1));
                            assert(run@ + leading_run(tail) =~= run@);
                        }
                        surrogate = Some(unit);
                        break ;
                    },
                    None => {
                        proof {
                            assert(tail =~= Seq::<CodePoint>::empty());
                            assert(run@ + leading_run(tail) =~= run@);
                        }
                        break ;
                    },
                }
            }
            proof {
                lemma_lone_surrogates_after_run(rest);
            }
            match surrogate {
                Some(unit) => {
                    proof {
                        let behind = rest.skip(run@.len() as int);
                        assert(behind[0] == CodePoint::UnpairedSurrogate(unit));
                        assert(behind.skip(1) =~= rest.skip(run@.len() as int + 1));
                        assert(runs_view(runs@.push(run)) =~= done.push(run@));
                        assert(done.push(run@) + runs_of(rest.skip(run@.len() as int + 1)) =~= done
                            + runs_of(rest));
                        assert(found.push(unit) + lone_surrogates(
                            rest.skip(run@.len() as int + 1),
                        ) =~= found + lone_surrogates(rest));
                    }
                    runs.push(run);
                    surrogates.push(unit);
                },
                None => {
                    proof {
                        assert(rest.skip(run@.len() as int) =~= Seq::<CodePoint>::empty());
                        assert(runs_view(runs@.push(run)) =~= done.push(run@));
                        assert(done.push(run@) =~= done + runs_of(rest));
                        assert(found =~= found + lone_surrogates(rest));
                    }
                    runs.push(run);
                    return Runs { runs, surrogates };
                },
            }
        }
    }

    /// These runs, each after the conversion `kind`, with the same
    /// surrogates between them.
    pub fn convert(self, kind: Conversion) -> (r: Runs)
        ensures
            r.runs() == converted_runs(self.runs(), kind),
            r.surrogates() == self.surrogates(),
    {
        proof {
            use_type_invariant(&self);
        }
        let mut converted: Vec<Vec<char>> = Vec::new();
        let mut k: usize = 0;
        while k < self.runs.len()
            invariant
                k <= self.runs@.len(),
                converted@.len() == k,
                forall|j: int| 0 <= j < k ==> (#[trigger] converted@[j])@ == kind.of(self.runs@[j]@),
            decreases self.runs@.len() - k,
        {
            let run: Vec<char> = kind.apply(&self.runs[k]);
            converted.push(run);
            k += 1;
        }
        assert(runs_view(converted@) =~= converted_runs(runs_view(self.runs@), kind));
        Runs { runs: converted, surrogates: self.surrogates }
    }

    /// The string of these runs, encoded, with the surrogates between them.
    pub fn join(&self) -> (r: JsString)
        ensures
            r@ == joined(self.runs(), self.surrogates()),
    {
        proof {
            use_type_invariant(self);
        }
        let ghost runs = runs_view(self.runs@);
        let ghost surrogates = self.surrogates@;
        let count: usize = self.surrogates.len();
        let mut out: Vec<u16> = Vec::new();
        let mut k: usize = 0;
        assert(runs.skip(0) =~= runs);
        assert(surrogates.skip(0) =~= surrogates);
        assert(out@ + joined(runs, surrogates) =~= joined(runs, surrogates));
        while k < count
            invariant
                k <= count == self.surrogates@.len(),
                self.runs@.len() == count + 1,
                runs == runs_view(self.runs@),
                surrogates == self.surrogates@,
                out@ + joined(runs.skip(k as int), surrogates.skip(k as int)) == joined(
                    runs,
                    surrogates,
                ),
            decreases count - k,
        {
            let ghost before = out@;
            push_chars(&mut out, &self.runs[k]);
            out.push(self.surrogates[k]);
            proof {
                let left = runs.skip(k as int);
                let between = surrogates.skip(k as int);
                assert(left[0] == self.runs@[k as int]@);
                assert(between[0] == self.surrogates@[k as int]);
                assert(left.skip(1) =~= runs.skip(k + 1));
                assert(between.skip(1) =~= surrogates.skip(k + 1));
                assert(out@ =~= before + (encode_chars(left[0]) + seq![between[0]]));
                assert(out@ + joined(runs.skip(k + 1), surrogates.skip(k + 1)) =~= before
                    + joined(left, between));
            }
            k += 1;
        }
        let ghost before = out@;
        push_chars(&mut out, &self.runs[count]);
        proof {
            let left = runs.skip(count as int);
            assert(left.len() == 1);
            assert(left[0] == self.runs@[count as int]@);
            assert(out@ =~= before + joined(left, surrogates.skip(count as int)));
        }
        JsString::from_units(out)
    }
}

impl JsString {
    /// The string after the conversion `kind`: every run of characters
    /// between two lone surrogates converted as a whole, every lone
    /// surrogate kept where it stood.
    pub fn convert(&self, kind: Conversion) -> (r: JsString)
        ensures
            r@ == convert_units(self@, kind),
    {
        Runs::of(self).convert(kind).join()
    }
}

impl String {
    /// `this` in lowercase: see `JsString::convert`.
    pub fn to_lowercase(this: &JsString) -> (r: JsString)
        ensures
            r@ == convert_units(this@, Conversion::Lowercase),
    {
        this.convert(Conversion::Lowercase)
    }

    /// `this` in uppercase: see `JsString::convert`.
    pub fn to_uppercase(this: &JsString) -> (r: JsString)
        ensures
            r@ == convert_units(this@, Conversion::Uppercase),
    {
        this.convert(Conversion::Uppercase)
    }

    /// `this` in the normalization form that `form` names, in NFC where
    /// `form` is left out: see `JsString::convert`.
    ///
    /// Fails with `InvalidNormalizationForm` exactly when `form` is given and
    /// is none of `NFC`, `NFD`, `NFKC`, `NFKD`.
    pub fn normalize(this: &JsString, form: Option<&JsString>) -> (r: Result<JsString, StringError>)
        ensures
            match requested_form(
                match form {
                    Some(name) => Some(name@),
                    None => None,
                },
            ) {
                Some(normalization) => r matches Ok(text) && text@ == convert_units(
                    this@,
                    Conversion::Normalize(normalization),
                ),
                None => r == Err::<JsString, StringError>(StringError::InvalidNormalizationForm),
            },
    {
        let normalization: Normalization = match form {
            Some(name) => match Normalization::from_name(name) {
                Ok(normalization) => normalization,
                Err(error) => {
                    return Err(error);
                },
            },
            None => Normalization::Nfc,
        };
        Ok(this.convert(Conversion::Normalize(normalization)))
    }
}

} // verus!
