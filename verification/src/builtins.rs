//! The operations of the string type, on values that are already coerced.
//!
//! Positions and counts arrive as `IntegerOrInfinity`; an argument that may
//! be left out arrives as an `Option`.

use vstd::prelude::*;
use crate::code_point::{encode_char, first_code_point, push_char};
use crate::code_units::{append_all, append_range, matches_at, JsString};
use crate::error::StringError;
use crate::integer::IntegerOrInfinity;
use crate::search::{first_occurrence, last_occurrence, occurs_at};

verus! {

/// The namespace of the string operations. Each takes the receiver as its
/// first argument, already converted to a string, and its other arguments
/// as strings and integers.
#[derive(Debug, Clone, Copy)]
pub struct String;

/// On which side a string is padded.
#[derive(Debug, Clone, Copy, PartialEq, Eq, Structural)]
pub enum Placement {
    Start,
    End,
}

impl String {
    /// The longest string that `repeat` builds.
    pub const MAX_STRING_LENGTH: usize = 0xFFFF_FFFF;
}

/// The index that `position` names in a string of `length` code units, where
/// it names one.
pub open spec fn index_in(position: IntegerOrInfinity, length: int) -> Option<int> {
    match position {
        IntegerOrInfinity::Integer(i) => if 0 <= i < length {
            Some(i as int)
        } else {
            None
        },
        _ => None,
    }
}

/// The index that `position` names where a negative position counts from the
/// end.
pub open spec fn relative_index_in(position: IntegerOrInfinity, length: int) -> Option<int> {
    match position {
        IntegerOrInfinity::Integer(i) => if 0 <= i < length {
            Some(i as int)
        } else if i < 0 && -i <= length {
            Some(length + i)
        } else {
            None
        },
        _ => None,
    }
}

/// The strings of `strings` one after another.
pub open spec fn concatenation(strings: Seq<JsString>) -> Seq<u16>
    decreases strings.len(),
{
    if strings.len() == 0 {
        Seq::empty()
    } else {
        concatenation(strings.drop_last()) + strings.last()@
    }
}

/// `count` copies of `text`.
pub open spec fn repeated(text: Seq<u16>, count: nat) -> Seq<u16>
    decreases count,
{
    if count == 0 {
        Seq::empty()
    } else {
        repeated(text, (count - 1) as nat) + text
    }
}

/// What `repeat` answers.
pub open spec fn repeat_result(text: Seq<u16>, count: IntegerOrInfinity) -> Result<
    Seq<u16>,
    StringError,
> {
    match count {
        IntegerOrInfinity::Integer(n) => if n > 0 && n * text.len() <= String::MAX_STRING_LENGTH {
            Ok(repeated(text, n as nat))
        } else if n == 0 {
            Ok(Seq::empty())
        } else {
            Err(StringError::InvalidCount)
        },
        _ => Err(StringError::InvalidCount),
    }
}

/// The first `length` code units of `filler` repeated without end.
pub open spec fn filling(filler: Seq<u16>, length: nat) -> Seq<u16> {
    Seq::new(length, |k: int| filler[k % (filler.len() as int)])
}

/// What padding `text` to `max_length` code units gives.
pub open spec fn padded(
    text: Seq<u16>,
    max_length: nat,
    fill: Option<Seq<u16>>,
    placement: Placement,
) -> Seq<u16> {
    let filler = match fill {
        Some(given) => given,
        None => seq![0x20u16],
    };
    if max_length <= text.len() || filler.len() == 0 {
        text
    } else {
        let padding = filling(filler, (max_length - text.len()) as nat);
        match placement {
            Placement::Start => padding + text,
            Placement::End => text + padding,
        }
    }
}

/// The part of `text` that `slice` selects.
pub open spec fn sliced(text: Seq<u16>, start: IntegerOrInfinity, end: Option<IntegerOrInfinity>) -> Seq<
    u16,
> {
    let from = start.relative(text.len() as int);
    let to = match end {
        Some(position) => position.relative(text.len() as int),
        None => text.len() as int,
    };
    if from >= to {
        Seq::empty()
    } else {
        text.subrange(from, to)
    }
}

/// The part of `text` that `substring` selects.
pub open spec fn substring_of(
    text: Seq<u16>,
    start: IntegerOrInfinity,
    end: Option<IntegerOrInfinity>,
) -> Seq<u16> {
    let first = start.clamped(0, text.len() as int);
    let second = match end {
        Some(position) => position.clamped(0, text.len() as int),
        None => text.len() as int,
    };
    if first <= second {
        text.subrange(first, second)
    } else {
        text.subrange(second, first)
    }
}

/// The part of `text` that `substr` selects.
pub open spec fn substr_of(
    text: Seq<u16>,
    start: IntegerOrInfinity,
    length: Option<IntegerOrInfinity>,
) -> Seq<u16> {
    let size = text.len() as int;
    let count = match length {
        Some(IntegerOrInfinity::Integer(n)) => n as int,
        Some(_) => 0,
        None => size,
    };
    if start == IntegerOrInfinity::PositiveInfinity || count <= 0 {
        Seq::empty()
    } else {
        let from = match start {
            IntegerOrInfinity::Integer(i) => if i < 0 {
                if size + i < 0 {
                    0
                } else {
                    size + i
                }
            } else {
                i as int
            },
            _ => 0,
        };
        let to = if from + count < size {
            from + count
        } else {
            size
        };
        if from < to {
            text.subrange(from, to)
        } else {
            Seq::empty()
        }
    }
}

/// The segments with a substitution after each but the last; a segment
/// that has no substitution is followed by nothing.
pub open spec fn interleaved(segments: Seq<JsString>, substitutions: Seq<JsString>) -> Seq<u16>
    decreases segments.len(),
{
    if segments.len() == 0 {
        Seq::empty()
    } else if segments.len() == 1 {
        segments[0]@
    } else {
        let last = segments.len() - 1;
        interleaved(segments.drop_last(), substitutions) + (if last - 1 < substitutions.len() {
            substitutions[last - 1]@
        } else {
            Seq::empty()
        }) + segments[last]@
    }
}

/// Whether every one of `code_points` numbers a character.
pub open spec fn all_scalar(code_points: Seq<i64>) -> bool {
    forall|k: int|
        0 <= k < code_points.len() ==> !(0xD800 <= #[trigger] code_points[k] <= 0xDFFF)
}

/// Whether `number` is a code point: between 0 and 0x10FFFF.
pub open spec fn in_range(number: i64) -> bool {
    0 <= number <= 0x10FFFF
}

/// The first of `code_points` that is no code point, if there is one.
pub open spec fn first_out_of_range(code_points: Seq<i64>) -> Option<i64>
    decreases code_points.len(),
{
    if code_points.len() == 0 {
        None
    } else if !in_range(code_points[0]) {
        Some(code_points[0])
    } else {
        first_out_of_range(code_points.skip(1))
    }
}

/// The code units that encode `code_points`.
pub open spec fn encode_numbers(code_points: Seq<i64>) -> Seq<u16>
    decreases code_points.len(),
{
    if code_points.len() == 0 {
        Seq::empty()
    } else {
        encode_numbers(code_points.drop_last()) + encode_char(code_points.last() as char)
    }
}

impl String {
    /// The string of the one code unit at `position`; empty where
    /// `position` is not an index of `this`.
    pub fn char_at(this: &JsString, position: IntegerOrInfinity) -> (r: JsString)
        ensures
            r@ == (match index_in(position, this@.len() as int) {
                Some(i) => seq![this@[i]],
                None => Seq::empty(),
            }),
    {
        match Self::char_code_at(this, position) {
            Some(unit) => {
                let mut out: Vec<u16> = Vec::new();
                out.push(unit);
                assert(out@ =~= seq![unit]);
                JsString::from_units(out)
            },
            None => JsString::new(),
        }
    }

    /// The string of the one code unit at `index`, where a negative index
    /// counts from the end; `None` where that is no index of `this`.
    pub fn at(this: &JsString, index: IntegerOrInfinity) -> (r: Option<JsString>)
        ensures
            match relative_index_in(index, this@.len() as int) {
                Some(k) => r matches Some(text) && text@ == seq![this@[k]],
                None => r is None,
            },
    {
        let length: usize = this.len();
        let k: usize = match index {
            IntegerOrInfinity::Integer(i) => {
                if i >= 0 {
                    if i as u64 >= length as u64 {
                        return None;
                    }
                    i as usize
                } else {
                    let back: u64 = (-(i + 1)) as u64 + 1;
                    if back > length as u64 {
                        return None;
                    }
                    length - back as usize
                }
            },
            _ => {
                return None;
            },
        };
        let mut out: Vec<u16> = Vec::new();
        out.push(this.as_slice()[k]);
        assert(out@ =~= seq![this@[k as int]]);
        Some(JsString::from_units(out))
    }

    /// The number of the code point that begins at `position`: of the
    /// character, where a surrogate pair begins there, else of the code
    /// unit. `None` where `position` is not an index of `this`.
    pub fn code_point_at(this: &JsString, position: IntegerOrInfinity) -> (r: Option<u32>)
        ensures
            r == (match index_in(position, this@.len() as int) {
                Some(i) => Some(first_code_point(this@.skip(i)).value()),
                None => None,
            }),
    {
        match position {
            IntegerOrInfinity::Integer(i) => {
                if i >= 0 && (i as u64) < this.len() as u64 {
                    Some(this.code_point_at(i as usize).as_u32())
                } else {
                    None
                }
            },
            _ => None,
        }
    }

    /// The code unit at `position`; `None` where `position` is not an index
    /// of `this`.
    pub fn char_code_at(this: &JsString, position: IntegerOrInfinity) -> (r: Option<u16>)
        ensures
            r == (match index_in(position, this@.len() as int) {
                Some(i) => Some(this@[i]),
                None => None,
            }),
    {
        match position {
            IntegerOrInfinity::Integer(i) => {
                if i >= 0 && (i as u64) < this.len() as u64 {
                    Some(this.as_slice()[i as usize])
                } else {
                    None
                }
            },
            _ => None,
        }
    }

    /// `this` followed by each of `args` in turn.
    pub fn concat(this: &JsString, args: &[JsString]) -> (r: JsString)
        ensures
            r@ == this@ + concatenation(args@),
    {
        let mut out: Vec<u16> = Vec::new();
        append_all(&mut out, this.as_slice());
        let mut k: usize = 0;
        assert(args@.take(0) =~= Seq::<JsString>::empty());
        assert(out@ =~= this@ + concatenation(args@.take(0)));
        while k < args.len()
            invariant
                k <= args@.len(),
                out@ == this@ + concatenation(args@.take(k as int)),
            decreases args@.len() - k,
        {
            append_all(&mut out, args[k].as_slice());
            proof {
                let longer = args@.take(k + 1);
                assert(longer.drop_last() =~= args@.take(k as int));
                assert(longer.last() == args@[k as int]);
                assert(out@ =~= this@ + concatenation(longer));
            }
            k += 1;
        }
        assert(args@.take(args@.len() as int) =~= args@);
        JsString::from_units(out)
    }

    /// `count` copies of `this`.
    ///
    /// Fails with `InvalidCount` exactly when `count` is negative or
    /// infinite, or when the copies together are longer than
    /// `String::MAX_STRING_LENGTH`.
    pub fn repeat(this: &JsString, count: IntegerOrInfinity) -> (r: Result<JsString, StringError>)
        ensures
            match repeat_result(this@, count) {
                Ok(text) => r matches Ok(made) && made@ == text,
                Err(error) => r == Err::<JsString, StringError>(error),
            },
    {
        let length: usize = this.len();
        let n: i64 = match count {
            IntegerOrInfinity::Integer(n) => n,
            _ => {
                return Err(StringError::InvalidCount);
            },
        };
        if n < 0 {
            return Err(StringError::InvalidCount);
        }
        if n == 0 {
            return Ok(JsString::new());
        }
        if length == 0 {
            proof {
                lemma_repeated_empty(this@, n as nat);
                assert(n * length == 0) by (nonlinear_arith)
                    requires
                        length == 0,
                ;
            }
            return Ok(JsString::new());
        }
        let most: u64 = String::MAX_STRING_LENGTH as u64 / length as u64;
        if n as u64 > most {
            assert(n * length > String::MAX_STRING_LENGTH) by (nonlinear_arith)
                requires
                    n > String::MAX_STRING_LENGTH as int / length as int,
                    length > 0,
            ;
            return Err(StringError::InvalidCount);
        }
        assert(n * length <= String::MAX_STRING_LENGTH) by (nonlinear_arith)
            requires
                0 < n <= String::MAX_STRING_LENGTH as int / length as int,
                length > 0,
        ;
        let mut out: Vec<u16> = Vec::new();
        let mut k: i64 = 0;
        while k < n
            invariant
                0 <= k <= n,
                out@ == repeated(this@, k as nat),
            decreases n - k,
        {
            append_all(&mut out, this.as_slice());
            k += 1;
        }
        Ok(JsString::from_units(out))
    }

    /// The code units of `this` from `start` up to `end`, where a negative
    /// position counts from the end and `end` left out means the end.
    pub fn slice(this: &JsString, start: IntegerOrInfinity, end: Option<IntegerOrInfinity>) -> (r:
        JsString)
        ensures
            r@ == sliced(this@, start, end),
    {
        let length: usize = this.len();
        let from: usize = start.relative_to_length(length);
        let to: usize = match end {
            Some(position) => position.relative_to_length(length),
            None => length,
        };
        let mut out: Vec<u16> = Vec::new();
        if from < to {
            append_range(&mut out, this.as_slice(), from, to);
        }
        assert(out@ =~= sliced(this@, start, end));
        JsString::from_units(out)
    }

    /// Whether `search_string` stands in `this` at `position`, brought into
    /// the string; `position` left out means the start. The empty string
    /// stands everywhere.
    pub fn starts_with(
        this: &JsString,
        search_string: &JsString,
        position: Option<IntegerOrInfinity>,
    ) -> (r: bool)
        ensures
            r == (search_string@.len() == 0 || occurs_at(
                this@,
                search_string@,
                (match position {
                    Some(p) => p.clamped(0, this@.len() as int),
                    None => 0,
                }),
            )),
    {
        let length: usize = this.len();
        let start: usize = match position {
            Some(p) => p.clamp_to_length(length),
            None => 0,
        };
        let width: usize = search_string.len();
        if width == 0 {
            return true;
        }
        if width > length - start {
            false
        } else {
            matches_at(this.as_slice(), start, search_string.as_slice())
        }
    }

    /// Whether `search_string` stands in `this` so that it ends at
    /// `end_position`, brought into the string; `end_position` left out
    /// means the end. The empty string stands everywhere.
    pub fn ends_with(
        this: &JsString,
        search_string: &JsString,
        end_position: Option<IntegerOrInfinity>,
    ) -> (r: bool)
        ensures
            r == (search_string@.len() == 0 || occurs_at(
                this@,
                search_string@,
                (match end_position {
                    Some(p) => p.clamped(0, this@.len() as int),
                    None => this@.len() as int,
                }) - search_string@.len(),
            )),
    {
        let length: usize = this.len();
        let end: usize = match end_position {
            Some(p) => p.clamp_to_length(length),
            None => length,
        };
        let width: usize = search_string.len();
        if width == 0 {
            return true;
        }
        if width > end {
            false
        } else {
            matches_at(this.as_slice(), end - width, search_string.as_slice())
        }
    }

    /// Whether `search_string` stands in `this` at `position`, brought into
    /// the string, or later.
    pub fn includes(this: &JsString, search_string: &JsString, position: IntegerOrInfinity) -> (r:
        bool)
        ensures
            r == exists|q: int|
                position.clamped(0, this@.len() as int) <= q && occurs_at(
                    this@,
                    search_string@,
                    q,
                ),
    {
        let start: usize = position.clamp_to_length(this.len());
        let found: Option<usize> = this.index_of(search_string, start);
        proof {
            if found is Some {
                assert(occurs_at(this@, search_string@, found.unwrap() as int));
            }
        }
        found.is_some()
    }

    /// The least index at or after `position`, brought into the string, at
    /// which `search_string` stands in `this`; `None` where there is none.
    /// The empty string is found at that position itself.
    pub fn index_of(this: &JsString, search_string: &JsString, position: IntegerOrInfinity) -> (r:
        Option<usize>)
        ensures
            match r {
                Some(p) => {
                    &&& position.clamped(0, this@.len() as int) <= p
                    &&& occurs_at(this@, search_string@, p as int)
                    &&& forall|q: int|
                        position.clamped(0, this@.len() as int) <= q < p ==> !occurs_at(
                            this@,
                            search_string@,
                            q,
                        )
                    &&& first_occurrence(
                        this@,
                        search_string@,
                        position.clamped(0, this@.len() as int),
                    ) == Some(p as int)
                },
                None => {
                    &&& forall|q: int|
                        position.clamped(0, this@.len() as int) <= q ==> !occurs_at(
                            this@,
                            search_string@,
                            q,
                        )
                    &&& first_occurrence(
                        this@,
                        search_string@,
                        position.clamped(0, this@.len() as int),
                    ) is None
                },
            },
            search_string@.len() == 0 ==> r == Some(
                position.clamped(0, this@.len() as int) as usize,
            ),
    {
        let start: usize = position.clamp_to_length(this.len());
        proof {
            if search_string@.len() == 0 {
                assert(this@.subrange(start as int, start as int) =~= search_string@);
            }
        }
        this.index_of(search_string, start)
    }

    /// The greatest index at or before `position`, brought into the string,
    /// at which `search_string` stands in `this`; `None` where there is none.
    /// The empty string is found at that position itself.
    pub fn last_index_of(
        this: &JsString,
        search_string: &JsString,
        position: IntegerOrInfinity,
    ) -> (r: Option<usize>)
        ensures
            match r {
                Some(p) => {
                    &&& p <= position.clamped(0, this@.len() as int)
                    &&& occurs_at(this@, search_string@, p as int)
                    &&& forall|q: int|
                        p < q <= position.clamped(0, this@.len() as int) ==> !occurs_at(
                            this@,
                            search_string@,
                            q,
                        )
                    &&& last_occurrence(
                        this@,
                        search_string@,
                        position.clamped(0, this@.len() as int),
                    ) == Some(p as int)
                },
                None => {
                    &&& forall|q: int|
                        q <= position.clamped(0, this@.len() as int) ==> !occurs_at(
                            this@,
                            search_string@,
                            q,
                        )
                    &&& last_occurrence(
                        this@,
                        search_string@,
                        position.clamped(0, this@.len() as int),
                    ) is None
                },
            },
            search_string@.len() == 0 ==> r == Some(
                position.clamped(0, this@.len() as int) as usize,
            ),
    {
        let start: usize = position.clamp_to_length(this.len());
        proof {
            if search_string@.len() == 0 {
                assert(this@.subrange(start as int, start as int) =~= search_string@);
            }
        }
        this.last_index_of(search_string, start)
    }

    /// `this` padded to `max_length` code units with `fill_string`, repeated
    /// and cut as needed, on the side that `placement` names. `fill_string`
    /// left out means one space. Where `this` is long enough already, or
    /// `fill_string` is empty, the result is `this`.
    pub fn string_pad(
        this: &JsString,
        max_length: usize,
        fill_string: Option<&JsString>,
        placement: Placement,
    ) -> (r: JsString)
        ensures
            r@ == padded(
                this@,
                max_length as nat,
                (match fill_string {
                    Some(given) => Some(given@),
                    None => None,
                }),
                placement,
            ),
    {
        let length: usize = this.len();
        if max_length <= length {
            return this.clone();
        }
        let mut space: Vec<u16> = Vec::new();
        space.push(0x20);
        let filler: &[u16] = match fill_string {
            Some(given) => given.as_slice(),
            None => space.as_slice(),
        };
        assert(space@ =~= seq![0x20u16]);
        let filler_length: usize = filler.len();
        if filler_length == 0 {
            return this.clone();
        }
        let fill_length: usize = max_length - length;
        let mut out: Vec<u16> = Vec::new();
        if placement == Placement::End {
            append_all(&mut out, this.as_slice());
        }
        let ghost head = out@;
        let mut k: usize = 0;
        let mut source: usize = 0;
        while k < fill_length
            invariant
                k <= fill_length,
                filler_length == filler@.len(),
                0 <= source < filler_length,
                source == (k as int) % (filler_length as int),
                out@ == head + filling(filler@, k as nat),
            decreases fill_length - k,
        {
            out.push(filler[source]);
            proof {
                assert(out@ =~= head + filling(filler@, (k + 1) as nat));
                assert((k + 1) % (filler_length as int) == (if source + 1 == filler_length {
                    0int
                } else {
                    source + 1
                })) by (nonlinear_arith)
                    requires
                        source == (k as int) % (filler_length as int),
                        0 <= source < filler_length,
                        0 <= k,
                ;
            }
            k += 1;
            source = if source + 1 == filler_length {
                0
            } else {
                source + 1
            };
        }
        if placement == Placement::Start {
            append_all(&mut out, this.as_slice());
        }
        assert(out@ =~= padded(
            this@,
            max_length as nat,
            (match fill_string {
                Some(given) => Some(given@),
                None => None,
            }),
            placement,
        ));
        JsString::from_units(out)
    }

    /// `this` padded at its end: see `string_pad`.
    pub fn pad_end(this: &JsString, max_length: usize, fill_string: Option<&JsString>) -> (r:
        JsString)
        ensures
            r@ == padded(
                this@,
                max_length as nat,
                (match fill_string {
                    Some(given) => Some(given@),
                    None => None,
                }),
                Placement::End,
            ),
    {
        Self::string_pad(this, max_length, fill_string, Placement::End)
    }

    /// `this` padded at its start: see `string_pad`.
    pub fn pad_start(this: &JsString, max_length: usize, fill_string: Option<&JsString>) -> (r:
        JsString)
        ensures
            r@ == padded(
                this@,
                max_length as nat,
                (match fill_string {
                    Some(given) => Some(given@),
                    None => None,
                }),
                Placement::Start,
            ),
    {
        Self::string_pad(this, max_length, fill_string, Placement::Start)
    }

    /// The code units of `this` between `start` and `end`, each brought into
    /// the string and the smaller taken first; `end` left out means the end.
    pub fn substring(
        this: &JsString,
        start: IntegerOrInfinity,
        end: Option<IntegerOrInfinity>,
    ) -> (r: JsString)
        ensures
            r@ == substring_of(this@, start, end),
    {
        let length: usize = this.len();
        let first: usize = start.clamp_to_length(length);
        let second: usize = match end {
            Some(position) => position.clamp_to_length(length),
            None => length,
        };
        let mut out: Vec<u16> = Vec::new();
        if first <= second {
            append_range(&mut out, this.as_slice(), first, second);
        } else {
            append_range(&mut out, this.as_slice(), second, first);
        }
        JsString::from_units(out)
    }

    /// At most `length` code units of `this` from `start` on, where a
    /// negative `start` counts from the end and `length` left out means all
    /// that follow. Empty where `start` is past the end or `length` is not
    /// a positive integer.
    pub fn substr(this: &JsString, start: IntegerOrInfinity, length: Option<IntegerOrInfinity>) -> (r:
        JsString)
        ensures
            r@ == substr_of(this@, start, length),
    {
        let size: usize = this.len();
        let from: usize = match start {
            IntegerOrInfinity::Integer(i) => {
                if i < 0 {
                    start.relative_to_length(size)
                } else if i as u64 >= size as u64 {
                    return JsString::new();
                } else {
                    i as usize
                }
            },
            IntegerOrInfinity::PositiveInfinity => {
                return JsString::new();
            },
            IntegerOrInfinity::NegativeInfinity => 0,
        };
        let remaining: usize = size - from;
        let count: usize = match length {
            Some(IntegerOrInfinity::Integer(n)) => {
                if n <= 0 {
                    return JsString::new();
                } else if n as u64 >= remaining as u64 {
                    remaining
                } else {
                    n as usize
                }
            },
            Some(_) => {
                return JsString::new();
            },
            None => remaining,
        };
        let mut out: Vec<u16> = Vec::new();
        append_range(&mut out, this.as_slice(), from, from + count);
        assert(out@ =~= substr_of(this@, start, length));
        JsString::from_units(out)
    }

    /// The string of the code units `code_units`.
    pub fn from_char_code(code_units: &[u16]) -> (r: JsString)
        ensures
            r@ == code_units@,
    {
        JsString::from_slice(code_units)
    }

    /// The string of the characters that `code_points` number.
    ///
    /// Fails with `InvalidCodePoint` exactly when one of the numbers is
    /// negative or above 0x10FFFF, and names the first such number. The
    /// number of a surrogate is no character's: such a number is not
    /// accepted.
    pub fn from_code_point(code_points: &[i64]) -> (r: Result<JsString, StringError>)
        requires
            all_scalar(code_points@),
        ensures
            match first_out_of_range(code_points@) {
                None => r matches Ok(text) && text@ == encode_numbers(code_points@),
                Some(number) => r == Err::<JsString, StringError>(
                    StringError::InvalidCodePoint(number),
                ),
            },
    {
        let mut out: Vec<u16> = Vec::new();
        let mut k: usize = 0;
        assert(code_points@.take(0) =~= Seq::<i64>::empty());
        assert(code_points@.skip(0) =~= code_points@);
        while k < code_points.len()
            invariant
                k <= code_points@.len(),
                all_scalar(code_points@),
                first_out_of_range(code_points@.skip(k as int)) == first_out_of_range(
                    code_points@,
                ),
                out@ == encode_numbers(code_points@.take(k as int)),
            decreases code_points@.len() - k,
        {
            let next: i64 = code_points[k];
            assert(code_points@.skip(k as int)[0] == next);
            assert(code_points@.skip(k as int).skip(1) =~= code_points@.skip(k + 1));
            if next < 0 || next > 0x10FFFF {
                return Err(StringError::InvalidCodePoint(next));
            }
            let decoded: Option<char> = char::from_u32(next as u32);
            assert(decoded is Some);
            push_char(&mut out, decoded.unwrap());
            proof {
                let longer = code_points@.take(k + 1);
                assert(longer.drop_last() =~= code_points@.take(k as int));
                assert(longer.last() == next);
            }
            k += 1;
        }
        assert(code_points@.take(code_points@.len() as int) =~= code_points@);
        assert(code_points@.skip(code_points@.len() as int) =~= Seq::<i64>::empty());
        Ok(JsString::from_units(out))
    }

    /// The literal segments of a template with the substitutions between
    /// them: the first segment, the first substitution, the second segment
    /// and so on up to the last segment. A substitution that is missing
    /// counts as empty, and one after the last segment is left out. No
    /// segment gives the empty string.
    pub fn raw(segments: &[JsString], substitutions: &[JsString]) -> (r: JsString)
        ensures
            r@ == interleaved(segments@, substitutions@),
    {
        let mut out: Vec<u16> = Vec::new();
        let count: usize = segments.len();
        let mut k: usize = 0;
        assert(segments@.take(0) =~= Seq::<JsString>::empty());
        while k < count
            invariant
                k <= count == segments@.len(),
                out@ == interleaved(segments@.take(k as int), substitutions@),
            decreases count - k,
        {
            if k > 0 && k - 1 < substitutions.len() {
                append_all(&mut out, substitutions[k - 1].as_slice());
            }
            append_all(&mut out, segments[k].as_slice());
            proof {
                let longer = segments@.take(k + 1);
                assert(longer.drop_last() =~= segments@.take(k as int));
                assert(longer[k as int] == segments@[k as int]);
                assert(out@ =~= interleaved(longer, substitutions@));
            }
            k += 1;
        }
        assert(segments@.take(count as int) =~= segments@);
        JsString::from_units(out)
    }
}

/// Copies of the empty text are empty.
proof fn lemma_repeated_empty(text: Seq<u16>, count: nat)
    requires
        text.len() == 0,
    ensures
        repeated(text, count) =~= Seq::<u16>::empty(),
    decreases count,
{
    if count > 0 {
        lemma_repeated_empty(text, (count - 1) as nat);
    }
}

} // verus!
