//! Reading an axis expression.
//!
//! `a...b` and `a...m...b` are ranges of binary64 numbers, `a..b` and
//! `a..m..b` ranges of whole numbers, `x,y,z` is a choice, anything else a
//! text. Three dots are looked for before two, since two dots stand in three.
//!
//! The library reads no binary64 number. For a range of them it cuts the
//! expression into its fields; the caller reads the fields and computes the
//! step and the points, and the library decides what the expression is.

use crate::float::Float;
use crate::message::{complaint, quoted};
use crate::number::{lemma_rendered, parse_i64, rendered, signed64};
use crate::text::{
    contains, fields, find, includes, lemma_find, lemma_find_at, lemma_find_none,
    lemma_split_nonempty, occurs_at, split, split_from, texts,
};
use crate::value::{copy_floats, lemma_range_difference, Value, ValueView};
use vstd::prelude::*;
use vstd::string::*;

verus! {

/// What the caller read off the fields of a range of binary64 numbers.
#[derive(Debug, Clone, PartialEq)]
pub struct FloatReading {
    /// For each field in order, the number that it writes, if it writes one.
    pub numbers: Vec<Option<Float>>,
    /// The step between two points of the range.
    pub step: Float,
    /// The points of the range, in order.
    pub points: Vec<Float>,
}

/// The mathematical model of a [`FloatReading`].
pub struct FloatReadingView {
    pub numbers: Seq<Option<Float>>,
    pub step: Float,
    pub points: Seq<Float>,
}

impl View for FloatReading {
    type V = FloatReadingView;

    open spec fn view(&self) -> FloatReadingView {
        FloatReadingView { numbers: self.numbers@, step: self.step, points: self.points@ }
    }
}

impl FloatReadingView {
    /// The number of field `i`, where the caller read one.
    pub open spec fn number(self, i: int) -> Option<Float> {
        if 0 <= i < self.numbers.len() {
            self.numbers[i]
        } else {
            None
        }
    }

    /// The reading of an expression without binary64 numbers.
    pub open spec fn none() -> FloatReadingView {
        FloatReadingView { numbers: Seq::empty(), step: Float { bits: 0 }, points: Seq::empty() }
    }
}

impl FloatReading {
    /// A reading for an expression without binary64 numbers.
    pub fn none() -> (r: FloatReading)
        ensures
            r@ == FloatReadingView::none(),
    {
        let r = FloatReading { numbers: Vec::new(), step: Float { bits: 0 }, points: Vec::new() };
        assert(r@.numbers =~= Seq::empty() && r@.points =~= Seq::empty());
        r
    }

    /// A copy of the reading.
    pub fn copy(&self) -> (r: FloatReading)
        ensures
            r@ == self@,
    {
        let mut numbers: Vec<Option<Float>> = Vec::new();
        let mut i: usize = 0;
        while i < self.numbers.len()
            invariant
                i <= self.numbers.len(),
                numbers@ == self.numbers@.subrange(0, i as int),
            decreases self.numbers.len() - i,
        {
            numbers.push(self.numbers[i]);
            i += 1;
            assert(numbers@ =~= self.numbers@.subrange(0, i as int));
        }
        assert(self.numbers@.subrange(0, self.numbers.len() as int) =~= self.numbers@);
        FloatReading { numbers, step: self.step, points: copy_floats(&self.points) }
    }

    fn number_at(&self, i: usize) -> (r: Option<Float>)
        ensures
            r == self@.number(i as int),
    {
        if i < self.numbers.len() {
            self.numbers[i]
        } else {
            None
        }
    }
}

/// The message for a field that writes no number.
pub open spec fn no_number(field: Seq<char>) -> Seq<char> {
    "Cannot parse as number: "@ + quoted(field)
}

/// The whole number that a field writes, or the message that it writes none.
pub open spec fn whole(field: Seq<char>) -> Result<int, Seq<char>> {
    match signed64(field) {
        Some(n) => Ok(n as int),
        None => Err(no_number(field)),
    }
}

/// What a range of whole numbers reads as.
pub open spec fn int_range(val: Seq<char>) -> Result<ValueView, Seq<char>> {
    let f = fields(val, ".."@);
    if f.len() == 2 {
        match (whole(f[0]), whole(f[1])) {
            (Err(e), _) => Err(e),
            (_, Err(e)) => Err(e),
            (Ok(begin), Ok(end)) => if begin <= end {
                Ok(ValueView::IntRange(begin, end, 1))
            } else {
                Err("Int-Range .. should be begin <= end: "@ + quoted(val))
            },
        }
    } else if f.len() == 3 {
        match (whole(f[0]), whole(f[1]), whole(f[2])) {
            (Err(e), _, _) => Err(e),
            (_, Err(e), _) => Err(e),
            (_, _, Err(e)) => Err(e),
            (Ok(begin), Ok(second), Ok(end)) => {
                let step = second - begin;
                if i64::MIN <= step <= i64::MAX && ValueView::IntRange(begin, end, step).valid() {
                    Ok(ValueView::IntRange(begin, end, step))
                } else {
                    Err("Int-Range .. has strange second value...? "@ + quoted(val))
                }
            },
        }
    } else {
        Err("Int-Range .. should have 2 or 3 fields. See document."@)
    }
}

/// What a range of binary64 numbers reads as, given what the caller read
/// off its fields.
pub open spec fn float_range(val: Seq<char>, floats: FloatReadingView) -> Result<
    ValueView,
    Seq<char>,
> {
    let f = fields(val, "..."@);
    if f.len() == 2 {
        match (floats.number(0), floats.number(1)) {
            (None, _) => Err(no_number(f[0])),
            (_, None) => Err(no_number(f[1])),
            (Some(begin), Some(end)) => if begin.at_most(end) {
                Ok(ValueView::FloatRange(begin, end, floats.step, floats.points))
            } else {
                Err("Float-Range ... should be begin <= end: "@ + quoted(val))
            },
        }
    } else if f.len() == 3 {
        match (floats.number(0), floats.number(1), floats.number(2)) {
            (None, _, _) => Err(no_number(f[0])),
            (_, None, _) => Err(no_number(f[1])),
            (_, _, None) => Err(no_number(f[2])),
            (Some(begin), Some(_), Some(end)) => Ok(
                ValueView::FloatRange(begin, end, floats.step, floats.points),
            ),
        }
    } else {
        Err("Float-Range ... should have 2 or 3 fields. See document."@)
    }
}

/// What an axis expression reads as.
pub open spec fn axis(val: Seq<char>, floats: FloatReadingView) -> Result<ValueView, Seq<char>> {
    if includes(val, "..."@) {
        float_range(val, floats)
    } else if includes(val, ".."@) {
        int_range(val)
    } else if includes(val, ","@) {
        Ok(ValueView::Choice(fields(val, ","@)))
    } else {
        Ok(ValueView::Val(val))
    }
}

/// Whether `r` is the outcome `want`, value for value and message for message.
pub open spec fn reads_as(r: Result<Value, String>, want: Result<ValueView, Seq<char>>) -> bool {
    match r {
        Ok(v) => want == Ok::<ValueView, Seq<char>>(v@),
        Err(e) => want == Err::<ValueView, Seq<char>>(e@),
    }
}

/// Reads a whole number.
pub fn parse_number(s: &str) -> (r: Result<i64, String>)
    ensures
        match r {
            Ok(n) => whole(s@) == Ok::<int, Seq<char>>(n as int),
            Err(e) => whole(s@) == Err::<int, Seq<char>>(e@),
        },
{
    match parse_i64(s) {
        Some(n) => Ok(n),
        None => Err(complaint("Cannot parse as number: ", s)),
    }
}

impl Value {
    /// The fields of `val` that the caller has to read as binary64 numbers:
    /// `Some` exactly where `val` is a range of such numbers.
    pub fn float_fields(val: &String) -> (r: Option<Vec<String>>)
        ensures
            r is Some <==> includes(val@, "..."@),
            r is Some ==> texts(r->0@) == fields(val@, "..."@),
    {
        proof {
            reveal_strlit("...");
        }
        if contains(val.as_str(), "...") {
            Some(split(val.as_str(), "..."))
        } else {
            None
        }
    }

    /// Reads a range of whole numbers.
    pub fn from_int_range(val: &String) -> (r: Result<Value, String>)
        ensures
            reads_as(r, int_range(val@)),
    {
        proof {
            reveal_strlit("..");
        }
        let f = split(val.as_str(), "..");
        assert(texts(f@).len() == f.len());
        if f.len() == 2 {
            assert(texts(f@)[0] == f@[0]@ && texts(f@)[1] == f@[1]@);
            let begin: i64 = match parse_number(f[0].as_str()) {
                Ok(n) => n,
                Err(e) => {
                    return Err(e);
                },
            };
            let end: i64 = match parse_number(f[1].as_str()) {
                Ok(n) => n,
                Err(e) => {
                    return Err(e);
                },
            };
            if begin <= end {
                Ok(Value::IntRange(begin, end, 1))
            } else {
                Err(complaint("Int-Range .. should be begin <= end: ", val.as_str()))
            }
        } else if f.len() == 3 {
            assert(texts(f@)[0] == f@[0]@ && texts(f@)[1] == f@[1]@ && texts(f@)[2] == f@[2]@);
            let begin: i64 = match parse_number(f[0].as_str()) {
                Ok(n) => n,
                Err(e) => {
                    return Err(e);
                },
            };
            let second: i64 = match parse_number(f[1].as_str()) {
                Ok(n) => n,
                Err(e) => {
                    return Err(e);
                },
            };
            let end: i64 = match parse_number(f[2].as_str()) {
                Ok(n) => n,
                Err(e) => {
                    return Err(e);
                },
            };
            let step: i128 = second as i128 - begin as i128;
            if step >= i64::MIN as i128 && step <= i64::MAX as i128 && ((step > 0 && begin <= end)
                || (step < 0 && begin >= end)) {
                Ok(Value::IntRange(begin, end, step as i64))
            } else {
                Err(complaint("Int-Range .. has strange second value...? ", val.as_str()))
            }
        } else {
            Err("Int-Range .. should have 2 or 3 fields. See document.".to_owned())
        }
    }

    /// Decides what a range of binary64 numbers is, from what the caller
    /// read off its fields.
    pub fn from_float_range(val: &String, floats: FloatReading) -> (r: Result<Value, String>)
        ensures
            reads_as(r, float_range(val@, floats@)),
    {
        proof {
            reveal_strlit("...");
        }
        let f = split(val.as_str(), "...");
        assert(texts(f@).len() == f.len());
        if f.len() == 2 {
            assert(texts(f@)[0] == f@[0]@ && texts(f@)[1] == f@[1]@);
            let begin: Float = match floats.number_at(0) {
                Some(x) => x,
                None => {
                    return Err(complaint("Cannot parse as number: ", f[0].as_str()));
                },
            };
            let end: Float = match floats.number_at(1) {
                Some(x) => x,
                None => {
                    return Err(complaint("Cannot parse as number: ", f[1].as_str()));
                },
            };
            if begin.le(&end) {
                Ok(Value::FloatRange(begin, end, floats.step, floats.points))
            } else {
                Err(complaint("Float-Range ... should be begin <= end: ", val.as_str()))
            }
        } else if f.len() == 3 {
            assert(texts(f@)[0] == f@[0]@ && texts(f@)[1] == f@[1]@ && texts(f@)[2] == f@[2]@);
            let begin: Float = match floats.number_at(0) {
                Some(x) => x,
                None => {
                    return Err(complaint("Cannot parse as number: ", f[0].as_str()));
                },
            };
            if floats.number_at(1).is_none() {
                return Err(complaint("Cannot parse as number: ", f[1].as_str()));
            }
            let end: Float = match floats.number_at(2) {
                Some(x) => x,
                None => {
                    return Err(complaint("Cannot parse as number: ", f[2].as_str()));
                },
            };
            Ok(Value::FloatRange(begin, end, floats.step, floats.points))
        } else {
            Err("Float-Range ... should have 2 or 3 fields. See document.".to_owned())
        }
    }

    /// Reads an axis expression. `floats` is what the caller read off the
    /// fields that [`Value::float_fields`] gave; it is looked at only where
    /// `val` is a range of binary64 numbers.
    pub fn from(val: &String, floats: FloatReading) -> (r: Result<Value, String>)
        ensures
            reads_as(r, axis(val@, floats@)),
    {
        proof {
            reveal_strlit("...");
            reveal_strlit("..");
            reveal_strlit(",");
        }
        if contains(val.as_str(), "...") {
            Value::from_float_range(val, floats)
        } else if contains(val.as_str(), "..") {
            Value::from_int_range(val)
        } else if contains(val.as_str(), ",") {
            Ok(Value::Choice(split(val.as_str(), ",")))
        } else {
            Ok(Value::Val(val.clone()))
        }
    }
}

/// An expression with three dots in a row is a range of binary64 numbers or
/// an error, never a range of whole numbers.
pub proof fn lemma_three_dots_first(val: Seq<char>, floats: FloatReadingView)
    requires
        includes(val, "..."@),
    ensures
        match axis(val, floats) {
            Ok(v) => v is FloatRange,
            Err(_) => true,
        },
{
}

/// Where three dots stand, two dots stand too: so three are looked for first.
pub proof fn lemma_two_dots_in_three(val: Seq<char>)
    requires
        includes(val, "..."@),
    ensures
        includes(val, ".."@),
{
    reveal_strlit("...");
    reveal_strlit("..");
    lemma_find(val, "..."@, 0);
    lemma_find(val, ".."@, 0);
    let i = find(val, "..."@, 0)->0;
    let three = val.subrange(i, i + 3);
    assert(three[0] == '.' && three[1] == '.');
    assert(val.subrange(i, i + 2) =~= ".."@);
    assert(occurs_at(val, ".."@, i));
}

/// What an expression reads as is a valid axis, and a choice read from an
/// expression has at least one text.
pub proof fn lemma_axis_valid(val: Seq<char>, floats: FloatReadingView)
    ensures
        match axis(val, floats) {
            Ok(v) => v.valid() && (v is Choice ==> v.len() >= 1),
            Err(_) => true,
        },
{
    lemma_split_nonempty(val, ","@, 0);
}

/// When a range of binary64 numbers that was read is as a range should be.
/// Read from two fields, its beginning is not above its end, and it is proper
/// exactly where the caller's step is a number other than zero; read from
/// three fields, the order of beginning and end counts too where the step is
/// above zero.
pub proof fn lemma_float_range_proper(val: Seq<char>, floats: FloatReadingView)
    requires
        float_range(val, floats) is Ok,
    ensures
        ({
            let v = float_range(val, floats)->Ok_0;
            &&& v is FloatRange
            &&& v->FloatRange_2 == floats.step
            &&& v->FloatRange_3 == floats.points
            &&& fields(val, "..."@).len() == 2 ==> v->FloatRange_0.at_most(v->FloatRange_1) && (
            v.proper() <==> !floats.step.nan() && !floats.step.zero())
            &&& fields(val, "..."@).len() != 2 ==> (v.proper() <==> !floats.step.nan()
                && !floats.step.zero() && (floats.step.positive() ==> v->FloatRange_0.at_most(
                v->FloatRange_1,
            )))
        }),
{
}

/// The expression `a..b`, with both numbers written in decimal.
pub open spec fn unit_range_text(a: int, b: int) -> Seq<char> {
    rendered(a) + ".."@ + rendered(b)
}

/// The expression `a..m..b`, with the three numbers written in decimal.
pub open spec fn range_text(a: int, m: int, b: int) -> Seq<char> {
    rendered(a) + ".."@ + rendered(m) + ".."@ + rendered(b)
}

/// The expression `a..b` has the two numbers as its fields and holds no
/// three dots in a row.
pub proof fn lemma_unit_range_fields(a: int, b: int)
    ensures
        fields(unit_range_text(a, b), ".."@) == seq![rendered(a), rendered(b)],
        includes(unit_range_text(a, b), ".."@),
        !includes(unit_range_text(a, b), "..."@),
{
    reveal_strlit("..");
    reveal_strlit("...");
    let first = rendered(a);
    let last = rendered(b);
    lemma_rendered(a);
    lemma_rendered(b);
    let text = unit_range_text(a, b);
    let p = first.len() as int;
    let q = p + 2;
    let len = text.len() as int;
    assert(len == q + last.len());
    assert forall|k: int| 0 <= k < len implies #[trigger] text[k] == (if k < p {
        first[k]
    } else if k < q {
        '.'
    } else {
        last[k - q]
    }) by {}
    assert(text.subrange(p, p + 2) =~= ".."@);
    lemma_find_at(text, ".."@, 0, p);
    lemma_find_none(text, ".."@, q);
    assert(split_from(text, ".."@, q) == seq![text.subrange(q, len)]);
    assert(split_from(text, ".."@, 0) == seq![text.subrange(0, p)] + split_from(text, ".."@, q));
    assert(text.subrange(0, p) =~= first);
    assert(text.subrange(q, len) =~= last);
    assert(fields(text, ".."@) =~= seq![first, last]);
    lemma_find(text, "..."@, 0);
    if find(text, "..."@, 0) is Some {
        let i = find(text, "..."@, 0)->0;
        let dots = text.subrange(i, i + 3);
        assert(dots[0] == text[i] && dots[1] == text[i + 1] && dots[2] == text[i + 2]);
    }
}

/// The expression `a..m..b` has the three numbers as its fields and holds no
/// three dots in a row.
pub proof fn lemma_range_fields(a: int, m: int, b: int)
    ensures
        fields(range_text(a, m, b), ".."@) == seq![rendered(a), rendered(m), rendered(b)],
        includes(range_text(a, m, b), ".."@),
        !includes(range_text(a, m, b), "..."@),
{
    reveal_strlit("..");
    reveal_strlit("...");
    let first = rendered(a);
    let second = rendered(m);
    let last = rendered(b);
    lemma_rendered(a);
    lemma_rendered(m);
    lemma_rendered(b);
    let text = range_text(a, m, b);
    let cut_a = first.len() as int;
    let from_m = cut_a + 2;
    let cut_m = from_m + second.len();
    let from_b = cut_m + 2;
    let len = text.len() as int;
    assert(len == from_b + last.len());
    assert forall|k: int| 0 <= k < len implies #[trigger] text[k] == (if k < cut_a {
        first[k]
    } else if k < from_m {
        '.'
    } else if k < cut_m {
        second[k - from_m]
    } else if k < from_b {
        '.'
    } else {
        last[k - from_b]
    }) by {}
    assert(text.subrange(cut_a, cut_a + 2) =~= ".."@);
    assert(text.subrange(cut_m, cut_m + 2) =~= ".."@);
    lemma_find_at(text, ".."@, 0, cut_a);
    lemma_find_at(text, ".."@, from_m, cut_m);
    lemma_find_none(text, ".."@, from_b);
    assert(split_from(text, ".."@, from_b) == seq![text.subrange(from_b, len)]);
    assert(split_from(text, ".."@, from_m) == seq![text.subrange(from_m, cut_m)] + split_from(
        text,
        ".."@,
        from_b,
    ));
    assert(split_from(text, ".."@, 0) == seq![text.subrange(0, cut_a)] + split_from(
        text,
        ".."@,
        from_m,
    ));
    assert(text.subrange(0, cut_a) =~= first);
    assert(text.subrange(from_m, cut_m) =~= second);
    assert(text.subrange(from_b, len) =~= last);
    assert(fields(text, ".."@) =~= seq![first, second, last]);
    lemma_find(text, "..."@, 0);
    if find(text, "..."@, 0) is Some {
        let i = find(text, "..."@, 0)->0;
        let dots = text.subrange(i, i + 3);
        assert(dots[0] == text[i] && dots[1] == text[i + 1] && dots[2] == text[i + 2]);
    }
}

/// The expression `a..b` reads as the whole numbers from `a` to `b` where
/// `a` is not above `b`, and as an error where it is.
pub proof fn lemma_written_unit_range(a: int, b: int, floats: FloatReadingView)
    requires
        i64::MIN <= a <= i64::MAX,
        i64::MIN <= b <= i64::MAX,
    ensures
        axis(unit_range_text(a, b), floats) == if a <= b {
            Ok::<ValueView, Seq<char>>(ValueView::IntRange(a, b, 1))
        } else {
            Err::<ValueView, Seq<char>>(
                "Int-Range .. should be begin <= end: "@ + quoted(unit_range_text(a, b)),
            )
        },
{
    lemma_unit_range_fields(a, b);
    lemma_rendered(a);
    lemma_rendered(b);
}

/// The expression `a..m..b` reads as the whole numbers from `a` towards `b`
/// with the step `m - a`, where that step fits and leads from `a` towards
/// `b`, and as an error where it does not.
pub proof fn lemma_written_range(a: int, m: int, b: int, floats: FloatReadingView)
    requires
        i64::MIN <= a <= i64::MAX,
        i64::MIN <= m <= i64::MAX,
        i64::MIN <= b <= i64::MAX,
    ensures
        axis(range_text(a, m, b), floats) == if i64::MIN <= m - a <= i64::MAX
            && ValueView::IntRange(a, b, m - a).valid() {
            Ok::<ValueView, Seq<char>>(ValueView::IntRange(a, b, m - a))
        } else {
            Err::<ValueView, Seq<char>>(
                "Int-Range .. has strange second value...? "@ + quoted(range_text(a, m, b)),
            )
        },
{
    lemma_range_fields(a, m, b);
    lemma_rendered(a);
    lemma_rendered(m);
    lemma_rendered(b);
}

/// The values of the axis that `a..m..b` reads as begin with `a`, and each
/// is `m - a` more than the one before it.
pub proof fn lemma_written_range_steps(a: int, m: int, b: int, floats: FloatReadingView, i: int)
    requires
        i64::MIN <= a <= i64::MAX,
        i64::MIN <= m <= i64::MAX,
        i64::MIN <= b <= i64::MAX,
        axis(range_text(a, m, b), floats) is Ok,
    ensures
        ({
            let v = axis(range_text(a, m, b), floats)->Ok_0;
            &&& v.valid()
            &&& v.index(0) == ValueView::Int(a)
            &&& v.index(i + 1)->Int_0 - v.index(i)->Int_0 == m - a
        }),
{
    lemma_written_range(a, m, b, floats);
    let v = ValueView::IntRange(a, b, m - a);
    lemma_range_difference(v, i);
    assert((m - a) * 0 == 0);
}

} // verus!
