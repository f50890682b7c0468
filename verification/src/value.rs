//! The values of one axis.
//!
//! An axis is a single value, a choice of texts, or a range of whole or of
//! binary64 numbers. Its view gives texts as sequences of characters and whole
//! numbers as mathematical integers; every contract here is stated over it.

use crate::float::Float;
use crate::text::texts;
use vstd::prelude::*;

verus! {

/// The values of one axis.
#[derive(Debug, Clone, PartialEq)]
pub enum Value {
    /// A text, passed on as it stands.
    Val(String),
    /// A whole number.
    Int(i64),
    /// A binary64 number.
    Float(Float),
    /// A choice among texts.
    Choice(Vec<String>),
    /// The whole numbers from `begin` towards `end`, `step` apart.
    IntRange(i64, i64, i64),
    /// The binary64 numbers from `begin` towards `end`, `step` apart, and the
    /// points of the range in order. The points are computed by whoever
    /// builds the range: the library only counts and hands them out.
    FloatRange(Float, Float, Float, Vec<Float>),
}

/// The mathematical model of a [`Value`].
pub enum ValueView {
    Val(Seq<char>),
    Int(int),
    Float(Float),
    Choice(Seq<Seq<char>>),
    IntRange(int, int, int),
    FloatRange(Float, Float, Float, Seq<Float>),
}

impl View for Value {
    type V = ValueView;

    open spec fn view(&self) -> ValueView {
        match *self {
            Value::Val(s) => ValueView::Val(s@),
            Value::Int(x) => ValueView::Int(x as int),
            Value::Float(x) => ValueView::Float(x),
            Value::Choice(xs) => ValueView::Choice(texts(xs@)),
            Value::IntRange(begin, end, step) => ValueView::IntRange(
                begin as int,
                end as int,
                step as int,
            ),
            Value::FloatRange(begin, end, step, points) => ValueView::FloatRange(
                begin,
                end,
                step,
                points@,
            ),
        }
    }
}

impl ValueView {
    /// Whether this is a single value: a text or a number.
    pub open spec fn scalar(self) -> bool {
        self is Val || self is Int || self is Float
    }

    /// Whether a range of whole numbers has a step that leads from its
    /// beginning towards its end. Every other axis is valid.
    pub open spec fn valid(self) -> bool {
        match self {
            ValueView::IntRange(begin, end, step) => (step > 0 && begin <= end) || (step < 0
                && begin >= end),
            _ => true,
        }
    }

    /// Whether a range is as a range should be: a range of whole numbers is
    /// valid, and a range of binary64 numbers has a step that is a number
    /// other than zero, and a beginning that is not above its end where the
    /// step is above zero. Every other axis is proper.
    pub open spec fn proper(self) -> bool {
        match self {
            ValueView::FloatRange(begin, end, step, _) => !step.nan() && !step.zero() && (
            step.positive() ==> begin.at_most(end)),
            _ => self.valid(),
        }
    }

    /// How many values the axis has.
    pub open spec fn len(self) -> nat {
        match self {
            ValueView::Val(_) | ValueView::Int(_) | ValueView::Float(_) => 1,
            ValueView::Choice(xs) => xs.len(),
            ValueView::IntRange(begin, end, step) => if step > 0 && begin <= end {
                ((end - begin) / step + 1) as nat
            } else if step < 0 && begin >= end {
                ((begin - end) / (-step) + 1) as nat
            } else {
                0
            },
            ValueView::FloatRange(_, _, _, points) => points.len(),
        }
    }

    /// The value at place `i` of the axis.
    pub open spec fn index(self, i: int) -> ValueView {
        match self {
            ValueView::Val(_) | ValueView::Int(_) | ValueView::Float(_) => self,
            ValueView::Choice(xs) => ValueView::Val(xs[i]),
            ValueView::IntRange(begin, _, step) => ValueView::Int(begin + step * i),
            ValueView::FloatRange(_, _, _, points) => ValueView::Float(points[i]),
        }
    }
}

/// A copy of a list of strings.
pub fn copy_strings(v: &Vec<String>) -> (r: Vec<String>)
    ensures
        texts(r@) == texts(v@),
{
    let mut r: Vec<String> = Vec::new();
    let mut i: usize = 0;
    while i < v.len()
        invariant
            i <= v.len(),
            r.len() == i,
            forall|j: int| 0 <= j < i ==> r@[j]@ == v@[j]@,
        decreases v.len() - i,
    {
        r.push(v[i].clone());
        i += 1;
    }
    assert(texts(r@) =~= texts(v@));
    r
}

/// A copy of a list of numbers.
pub fn copy_floats(v: &Vec<Float>) -> (r: Vec<Float>)
    ensures
        r@ == v@,
{
    let mut r: Vec<Float> = Vec::new();
    let mut i: usize = 0;
    while i < v.len()
        invariant
            i <= v.len(),
            r@ == v@.subrange(0, i as int),
        decreases v.len() - i,
    {
        r.push(v[i]);
        i += 1;
        assert(r@ =~= v@.subrange(0, i as int));
    }
    assert(v@.subrange(0, v.len() as int) =~= v@);
    r
}

impl Value {
    /// A copy of the axis.
    pub fn copy(&self) -> (r: Value)
        ensures
            r@ == self@,
    {
        match self {
            Value::Val(s) => Value::Val(s.clone()),
            Value::Int(x) => Value::Int(*x),
            Value::Float(x) => Value::Float(*x),
            Value::Choice(xs) => Value::Choice(copy_strings(xs)),
            Value::IntRange(begin, end, step) => Value::IntRange(*begin, *end, *step),
            Value::FloatRange(begin, end, step, points) => Value::FloatRange(
                *begin,
                *end,
                *step,
                copy_floats(points),
            ),
        }
    }

    /// Whether a range is as a range should be.
    pub fn is_proper(&self) -> (r: bool)
        ensures
            r == self@.proper(),
    {
        match self {
            Value::IntRange(begin, end, step) => (*step > 0 && *begin <= *end) || (*step < 0
                && *begin >= *end),
            Value::FloatRange(begin, end, step, _) => !step.is_nan() && !step.is_zero() && (
            !step.is_positive() || begin.le(end)),
            _ => true,
        }
    }

    /// How many values the axis has, where the axis is valid and the count
    /// fits in a `usize`.
    pub fn count(&self) -> (r: Option<usize>)
        ensures
            r is Some <==> self@.valid() && self@.len() <= usize::MAX,
            r is Some ==> r->0 == self@.len(),
    {
        match self {
            Value::Val(_) | Value::Int(_) | Value::Float(_) => Some(1),
            Value::Choice(xs) => {
                Some(xs.len())
            },
            Value::IntRange(begin, end, step) => {
                let b: i128 = *begin as i128;
                let e: i128 = *end as i128;
                let s: i128 = *step as i128;
                let n: i128 = if s > 0 && b <= e {
                    (e - b) / s + 1
                } else if s < 0 && b >= e {
                    (b - e) / (-s) + 1
                } else {
                    return None;
                };
                assert(n >= 1) by (nonlinear_arith)
                    requires
                        n == if s > 0 {
                            (e - b) / (s as int) + 1
                        } else {
                            (b - e) / (-s) + 1
                        },
                        (s > 0 && b <= e) || (s < 0 && b >= e),
                ;
                if n > usize::MAX as i128 {
                    None
                } else {
                    Some(n as usize)
                }
            },
            Value::FloatRange(_, _, _, points) => Some(points.len()),
        }
    }

    /// How many values the axis has.
    pub fn len(&self) -> (r: usize)
        requires
            self@.valid(),
            self@.len() <= usize::MAX,
        ensures
            r == self@.len(),
    {
        match self.count() {
            Some(n) => n,
            None => 0,
        }
    }

    /// The value at place `i` of the axis.
    pub fn index(&self, i: usize) -> (r: Value)
        requires
            self@.valid(),
            i < self@.len(),
        ensures
            r@ == self@.index(i as int),
    {
        match self {
            Value::Val(_) | Value::Int(_) | Value::Float(_) => self.copy(),
            Value::Choice(xs) => Value::Val(xs[i].clone()),
            Value::IntRange(begin, end, step) => {
                proof {
                    lemma_range_point(self@, i as int);
                }
                let x: i128 = *begin as i128 + *step as i128 * (i as i128);
                Value::Int(x as i64)
            },
            Value::FloatRange(_, _, _, points) => Value::Float(points[i]),
        }
    }
}

/// A point of a valid range of whole numbers lies between its beginning and
/// its end.
pub proof fn lemma_range_point(v: ValueView, i: int)
    requires
        v is IntRange,
        v.valid(),
        0 <= i < v.len(),
    ensures
        v->IntRange_2 > 0 ==> v->IntRange_0 <= v->IntRange_0 + v->IntRange_2 * i <= v->IntRange_1,
        v->IntRange_2 < 0 ==> v->IntRange_1 <= v->IntRange_0 + v->IntRange_2 * i <= v->IntRange_0,
{
    let begin = v->IntRange_0;
    let end = v->IntRange_1;
    let step = v->IntRange_2;
    if step > 0 {
        assert(0 <= step * i <= end - begin) by (nonlinear_arith)
            requires
                step > 0,
                0 <= i,
                i < (end - begin) / step + 1,
                begin <= end,
        ;
    } else {
        assert(0 <= (-step) * i <= begin - end) by (nonlinear_arith)
            requires
                step < 0,
                0 <= i,
                i < (begin - end) / (-step) + 1,
                begin >= end,
        ;
        assert(step * i == -((-step) * i)) by (nonlinear_arith);
    }
}

/// Every value of a valid axis is a single value: a text of the choice, a
/// point of the range. A whole number of a range lies between the range's
/// beginning and its end.
pub proof fn lemma_index_scalar(v: ValueView, i: int)
    requires
        v.valid(),
        0 <= i < v.len(),
    ensures
        v.index(i).scalar(),
        v.scalar() ==> v.index(i) == v,
        v is Choice ==> v.index(i) is Val && v->Choice_0.contains(v.index(i)->Val_0),
        v is IntRange ==> v.index(i) is Int && {
            let x = v.index(i)->Int_0;
            (v->IntRange_0 <= x <= v->IntRange_1) || (v->IntRange_1 <= x <= v->IntRange_0)
        },
        v is FloatRange ==> v.index(i) is Float && v->FloatRange_3.contains(
            v.index(i)->Float_0,
        ),
{
    if v is IntRange {
        lemma_range_point(v, i);
    }
}

/// A range of whole numbers with step one, from `a` to `b`, has `b - a + 1`
/// values.
pub proof fn lemma_unit_range_len(a: int, b: int)
    requires
        a <= b,
    ensures
        ValueView::IntRange(a, b, 1).len() == b - a + 1,
{
}

/// Two neighbours in a range of whole numbers differ by the step.
pub proof fn lemma_range_difference(v: ValueView, i: int)
    requires
        v is IntRange,
    ensures
        v.index(i + 1)->Int_0 - v.index(i)->Int_0 == v->IntRange_2,
{
    let step = v->IntRange_2;
    assert(step * (i + 1) == step * i + step) by (nonlinear_arith);
}

} // verus!
