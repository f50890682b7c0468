//! Matching the arguments of a logged run against a pattern.
//!
//! A pattern is a map: a single value asks for that value, a choice for one
//! of its texts, a range for a number within its bounds. The run's arguments
//! are a map too; where a name stands twice in it, the last entry counts.

use crate::float::Float;
use crate::map::{AxisMap, ParamView};
use crate::number::{parse_i64, signed64};
use crate::value::{Value, ValueView};
use vstd::prelude::*;

verus! {

/// The value under `key`: that of the last entry with this name.
pub open spec fn lookup(axes: ParamView, key: Seq<char>) -> Option<ValueView>
    decreases axes.len(),
{
    if axes.len() == 0 {
        None
    } else if axes.last().0 == key {
        Some(axes.last().1)
    } else {
        lookup(axes.drop_last(), key)
    }
}

/// The number of place `i` of `numbers`, where there is one.
pub open spec fn number_at(numbers: Seq<Option<Float>>, i: int) -> Option<Float> {
    if 0 <= i < numbers.len() {
        numbers[i]
    } else {
        None
    }
}

/// Whether what was found under a name meets the pattern for that name.
/// `number` is the binary64 number that the found text writes, if it writes
/// one; it counts only where a range of such numbers meets a text.
pub open spec fn agrees(pattern: ValueView, found: Option<ValueView>, number: Option<Float>)
    -> bool {
    match pattern {
        ValueView::Val(x) => found == Some(ValueView::Val(x)),
        ValueView::Int(x) => found == Some(ValueView::Int(x)),
        ValueView::Float(x) => match found {
            Some(ValueView::Float(y)) => x.same_number(y),
            _ => false,
        },
        ValueView::IntRange(begin, end, _) => match found {
            Some(ValueView::Int(x)) => begin <= x <= end,
            Some(ValueView::Val(t)) => match signed64(t) {
                Some(x) => begin <= x <= end,
                None => false,
            },
            _ => false,
        },
        ValueView::FloatRange(begin, end, _, _) => match found {
            Some(ValueView::Float(x)) => begin.at_most(x) && x.at_most(end),
            Some(ValueView::Val(_)) => match number {
                Some(x) => begin.at_most(x) && x.at_most(end),
                None => false,
            },
            _ => false,
        },
        ValueView::Choice(xs) => match found {
            Some(ValueView::Val(z)) => xs.contains(z),
            _ => false,
        },
    }
}

/// Whether the first `n` entries of the pattern are met.
pub open spec fn met(pattern: ParamView, run: ParamView, numbers: Seq<Option<Float>>, n: int)
    -> bool {
    forall|i: int|
        0 <= i < n ==> agrees(
            (#[trigger] pattern[i]).1,
            lookup(run, pattern[i].0),
            number_at(numbers, i),
        )
}

/// The text that the caller has to read as a binary64 number for entry `i`
/// of the pattern: the text found under the entry's name, where the entry is
/// a range of such numbers.
pub open spec fn float_text(pattern: ParamView, run: ParamView, i: int) -> Option<Seq<char>> {
    match (pattern[i].1, lookup(run, pattern[i].0)) {
        (ValueView::FloatRange(_, _, _, _), Some(ValueView::Val(t))) => Some(t),
        _ => None,
    }
}

impl AxisMap {
    /// The value under `key`: that of the last entry with this name.
    pub fn get(&self, key: &String) -> (r: Option<&Value>)
        ensures
            match r {
                Some(v) => lookup(self@, key@) == Some(v@),
                None => lookup(self@, key@) is None,
            },
    {
        let mut i: usize = self.data.len();
        assert(self@.take(i as int) =~= self@);
        while i > 0
            invariant
                i <= self.data.len(),
                lookup(self@, key@) == lookup(self@.take(i as int), key@),
            decreases i,
        {
            assert(self@.take(i as int).last() == self@[i - 1]);
            assert(self@.take(i as int).drop_last() =~= self@.take(i - 1));
            if self.data[i - 1].0 == *key {
                return Some(&self.data[i - 1].1);
            }
            i -= 1;
        }
        None
    }
}

/// Whether a text is among the texts of a choice.
fn among(xs: &Vec<String>, z: &String) -> (r: bool)
    ensures
        r == crate::text::texts(xs@).contains(z@),
{
    let mut i: usize = 0;
    while i < xs.len()
        invariant
            i <= xs.len(),
            forall|j: int| 0 <= j < i ==> xs@[j]@ != z@,
        decreases xs.len() - i,
    {
        if xs[i] == *z {
            assert(crate::text::texts(xs@)[i as int] == z@);
            return true;
        }
        i += 1;
    }
    assert forall|j: int| 0 <= j < crate::text::texts(xs@).len() implies crate::text::texts(
        xs@,
    )[j] != z@ by {
        assert(crate::text::texts(xs@)[j] == xs@[j]@);
    }
    false
}

/// Whether what was found under a name meets the pattern for that name.
pub fn value_match(pattern: &Value, found: Option<&Value>, number: Option<Float>) -> (r: bool)
    ensures
        r == agrees(
            pattern@,
            match found {
                Some(v) => Some(v@),
                None => None,
            },
            number,
        ),
{
    match pattern {
        Value::Val(x) => match found {
            Some(Value::Val(y)) => *x == *y,
            _ => false,
        },
        Value::Int(x) => match found {
            Some(Value::Int(y)) => *x == *y,
            _ => false,
        },
        Value::Float(x) => match found {
            Some(Value::Float(y)) => x.le(y) && y.le(x),
            _ => false,
        },
        Value::IntRange(begin, end, _) => match found {
            Some(Value::Int(x)) => *begin <= *x && *x <= *end,
            Some(Value::Val(t)) => match parse_i64(t.as_str()) {
                Some(x) => *begin <= x && x <= *end,
                None => false,
            },
            _ => false,
        },
        Value::FloatRange(begin, end, _, _) => match found {
            Some(Value::Float(x)) => begin.le(x) && x.le(end),
            Some(Value::Val(_)) => match number {
                Some(x) => begin.le(&x) && x.le(end),
                None => false,
            },
            _ => false,
        },
        Value::Choice(xs) => match found {
            Some(Value::Val(z)) => among(xs, z),
            _ => false,
        },
    }
}

/// For each entry of the pattern, the text that the caller has to read as a
/// binary64 number before [`map_match`] is called.
pub fn float_texts(pattern: &AxisMap, refmap: &AxisMap) -> (r: Vec<Option<String>>)
    ensures
        r@.len() == pattern@.len(),
        forall|i: int|
            0 <= i < r@.len() ==> crate::options::text_of(#[trigger] r@[i]) == float_text(
                pattern@,
                refmap@,
                i,
            ),
{
    let mut r: Vec<Option<String>> = Vec::new();
    let mut i: usize = 0;
    while i < pattern.data.len()
        invariant
            i <= pattern.data.len(),
            r@.len() == i,
            forall|j: int|
                0 <= j < i ==> crate::options::text_of(#[trigger] r@[j]) == float_text(
                    pattern@,
                    refmap@,
                    j,
                ),
        decreases pattern.data.len() - i,
    {
        let ghost before = r@;
        assert(pattern@[i as int] == (pattern.data@[i as int].0@, pattern.data@[i as int].1@));
        let entry: Option<String> = match (&pattern.data[i].1, refmap.get(&pattern.data[i].0)) {
            (Value::FloatRange(_, _, _, _), Some(Value::Val(t))) => Some(t.clone()),
            _ => None,
        };
        r.push(entry);
        assert forall|j: int| 0 <= j < i + 1 implies crate::options::text_of(#[trigger] r@[j])
            == float_text(pattern@, refmap@, j) by {
            if j < i {
                assert(r@[j] == before[j]);
            }
        }
        i += 1;
    }
    r
}

/// Whether the arguments of a run meet every entry of the pattern.
/// `numbers[i]` is the binary64 number that the text of
/// [`float_texts`] for entry `i` writes, if it writes one.
pub fn map_match(pattern: &AxisMap, refmap: &AxisMap, numbers: &Vec<Option<Float>>) -> (r: bool)
    ensures
        r == met(pattern@, refmap@, numbers@, pattern@.len() as int),
{
    let mut i: usize = 0;
    while i < pattern.data.len()
        invariant
            i <= pattern.data.len(),
            met(pattern@, refmap@, numbers@, i as int),
        decreases pattern.data.len() - i,
    {
        assert(pattern@[i as int] == (pattern.data@[i as int].0@, pattern.data@[i as int].1@));
        let number: Option<Float> = if i < numbers.len() {
            numbers[i]
        } else {
            None
        };
        if !value_match(&pattern.data[i].1, refmap.get(&pattern.data[i].0), number) {
            return false;
        }
        i += 1;
    }
    true
}

} // verus!
