//! Differential evolution: crossing a target vector with a mutant.
//!
//! The mutant `a + F * (b - c)` is binary64 arithmetic and is computed by the
//! caller, as are the draws from `[0, 1)`. The library decides, place by
//! place, whether the trial vector inherits from the target or crosses, and
//! what a crossed place holds.

use crate::float::{lemma_clipped_within, Float};
use crate::map::{conforms, named, within, AxisMap, Param, ParamView};
use crate::value::{Value, ValueView};
use vstd::prelude::*;

verus! {

/// `x` raised to `min`, then lowered to `max`.
pub open spec fn clipped(x: int, min: int, max: int) -> int {
    let raised = if x < min {
        min
    } else {
        x
    };
    if raised > max {
        max
    } else {
        raised
    }
}

/// Clips `x` into `[min, max]`.
pub fn clip(x: i64, min: i64, max: i64) -> (r: i64)
    ensures
        r == clipped(x as int, min as int, max as int),
{
    let x = if x < min {
        min
    } else {
        x
    };
    if x > max {
        max
    } else {
        x
    }
}

/// Whether place `p` crosses: it is the forced place, or its draw does not
/// exceed the crossover rate.
pub open spec fn crosses(p: int, forced: Option<usize>, draws: Seq<Float>, cr: Float) -> bool {
    (forced is Some && forced->0 == p) || !cr.below(draws[p])
}

/// What a crossed place holds: the axis's own value where it has only one,
/// the clipped mutant on a range, and `a`'s entry on a choice.
pub open spec fn crossed(
    axis: (Seq<char>, ValueView),
    a: (Seq<char>, ValueView),
    mutant: ValueView,
) -> (Seq<char>, ValueView) {
    match axis.1 {
        ValueView::Val(_) | ValueView::Int(_) | ValueView::Float(_) => axis,
        ValueView::IntRange(begin, end, _) => (
            axis.0,
            ValueView::Int(clipped(mutant->Int_0, begin, end)),
        ),
        ValueView::FloatRange(begin, end, _, _) => (
            axis.0,
            ValueView::Float(mutant->Float_0.clipped(begin, end)),
        ),
        ValueView::Choice(_) => a,
    }
}

/// Whether the mutant has, at a place, the kind of number that the axis
/// there asks for.
pub open spec fn fits(axis: ValueView, mutant: ValueView) -> bool {
    match axis {
        ValueView::IntRange(_, _, _) => mutant is Int && i64::MIN <= mutant->Int_0 <= i64::MAX,
        ValueView::FloatRange(_, _, _, _) => mutant is Float,
        _ => true,
    }
}

/// The trial vector.
pub open spec fn trial(
    x: ParamView,
    a: ParamView,
    mutant: Seq<ValueView>,
    axes: ParamView,
    cr: Float,
    draws: Seq<Float>,
    forced: Option<usize>,
) -> ParamView {
    Seq::new(
        axes.len(),
        |p: int|
            if crosses(p, forced, draws, cr) {
                crossed(axes[p], a[p], mutant[p])
            } else {
                x[p]
            },
    )
}

/// The models of a list of values.
pub open spec fn values(v: Seq<Value>) -> Seq<ValueView> {
    Seq::new(v.len(), |i: int| v[i]@)
}

/// Crosses the target `x` with a mutant.
///
/// `a` is the first of the three vectors that the mutant was made from,
/// `mutant` holds for each range of the map the number `a + F * (b - c)`
/// (rounded, on a range of whole numbers) and anything elsewhere, `draws`
/// holds one draw from `[0, 1)` for each axis, and `forced`, if any, is a
/// place that crosses whatever its draw.
pub fn cross(
    x: &Param,
    a: &Param,
    mutant: &Vec<Value>,
    map: &AxisMap,
    cr: Float,
    draws: &Vec<Float>,
    forced: Option<usize>,
) -> (z: Param)
    requires
        x@.len() == map@.len(),
        a@.len() == map@.len(),
        mutant@.len() == map@.len(),
        draws@.len() == map@.len(),
        forall|p: int|
            0 <= p < map@.len() && crosses(p, forced, draws@, cr) ==> fits(
                (#[trigger] map@[p]).1,
                mutant@[p]@,
            ),
    ensures
        named(z@) == trial(named(x@), named(a@), values(mutant@), map@, cr, draws@, forced),
{
    let n: usize = map.data.len();
    let mut z: Param = Vec::new();
    let mut p: usize = 0;
    let ghost want = trial(named(x@), named(a@), values(mutant@), map@, cr, draws@, forced);
    while p < n
        invariant
            p <= n == map.data.len(),
            x@.len() == n,
            a@.len() == n,
            mutant@.len() == n,
            draws@.len() == n,
            map@.len() == n,
            z.len() == p,
            want == trial(named(x@), named(a@), values(mutant@), map@, cr, draws@, forced),
            forall|q: int|
                0 <= q < n && crosses(q, forced, draws@, cr) ==> fits(
                    (#[trigger] map@[q]).1,
                    mutant@[q]@,
                ),
            forall|q: int| 0 <= q < p ==> named(z@)[q] == want[q],
        decreases n - p,
    {
        let ghost before = named(z@);
        let is_forced: bool = match forced {
            Some(f) => f == p,
            None => false,
        };
        let entry: (String, Value) = if !is_forced && draws[p].gt(&cr) {
            (x[p].0.clone(), x[p].1.copy())
        } else {
            assert(crosses(p as int, forced, draws@, cr));
            let key = &map.data[p].0;
            let val = &map.data[p].1;
            assert(map@[p as int] == (key@, val@));
            assert(values(mutant@)[p as int] == mutant@[p as int]@);
            match val {
                Value::Val(_) | Value::Int(_) | Value::Float(_) => (key.clone(), val.copy()),
                Value::IntRange(begin, end, _) => {
                    match &mutant[p] {
                        Value::Int(m) => (key.clone(), Value::Int(clip(*m, *begin, *end))),
                        _ => (key.clone(), val.copy()),
                    }
                },
                Value::FloatRange(begin, end, _, _) => {
                    match &mutant[p] {
                        Value::Float(m) => (key.clone(), Value::Float(m.clip(*begin, *end))),
                        _ => (key.clone(), val.copy()),
                    }
                },
                Value::Choice(_) => (a[p].0.clone(), a[p].1.copy()),
            }
        };
        assert((entry.0@, entry.1@) == want[p as int]);
        z.push(entry);
        assert forall|q: int| 0 <= q < p + 1 implies named(z@)[q] == want[q] by {
            if q < p {
                assert(named(z@)[q] == before[q]);
            }
        }
        p += 1;
    }
    assert(named(z@) =~= want);
    z
}

/// A place that holds a single value or a choice takes, in the trial vector,
/// the target's entry, the axis's own value, or the entry of `a`.
pub proof fn lemma_trial_elsewhere(
    x: ParamView,
    a: ParamView,
    mutant: Seq<ValueView>,
    axes: ParamView,
    cr: Float,
    draws: Seq<Float>,
    forced: Option<usize>,
    p: int,
)
    requires
        0 <= p < axes.len(),
        !(axes[p].1 is IntRange),
        !(axes[p].1 is FloatRange),
    ensures
        ({
            let z = trial(x, a, mutant, axes, cr, draws, forced);
            z[p] == x[p] || (axes[p].1.scalar() && z[p] == axes[p]) || (axes[p].1 is Choice
                && z[p] == a[p])
        }),
{
}

/// On a range of whole numbers whose bounds are in order, the trial vector
/// holds the target's entry or a whole number within the bounds.
pub proof fn lemma_trial_int_range(
    x: ParamView,
    a: ParamView,
    mutant: Seq<ValueView>,
    axes: ParamView,
    cr: Float,
    draws: Seq<Float>,
    forced: Option<usize>,
    p: int,
)
    requires
        0 <= p < axes.len(),
        axes[p].1 is IntRange,
        axes[p].1->IntRange_0 <= axes[p].1->IntRange_1,
    ensures
        ({
            let z = trial(x, a, mutant, axes, cr, draws, forced);
            z[p] == x[p] || (z[p].0 == axes[p].0 && z[p].1 is Int && axes[p].1->IntRange_0
                <= z[p].1->Int_0 <= axes[p].1->IntRange_1)
        }),
{
}

/// On a range of binary64 numbers whose bounds are in order, the trial vector
/// holds the target's entry or, where the mutant is a number, a number within
/// the bounds.
pub proof fn lemma_trial_float_range(
    x: ParamView,
    a: ParamView,
    mutant: Seq<ValueView>,
    axes: ParamView,
    cr: Float,
    draws: Seq<Float>,
    forced: Option<usize>,
    p: int,
)
    requires
        0 <= p < axes.len(),
        axes[p].1 is FloatRange,
        axes[p].1->FloatRange_0.at_most(axes[p].1->FloatRange_1),
        !mutant[p]->Float_0.nan(),
    ensures
        ({
            let z = trial(x, a, mutant, axes, cr, draws, forced);
            z[p] == x[p] || (z[p].0 == axes[p].0 && z[p].1 is Float
                && axes[p].1->FloatRange_0.at_most(z[p].1->Float_0) && z[p].1->Float_0.at_most(
                axes[p].1->FloatRange_1,
            ))
        }),
{
    lemma_clipped_within(mutant[p]->Float_0, axes[p].1->FloatRange_0, axes[p].1->FloatRange_1);
}

/// Where every draw exceeds the crossover rate and no place is forced, the
/// trial vector is the target.
pub proof fn lemma_trial_inherits(
    x: ParamView,
    a: ParamView,
    mutant: Seq<ValueView>,
    axes: ParamView,
    cr: Float,
    draws: Seq<Float>,
)
    requires
        x.len() == axes.len(),
        forall|p: int| 0 <= p < axes.len() ==> cr.below(#[trigger] draws[p]),
    ensures
        trial(x, a, mutant, axes, cr, draws, None) == x,
{
    assert(trial(x, a, mutant, axes, cr, draws, None) =~= x);
}

/// Where no draw exceeds the crossover rate, every place crosses.
pub proof fn lemma_trial_blends(
    x: ParamView,
    a: ParamView,
    mutant: Seq<ValueView>,
    axes: ParamView,
    cr: Float,
    draws: Seq<Float>,
    forced: Option<usize>,
    p: int,
)
    requires
        0 <= p < axes.len(),
        forall|q: int| 0 <= q < axes.len() ==> !cr.below(#[trigger] draws[q]),
    ensures
        trial(x, a, mutant, axes, cr, draws, forced)[p] == crossed(axes[p], a[p], mutant[p]),
{
}

/// A trial vector made from vectors that hold values of the axes holds
/// values of the axes: no place leaves its axis.
pub proof fn lemma_trial_conforms(
    x: ParamView,
    a: ParamView,
    mutant: Seq<ValueView>,
    axes: ParamView,
    cr: Float,
    draws: Seq<Float>,
    forced: Option<usize>,
)
    requires
        conforms(x, axes),
        conforms(a, axes),
        forall|p: int| 0 <= p < axes.len() ==> fits((#[trigger] axes[p]).1, mutant[p]),
    ensures
        conforms(trial(x, a, mutant, axes, cr, draws, forced), axes),
{
    let z = trial(x, a, mutant, axes, cr, draws, forced);
    assert forall|p: int| 0 <= p < axes.len() implies (#[trigger] z[p]).0 == axes[p].0 && within(
        axes[p].1,
        z[p].1,
    ) by {
        assert(x[p].0 == axes[p].0 && within(axes[p].1, x[p].1));
        assert(a[p].0 == axes[p].0 && within(axes[p].1, a[p].1));
        assert(fits(axes[p].1, mutant[p]));
    }
}

} // verus!
