//! The product of the axes.
//!
//! A map is a list of named axes. Its vectors are numbered from zero: the
//! number is read in a mixed radix, the first axis being the lowest place,
//! so that the first axis changes fastest.

use crate::chance::uniform_below;
use crate::message::{complaint, quoted};
use crate::read::{axis, FloatReading, FloatReadingView};
use crate::text::{cut, fields, halves, includes, texts};
use crate::value::{lemma_index_scalar, Value, ValueView};
use vstd::prelude::*;
use vstd::string::*;

verus! {

/// One value for each axis, under the axis's name.
pub type Param = Vec<(String, Value)>;

/// The mathematical model of a list of named values.
pub type ParamView = Seq<(Seq<char>, ValueView)>;

/// The model of a list of named values.
pub open spec fn named(p: Seq<(String, Value)>) -> ParamView {
    Seq::new(p.len(), |i: int| (p[i].0@, p[i].1@))
}

/// Whether every axis is valid and has at least one value, and at most as
/// many as a `usize` holds.
pub open spec fn walkable(axes: ParamView) -> bool {
    forall|k: int|
        0 <= k < axes.len() ==> (#[trigger] axes[k]).1.valid() && 0 < axes[k].1.len()
            <= usize::MAX
}

/// Whether every axis is valid and has at most as many values as a `usize`
/// holds.
pub open spec fn countable(axes: ParamView) -> bool {
    forall|k: int|
        0 <= k < axes.len() ==> (#[trigger] axes[k]).1.valid() && axes[k].1.len() <= usize::MAX
}

/// How many vectors the axes span: the product of their lengths.
pub open spec fn size(axes: ParamView) -> nat
    decreases axes.len(),
{
    if axes.len() == 0 {
        1
    } else {
        size(axes.drop_last()) * axes.last().1.len()
    }
}

/// What is left of the number `idx` after the places of the first `k` axes
/// have been taken off.
pub open spec fn carry(axes: ParamView, idx: nat, k: nat) -> nat
    decreases k,
{
    if k == 0 {
        idx
    } else {
        carry(axes, idx, (k - 1) as nat) / axes[k - 1].1.len()
    }
}

/// The place on axis `k` of the vector with number `idx`.
pub open spec fn place(axes: ParamView, idx: nat, k: nat) -> nat {
    carry(axes, idx, k) % axes[k as int].1.len()
}

/// The vector with number `idx`.
pub open spec fn point(axes: ParamView, idx: nat) -> ParamView {
    Seq::new(
        axes.len(),
        |k: int| (axes[k].0, axes[k].1.index(place(axes, idx, k as nat) as int)),
    )
}

/// Whether `v` is one of the vectors of the axes.
pub open spec fn drawn(v: ParamView, axes: ParamView) -> bool {
    exists|idx: nat| idx < size(axes) && v == #[trigger] point(axes, idx)
}

/// Whether `v` is a value of the axis: the axis's own value, a text of the
/// choice, a whole number between the bounds of the range, or a binary64
/// number.
pub open spec fn within(axis: ValueView, v: ValueView) -> bool {
    match axis {
        ValueView::Val(_) | ValueView::Int(_) | ValueView::Float(_) => v == axis,
        ValueView::Choice(xs) => v is Val && xs.contains(v->Val_0),
        ValueView::IntRange(begin, end, _) => v is Int && ((begin <= v->Int_0 <= end) || (end
            <= v->Int_0 <= begin)),
        ValueView::FloatRange(_, _, _, _) => v is Float,
    }
}

/// Whether `v` holds, for each axis in order, a value of that axis under the
/// axis's name.
pub open spec fn conforms(v: ParamView, axes: ParamView) -> bool {
    &&& v.len() == axes.len()
    &&& forall|p: int|
        0 <= p < axes.len() ==> (#[trigger] v[p]).0 == axes[p].0 && within(axes[p].1, v[p].1)
}

/// The fields of a pair that are to be read as binary64 numbers: those of
/// the text behind the first `=`, where that text is a range of such
/// numbers.
pub open spec fn pair_fields(text: Seq<char>) -> Option<Seq<Seq<char>>> {
    match halves(text, "="@) {
        Some((_, value)) => if includes(value, "..."@) {
            Some(fields(value, "..."@))
        } else {
            None
        },
        None => None,
    }
}

/// The texts of an optional list of strings.
pub open spec fn listed(r: Option<Vec<String>>) -> Option<Seq<Seq<char>>> {
    match r {
        Some(v) => Some(texts(v@)),
        None => None,
    }
}

/// What a `KEY=VALUE` pair reads as: the key is the text before the first
/// `=`, the value what the text behind it reads as. A text without `=` is no
/// pair.
pub open spec fn pair(text: Seq<char>, floats: FloatReadingView) -> Result<
    (Seq<char>, ValueView),
    Seq<char>,
> {
    match halves(text, "="@) {
        Some((key, value)) => match axis(value, floats) {
            Ok(v) => Ok((key, v)),
            Err(e) => Err(e),
        },
        None => Err("Parse Error: "@ + quoted(text)),
    }
}

/// The named axes of a sweep, in the order in which they were added.
#[derive(Debug, Clone)]
pub struct AxisMap {
    pub data: Param,
}

impl View for AxisMap {
    type V = ParamView;

    open spec fn view(&self) -> ParamView {
        named(self.data@)
    }
}

/// A copy of a list of named values.
pub fn copy_param(p: &Param) -> (r: Param)
    ensures
        named(r@) == named(p@),
{
    let mut r: Param = Vec::new();
    let mut i: usize = 0;
    while i < p.len()
        invariant
            i <= p.len(),
            r.len() == i,
            forall|j: int| 0 <= j < i ==> r@[j].0@ == p@[j].0@ && r@[j].1@ == p@[j].1@,
        decreases p.len() - i,
    {
        r.push((p[i].0.clone(), p[i].1.copy()));
        i += 1;
    }
    assert(named(r@) =~= named(p@));
    r
}

impl AxisMap {
    /// A map without axes.
    pub fn new() -> (r: AxisMap)
        ensures
            r@.len() == 0,
    {
        let r = AxisMap { data: Vec::new() };
        assert(r@ =~= Seq::empty());
        r
    }

    /// The fields that the caller has to read as binary64 numbers before the
    /// pair can be read: `Some` exactly where a range of such numbers stands
    /// behind the first `=`.
    pub fn pair_float_fields(text: &String) -> (r: Option<Vec<String>>)
        ensures
            listed(r) == pair_fields(text@),
    {
        match cut(text.as_str(), "=") {
            Some((_, value)) => Value::float_fields(&value),
            None => None,
        }
    }

    /// Reads a `KEY=VALUE` pair. `floats` is what the caller read off the
    /// fields that [`AxisMap::pair_float_fields`] gave.
    pub fn parse_pair(text: &String, floats: FloatReading) -> (r: Result<(String, Value), String>)
        ensures
            match r {
                Ok(kv) => pair(text@, floats@) == Ok::<(Seq<char>, ValueView), Seq<char>>(
                    (kv.0@, kv.1@),
                ),
                Err(e) => pair(text@, floats@) == Err::<(Seq<char>, ValueView), Seq<char>>(e@),
            },
    {
        match cut(text.as_str(), "=") {
            Some((key, value)) => match Value::from(&value, floats) {
                Ok(value) => Ok((key, value)),
                Err(e) => Err(e),
            },
            None => Err(complaint("Parse Error: ", text.as_str())),
        }
    }

    /// Puts an axis behind the others.
    pub fn add(&mut self, key: String, val: Value)
        ensures
            final(self)@ == old(self)@.push((key@, val@)),
    {
        self.data.push((key, val));
        assert(self@ =~= old(self)@.push((key@, val@)));
    }

    /// A walk over the vectors of the map, from number zero on.
    pub fn iter(&self) -> (r: MapIter)
        ensures
            r.idx == 0,
            r.data@ == self@,
    {
        MapIter { idx: 0, data: AxisMap { data: copy_param(&self.data) } }
    }

    /// How many vectors the map has, where every axis is valid and the
    /// product fits in a `usize`.
    pub fn checked_len(&self) -> (r: Option<usize>)
        ensures
            r is Some <==> (forall|k: int|
                0 <= k < self@.len() ==> (#[trigger] self@[k]).1.valid() && self@[k].1.len()
                    <= usize::MAX) && size(self@) <= usize::MAX,
            r is Some ==> r->0 == size(self@),
            r is Some && r->0 > 0 ==> walkable(self@),
    {
        let n: usize = self.data.len();
        let mut empty: bool = false;
        let mut k: usize = 0;
        while k < n
            invariant
                k <= n == self.data.len(),
                forall|j: int|
                    0 <= j < k ==> (#[trigger] self@[j]).1.valid() && self@[j].1.len()
                        <= usize::MAX,
                empty ==> exists|j: int| 0 <= j < k && (#[trigger] self@[j]).1.len() == 0,
                !empty ==> forall|j: int| 0 <= j < k ==> (#[trigger] self@[j]).1.len() > 0,
            decreases n - k,
        {
            assert(self@[k as int].1 == self.data@[k as int].1@);
            match self.data[k].1.count() {
                None => {
                    assert(!(self@[k as int].1.valid() && self@[k as int].1.len() <= usize::MAX));
                    return None;
                },
                Some(c) => {
                    if c == 0 {
                        empty = true;
                    }
                },
            }
            k += 1;
        }
        if empty {
            proof {
                let j = choose|j: int| 0 <= j < n && (#[trigger] self@[j]).1.len() == 0;
                lemma_size_zero(self@, j);
            }
            return Some(0);
        }
        let mut prod: usize = 1;
        let mut k: usize = 0;
        while k < n
            invariant
                k <= n == self.data.len(),
                walkable(self@),
                prod == size(self@.take(k as int)),
                prod >= 1,
            decreases n - k,
        {
            assert(self@[k as int].1 == self.data@[k as int].1@);
            let c: usize = self.data[k].1.len();
            proof {
                lemma_size_take(self@, k as int);
                lemma_size_grows(self@, k as int + 1, n as int);
            }
            assert(prod * c <= 0xffff_ffff_ffff_ffff * 0xffff_ffff_ffff_ffff) by (nonlinear_arith)
                requires
                    0 <= prod <= 0xffff_ffff_ffff_ffff,
                    0 <= c <= 0xffff_ffff_ffff_ffff,
            ;
            if prod as u128 * c as u128 > usize::MAX as u128 {
                assert(self@.take(n as int) =~= self@);
                return None;
            }
            assert(prod * c <= usize::MAX) by (nonlinear_arith)
                requires
                    prod as u128 * c as u128 <= usize::MAX as u128,
                    prod as u128 * c as u128 == prod * c,
            ;
            assert(prod * c >= 1) by (nonlinear_arith)
                requires
                    prod >= 1,
                    c >= 1,
            ;
            prod = prod * c;
            k += 1;
        }
        assert(self@.take(n as int) =~= self@);
        Some(prod)
    }

    /// How many vectors the map has.
    pub fn len(&self) -> (r: usize)
        requires
            forall|k: int|
                0 <= k < self@.len() ==> (#[trigger] self@[k]).1.valid() && self@[k].1.len()
                    <= usize::MAX,
            size(self@) <= usize::MAX,
        ensures
            r == size(self@),
    {
        match self.checked_len() {
            Some(n) => n,
            None => 0,
        }
    }

    /// The vector with number `idx`.
    pub fn index(&self, idx: usize) -> (r: Param)
        requires
            walkable(self@),
        ensures
            named(r@) == point(self@, idx as nat),
    {
        let mut ret: Param = Vec::new();
        let mut i: usize = idx;
        let mut k: usize = 0;
        while k < self.data.len()
            invariant
                k <= self.data.len(),
                walkable(self@),
                ret.len() == k,
                i == carry(self@, idx as nat, k as nat),
                forall|j: int| 0 <= j < k ==> named(ret@)[j] == point(self@, idx as nat)[j],
            decreases self.data.len() - k,
        {
            let ghost before = named(ret@);
            let key = &self.data[k].0;
            let val = &self.data[k].1;
            assert(self@[k as int].1 == val@);
            let n: usize = val.len();
            ret.push((key.clone(), val.index(i % n)));
            assert(named(ret@)[k as int] == point(self@, idx as nat)[k as int]);
            assert forall|j: int| 0 <= j < k + 1 implies named(ret@)[j] == point(
                self@,
                idx as nat,
            )[j] by {
                if j < k {
                    assert(named(ret@)[j] == before[j]);
                }
            }
            i = i / n;
            k += 1;
        }
        assert(named(ret@) =~= point(self@, idx as nat));
        ret
    }

    /// A vector of the map, every one with the same chance.
    pub fn rand(&self) -> (r: Param)
        requires
            walkable(self@),
            size(self@) <= usize::MAX,
        ensures
            drawn(named(r@), self@),
    {
        proof {
            lemma_size_positive(self@);
        }
        let idx: usize = uniform_below(self.len());
        self.index(idx)
    }
}

/// A walk over the vectors of a map, in the order of their numbers.
pub struct MapIter {
    pub idx: usize,
    pub data: AxisMap,
}

impl MapIter {
    /// The next vector of the walk: the one whose number is the count of the
    /// vectors handed out so far, until the map is through.
    pub fn next(&mut self) -> (r: Option<Param>)
        requires
            countable(old(self).data@),
            size(old(self).data@) <= usize::MAX,
        ensures
            final(self).data@ == old(self).data@,
            old(self).idx >= size(old(self).data@) ==> r is None && final(self).idx == old(
                self,
            ).idx,
            old(self).idx < size(old(self).data@) ==> r is Some && named(r->0@) == point(
                old(self).data@,
                old(self).idx as nat,
            ) && final(self).idx == old(self).idx + 1,
    {
        if self.idx >= self.data.len() {
            None
        } else {
            proof {
                lemma_spanning(self.data@);
            }
            let ret = self.data.index(self.idx);
            self.idx += 1;
            Some(ret)
        }
    }
}

/// The product of the lengths is zero where one axis has no value.
pub proof fn lemma_size_zero(axes: ParamView, j: int)
    requires
        0 <= j < axes.len(),
        axes[j].1.len() == 0,
    ensures
        size(axes) == 0,
    decreases axes.len(),
{
    if j == axes.len() - 1 {
        assert(size(axes.drop_last()) * 0 == 0) by (nonlinear_arith);
    } else {
        lemma_size_zero(axes.drop_last(), j);
        assert(0 * axes.last().1.len() == 0) by (nonlinear_arith);
    }
}

/// Taking one more axis multiplies the product by that axis's length.
pub proof fn lemma_size_take(axes: ParamView, k: int)
    requires
        0 <= k < axes.len(),
    ensures
        size(axes.take(k + 1)) == size(axes.take(k)) * axes[k].1.len(),
{
    assert(axes.take(k + 1).drop_last() =~= axes.take(k));
}

/// Axes that all have a value span at least one vector.
pub proof fn lemma_size_positive(axes: ParamView)
    requires
        walkable(axes),
    ensures
        size(axes) >= 1,
    decreases axes.len(),
{
    if axes.len() > 0 {
        lemma_size_positive(axes.drop_last());
        assert(axes.last() == axes[axes.len() - 1]);
        assert(size(axes.drop_last()) * axes.last().1.len() >= 1) by (nonlinear_arith)
            requires
                size(axes.drop_last()) >= 1,
                axes.last().1.len() >= 1,
        ;
    }
}

/// Among axes that all have a value, more axes span no fewer vectors.
pub proof fn lemma_size_grows(axes: ParamView, k: int, n: int)
    requires
        walkable(axes),
        0 <= k <= n <= axes.len(),
    ensures
        size(axes.take(k)) <= size(axes.take(n)),
    decreases n - k,
{
    if k < n {
        lemma_size_grows(axes, k, n - 1);
        lemma_size_take(axes, n - 1);
        lemma_size_positive(axes.take(n - 1));
        assert(size(axes.take(n - 1)) <= size(axes.take(n - 1)) * axes[n - 1].1.len())
            by (nonlinear_arith)
            requires
                size(axes.take(n - 1)) >= 1,
                axes[n - 1].1.len() >= 1,
        ;
    }
}

/// What is left after `k` places, times the span of the first `k` axes, is
/// at most the number.
pub proof fn lemma_carry_bound(axes: ParamView, idx: nat, k: nat)
    requires
        walkable(axes),
        k <= axes.len(),
    ensures
        carry(axes, idx, k) * size(axes.take(k as int)) <= idx,
    decreases k,
{
    if k == 0 {
        assert(axes.take(0) =~= Seq::empty());
        assert(size(axes.take(0)) == 1);
        assert(carry(axes, idx, 0) == idx);
        assert(idx * 1 == idx);
    } else {
        lemma_carry_bound(axes, idx, (k - 1) as nat);
        lemma_size_take(axes, k - 1);
        let c = carry(axes, idx, (k - 1) as nat);
        let l = axes[k - 1].1.len();
        let s = size(axes.take(k - 1));
        assert((c / l) * (s * l) <= c * s) by (nonlinear_arith)
            requires
                l > 0,
                c >= 0,
                s >= 0,
        ;
        assert(carry(axes, idx, k) == c / l);
        assert(size(axes.take(k as int)) == s * l);
        assert(c * s <= idx);
    }
}

/// A number below the size of the axes leaves nothing after all places.
pub proof fn lemma_carry_ends(axes: ParamView, idx: nat)
    requires
        walkable(axes),
        idx < size(axes),
    ensures
        carry(axes, idx, axes.len()) == 0,
{
    lemma_carry_bound(axes, idx, axes.len());
    assert(axes.take(axes.len() as int) =~= axes);
    let c = carry(axes, idx, axes.len());
    let s = size(axes);
    assert(c == 0) by (nonlinear_arith)
        requires
            c >= 0,
            s >= 0,
            c * s <= idx,
            idx < s,
    ;
}

/// Two numbers that leave the same after all places and have the same place
/// on every axis leave the same after any number of places.
proof fn lemma_carry_same(axes: ParamView, i: nat, j: nat, k: nat)
    requires
        walkable(axes),
        k <= axes.len(),
        carry(axes, i, axes.len()) == carry(axes, j, axes.len()),
        forall|p: nat| p < axes.len() ==> place(axes, i, p) == place(axes, j, p),
    ensures
        carry(axes, i, k) == carry(axes, j, k),
    decreases axes.len() - k,
{
    if k < axes.len() {
        lemma_carry_same(axes, i, j, k + 1);
        let l = axes[k as int].1.len();
        let a = carry(axes, i, k);
        let b = carry(axes, j, k);
        assert(carry(axes, i, k + 1) == a / l);
        assert(carry(axes, j, k + 1) == b / l);
        assert(place(axes, i, k) == a % l);
        assert(place(axes, j, k) == b % l);
        assert(a == b) by (nonlinear_arith)
            requires
                l > 0,
                a / l == b / l,
                a % l == b % l,
        ;
    }
}

/// The walk visits no vector twice: two numbers below the size of the axes
/// that have the same place on every axis are the same number.
pub proof fn lemma_numbers_differ_in_a_place(axes: ParamView, i: nat, j: nat)
    requires
        walkable(axes),
        i < size(axes),
        j < size(axes),
        forall|p: nat| p < axes.len() ==> place(axes, i, p) == place(axes, j, p),
    ensures
        i == j,
{
    lemma_carry_ends(axes, i);
    lemma_carry_ends(axes, j);
    lemma_carry_same(axes, i, j, 0);
}

/// Every place of a vector of the walk lies on its axis.
pub proof fn lemma_place_on_axis(axes: ParamView, idx: nat, p: nat)
    requires
        walkable(axes),
        p < axes.len(),
    ensures
        place(axes, idx, p) < axes[p as int].1.len(),
        point(axes, idx)[p as int] == (
            axes[p as int].0,
            axes[p as int].1.index(place(axes, idx, p) as int),
        ),
{
}

/// Every vector of the walk holds, for each axis, a value of that axis.
pub proof fn lemma_point_conforms(axes: ParamView, idx: nat)
    requires
        walkable(axes),
    ensures
        conforms(point(axes, idx), axes),
{
    assert forall|p: int| 0 <= p < axes.len() implies (#[trigger] point(axes, idx)[p]).0
        == axes[p].0 && within(axes[p].1, point(axes, idx)[p].1) by {
        lemma_index_scalar(axes[p].1, place(axes, idx, p as nat) as int);
    }
}

/// Axes that can be counted and span a vector have a value each.
pub proof fn lemma_spanning(axes: ParamView)
    requires
        countable(axes),
        size(axes) > 0,
    ensures
        walkable(axes),
{
    assert forall|k: int| 0 <= k < axes.len() implies (#[trigger] axes[k]).1.valid() && 0
        < axes[k].1.len() <= usize::MAX by {
        if axes[k].1.len() == 0 {
            lemma_size_zero(axes, k);
        }
    }
}

} // verus!
