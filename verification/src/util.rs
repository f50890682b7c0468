//! Picking places at random, and the order of the numbers.

use crate::chance::uniform_below;
use crate::float::Float;
use vstd::prelude::*;

verus! {

/// A value taken in a total order. Binary64 numbers have one as long as none
/// of them is a NaN.
#[derive(Copy, Clone, Debug, PartialEq)]
pub struct Total<T>(pub T);

impl Total<Float> {
    /// Whether `self` comes before `other`, or both are the same number.
    pub fn le(&self, other: &Total<Float>) -> (r: bool)
        requires
            !self.0.nan(),
            !other.0.nan(),
        ensures
            r == (self.0.rank() <= other.0.rank()),
    {
        self.0.le(&other.0)
    }

    /// Whether `self` comes before `other`.
    pub fn lt(&self, other: &Total<Float>) -> (r: bool)
        requires
            !self.0.nan(),
            !other.0.nan(),
        ensures
            r == (self.0.rank() < other.0.rank()),
    {
        self.0.lt(&other.0)
    }
}

/// Whether no value stands twice in `s`.
pub open spec fn distinct(s: Seq<usize>) -> bool {
    forall|i: int, j: int| 0 <= i < j < s.len() ==> s[i] != s[j]
}

/// Whether `a` and `b` share no value.
pub open spec fn apart(a: Seq<usize>, b: Seq<usize>) -> bool {
    forall|i: int, j: int| 0 <= i < a.len() && 0 <= j < b.len() ==> a[i] != b[j]
}

/// Whether every value of `s` is below `n`.
pub open spec fn below(s: Seq<usize>, n: nat) -> bool {
    forall|i: int| 0 <= i < s.len() ==> s[i] < n
}

/// The places `0` to `n - 1` in order.
pub open spec fn places(n: nat) -> Seq<usize> {
    Seq::new(n, |i: int| i as usize)
}

/// What the draws pick among the free places: each draw picks the place
/// that stands at its number among those that are still free, and that place
/// is free no more.
pub open spec fn picked(free: Seq<usize>, draws: Seq<usize>) -> Seq<usize>
    decreases draws.len(),
{
    if draws.len() == 0 {
        Seq::empty()
    } else {
        seq![free[draws[0] as int]] + picked(
            free.remove(draws[0] as int),
            draws.drop_first(),
        )
    }
}

/// Whether each draw lies below the number of places that are free when it
/// is made: `len` at first, and one less after every draw.
pub open spec fn in_reach(draws: Seq<usize>, len: nat) -> bool {
    forall|k: int| 0 <= k < draws.len() ==> #[trigger] draws[k] + k < len
}

/// The places of `0..len` that the draws pick, in the order of the draws.
pub fn pick(len: usize, draws: &Vec<usize>) -> (r: Vec<usize>)
    requires
        in_reach(draws@, len as nat),
    ensures
        r@ == picked(places(len as nat), draws@),
        r.len() == draws.len(),
        distinct(r@),
        below(r@, len as nat),
{
    let mut free: Vec<usize> = Vec::new();
    let mut i: usize = 0;
    while i < len
        invariant
            i <= len,
            free@ == places(i as nat),
        decreases len - i,
    {
        free.push(i);
        i += 1;
        assert(free@ =~= places(i as nat));
    }
    let mut r: Vec<usize> = Vec::new();
    let mut k: usize = 0;
    assert(draws@.skip(0) =~= draws@);
    while k < draws.len()
        invariant
            k <= draws.len(),
            in_reach(draws@, len as nat),
            r.len() == k,
            r.len() + free.len() == len,
            picked(places(len as nat), draws@) == r@ + picked(free@, draws@.skip(k as int)),
            distinct(r@),
            distinct(free@),
            apart(r@, free@),
            below(r@, len as nat),
            below(free@, len as nat),
        decreases draws.len() - k,
    {
        let ghost free0 = free@;
        let ghost r0 = r@;
        let j: usize = draws[k];
        assert(draws@[k as int] + k < len);
        assert(draws@.skip(k as int)[0] == j);
        assert(draws@.skip(k as int).drop_first() =~= draws@.skip(k + 1));
        let chosen: usize = free.remove(j);
        r.push(chosen);
        assert(r@ + picked(free@, draws@.skip(k + 1)) =~= r0 + (seq![chosen] + picked(
            free@,
            draws@.skip(k + 1),
        )));
        assert forall|a: int, b: int| 0 <= a < b < free@.len() implies free@[a] != free@[b] by {
            let a0 = if a < j { a } else { a + 1 };
            let b0 = if b < j { b } else { b + 1 };
            assert(free@[a] == free0[a0] && free@[b] == free0[b0]);
        }
        assert forall|a: int, b: int| 0 <= a < r@.len() && 0 <= b < free@.len() implies r@[a]
            != free@[b] by {
            let b0 = if b < j { b } else { b + 1 };
            assert(free@[b] == free0[b0]);
            if a < r0.len() {
                assert(r@[a] == r0[a]);
            }
        }
        assert forall|a: int, b: int| 0 <= a < b < r@.len() implies r@[a] != r@[b] by {
            if b < r0.len() {
                assert(r@[a] == r0[a] && r@[b] == r0[b]);
            } else {
                assert(r@[a] == r0[a]);
            }
        }
        assert forall|a: int| 0 <= a < free@.len() implies free@[a] < len by {
            let a0 = if a < j { a } else { a + 1 };
            assert(free@[a] == free0[a0]);
        }
        k += 1;
    }
    assert(draws@.skip(draws.len() as int) =~= Seq::empty());
    assert(r@ + Seq::<usize>::empty() =~= r@);
    r
}

/// Picks `n` places of `xs` at random, no place twice.
///
/// Each pick is drawn among the places that are still free, so that the
/// function ends after `n` draws.
pub fn sample<T>(xs: &Vec<T>, n: usize) -> (r: Vec<usize>)
    requires
        n <= xs.len(),
    ensures
        r.len() == n,
        distinct(r@),
        below(r@, xs.len() as nat),
        exists|draws: Seq<usize>|
            in_reach(draws, xs.len() as nat) && draws.len() == n && r@ == #[trigger] picked(
                places(xs.len() as nat),
                draws,
            ),
{
    let len: usize = xs.len();
    let mut draws: Vec<usize> = Vec::new();
    let mut k: usize = 0;
    while k < n
        invariant
            k <= n <= len,
            draws.len() == k,
            in_reach(draws@, len as nat),
        decreases n - k,
    {
        let ghost before = draws@;
        let d: usize = uniform_below(len - k);
        draws.push(d);
        assert forall|i: int| 0 <= i < draws@.len() implies #[trigger] draws@[i] + i < len by {
            if i < k {
                assert(draws@[i] == before[i]);
            }
        }
        k += 1;
    }
    pick(len, &draws)
}

} // verus!
