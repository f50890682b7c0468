//! The population and who survives a generation.
//!
//! After a generation the members are put in the order of their metrics, the
//! smallest first when the metric is to become small and the largest first
//! when it is to become large, and the first `np` of them stay. Members with
//! the same metric keep the order in which they came in when the smallest is
//! first, and take the opposite order when the largest is first.

use crate::map::Param;
use crate::metric::Metric;
use crate::options::Objective;
use crate::util::Total;
use vstd::prelude::*;

verus! {

/// A vector with the metric that its trials reported.
pub type Member = (Param, Metric);

/// The place of a member's metric among the numbers.
pub open spec fn rank(m: Member) -> int {
    m.1.value.rank()
}

/// Whether no member's metric is a NaN.
pub open spec fn numbers(s: Seq<Member>) -> bool {
    forall|i: int| 0 <= i < s.len() ==> !(#[trigger] s[i]).1.value.nan()
}

/// Whether the metrics never fall from one member to the next.
pub open spec fn rising(s: Seq<Member>) -> bool {
    forall|i: int, j: int| 0 <= i <= j < s.len() ==> rank(s[i]) <= rank(s[j])
}

/// Where `e` goes into the rising sequence `s`: behind every member whose
/// metric is not above its own.
pub open spec fn slot(s: Seq<Member>, e: Member) -> int
    decreases s.len(),
{
    if s.len() == 0 || rank(e) < rank(s[0]) {
        0
    } else {
        1 + slot(s.drop_first(), e)
    }
}

/// The members in rising order of their metrics; members with the same
/// metric keep their order.
pub open spec fn arranged(s: Seq<Member>) -> Seq<Member>
    decreases s.len(),
{
    if s.len() == 0 {
        s
    } else {
        let before = arranged(s.drop_last());
        before.insert(slot(before, s.last()), s.last())
    }
}

/// `s` from its last member to its first.
pub open spec fn backwards(s: Seq<Member>) -> Seq<Member> {
    Seq::new(s.len(), |i: int| s[s.len() - 1 - i])
}

/// The members in the order of the objective, best first.
pub open spec fn ranked(s: Seq<Member>, objective: Objective) -> Seq<Member> {
    if objective == Objective::Maximize {
        backwards(arranged(s))
    } else {
        arranged(s)
    }
}

/// The members that stay: the best `np`, best first.
pub open spec fn survivors(s: Seq<Member>, objective: Objective, np: nat) -> Seq<Member> {
    let all = ranked(s, objective);
    if np <= all.len() {
        all.take(np as int)
    } else {
        all
    }
}

/// The slot lies within the sequence or right behind it; the members before
/// it have metrics that are not above the new one's, and in a rising sequence
/// those from it on have metrics above.
pub proof fn lemma_slot(s: Seq<Member>, e: Member)
    ensures
        0 <= slot(s, e) <= s.len(),
        forall|i: int| 0 <= i < slot(s, e) ==> rank(#[trigger] s[i]) <= rank(e),
        rising(s) ==> forall|i: int| slot(s, e) <= i < s.len() ==> rank(e) < rank(#[trigger] s[i]),
    decreases s.len(),
{
    if s.len() == 0 || rank(e) < rank(s[0]) {
    } else {
        let t = s.drop_first();
        lemma_slot(t, e);
        assert forall|i: int| 0 <= i < slot(s, e) implies rank(#[trigger] s[i]) <= rank(e) by {
            if i > 0 {
                assert(s[i] == t[i - 1]);
            }
        }
        if rising(s) {
            assert(rising(t)) by {
                assert forall|i: int, j: int| 0 <= i <= j < t.len() implies rank(t[i]) <= rank(
                    t[j],
                ) by {
                    assert(t[i] == s[i + 1] && t[j] == s[j + 1]);
                }
            }
            assert forall|i: int| slot(s, e) <= i < s.len() implies rank(e) < rank(
                #[trigger] s[i],
            ) by {
                assert(s[i] == t[i - 1]);
            }
        }
    }
}

/// Arranging keeps every member, once each, and puts the metrics in rising
/// order.
pub proof fn lemma_arranged(s: Seq<Member>)
    ensures
        arranged(s).len() == s.len(),
        rising(arranged(s)),
        arranged(s).to_multiset() == s.to_multiset(),
    decreases s.len(),
{
    broadcast use vstd::seq_lib::group_to_multiset_ensures;

    if s.len() == 0 {
    } else {
        let head = s.drop_last();
        let e = s.last();
        let before = arranged(head);
        lemma_arranged(head);
        lemma_slot(before, e);
        let k = slot(before, e);
        let after = before.insert(k, e);
        assert(after.len() == s.len());
        assert(rising(after)) by {
            assert forall|i: int, j: int| 0 <= i <= j < after.len() implies rank(after[i])
                <= rank(after[j]) by {
                let a = if i < k {
                    rank(before[i])
                } else if i == k {
                    rank(e)
                } else {
                    rank(before[i - 1])
                };
                assert(rank(after[i]) == a);
                if j < k {
                    assert(after[j] == before[j]);
                } else if j == k {
                } else {
                    assert(after[j] == before[j - 1]);
                }
            }
        }
        assert(after.remove(k) =~= before);
        assert(after[k] == e);
        assert(s =~= head.push(e));
        assert(after.to_multiset() =~= before.to_multiset().insert(e)) by {
            assert(after.remove(k).to_multiset() =~= after.to_multiset().remove(after[k]));
            assert(after.to_multiset().count(e) > 0) by {
                assert(after.contains(e));
            }
        }
    }
}

/// The first survivor is a member, and no member has a better metric.
pub proof fn lemma_best_first(s: Seq<Member>, objective: Objective, np: nat, i: int)
    requires
        0 <= i < s.len(),
        np > 0,
    ensures
        survivors(s, objective, np).len() > 0,
        s.contains(survivors(s, objective, np)[0]),
        objective == Objective::Minimize ==> rank(survivors(s, objective, np)[0]) <= rank(s[i]),
        objective == Objective::Maximize ==> rank(survivors(s, objective, np)[0]) >= rank(s[i]),
{
    broadcast use vstd::seq_lib::group_to_multiset_ensures;

    lemma_arranged(s);
    let a = arranged(s);
    assert(a.to_multiset().count(s[i]) > 0) by {
        assert(s.contains(s[i]));
    }
    assert(a.contains(s[i]));
    let j = choose|j: int| 0 <= j < a.len() && a[j] == s[i];
    let best = survivors(s, objective, np)[0];
    if objective == Objective::Maximize {
        assert(best == a[a.len() - 1]);
        assert(rank(a[j]) <= rank(a[a.len() - 1]));
    } else {
        assert(best == a[0]);
        assert(rank(a[0]) <= rank(a[j]));
    }
    assert(a.contains(best));
    assert(s.to_multiset().count(best) > 0);
}

/// No more than `np` members stay, and none that was not there.
pub proof fn lemma_survivors(s: Seq<Member>, objective: Objective, np: nat)
    ensures
        survivors(s, objective, np).len() == if np <= s.len() {
            np
        } else {
            s.len()
        },
        forall|i: int|
            0 <= i < survivors(s, objective, np).len() ==> s.contains(
                #[trigger] survivors(s, objective, np)[i],
            ),
{
    broadcast use vstd::seq_lib::group_to_multiset_ensures;

    lemma_arranged(s);
    let a = arranged(s);
    let r = survivors(s, objective, np);
    assert forall|i: int| 0 <= i < r.len() implies s.contains(#[trigger] r[i]) by {
        assert(a.contains(r[i])) by {
            if objective == Objective::Maximize {
                assert(r[i] == a[a.len() - 1 - i]);
            } else {
                assert(r[i] == a[i]);
            }
        }
        assert(s.to_multiset().count(r[i]) > 0);
    }
}

/// Where `e` goes into the rising sequence `s`.
fn find_slot(s: &Vec<Member>, e: &Member) -> (r: usize)
    requires
        numbers(s@),
        !e.1.value.nan(),
    ensures
        r == slot(s@, *e),
{
    let key = Total(e.1.value);
    let mut i: usize = 0;
    assert(s@.skip(0) =~= s@);
    while i < s.len()
        invariant
            i <= s.len(),
            numbers(s@),
            !e.1.value.nan(),
            key.0 == e.1.value,
            slot(s@, *e) == i + slot(s@.skip(i as int), *e),
        decreases s.len() - i,
    {
        assert(s@.skip(i as int)[0] == s@[i as int]);
        if key.lt(&Total(s[i].1.value)) {
            return i;
        }
        assert(s@.skip(i as int).drop_first() =~= s@.skip(i + 1));
        i += 1;
    }
    i
}

/// Puts the members in the order of the objective and keeps the best `np`.
pub fn select(pool: Vec<Member>, objective: Objective, np: usize) -> (r: Vec<Member>)
    requires
        numbers(pool@),
    ensures
        r@ == survivors(pool@, objective, np as nat),
{
    let ghost all = pool@;
    let mut rest = pool;
    let mut sorted: Vec<Member> = Vec::new();
    let mut k: usize = 0;
    let n: usize = rest.len();
    while rest.len() > 0
        invariant
            k + rest.len() == n == all.len(),
            numbers(all),
            rest@ == all.skip(k as int),
            sorted@ == arranged(all.take(k as int)),
        decreases rest.len(),
    {
        let e = rest.remove(0);
        assert(e == all[k as int]);
        proof {
            lemma_arranged(all.take(k as int));
            broadcast use vstd::seq_lib::group_to_multiset_ensures;

            assert(numbers(sorted@)) by {
                assert forall|i: int| 0 <= i < sorted@.len() implies !(#[trigger] sorted@[i]).1.value.nan() by {
                    assert(sorted@.contains(sorted@[i]));
                    assert(all.take(k as int).to_multiset().count(sorted@[i]) > 0);
                    assert(all.take(k as int).contains(sorted@[i]));
                    let j = choose|j: int|
                        0 <= j < all.take(k as int).len() && all.take(k as int)[j] == sorted@[i];
                    assert(all[j] == sorted@[i]);
                }
            }
            lemma_slot(sorted@, e);
        }
        let at = find_slot(&sorted, &e);
        sorted.insert(at, e);
        assert(all.take(k + 1).drop_last() =~= all.take(k as int));
        assert(all.take(k + 1).last() == all[k as int]);
        assert(rest@ =~= all.skip(k + 1));
        k += 1;
    }
    assert(all.take(n as int) =~= all);
    let mut out: Vec<Member> = if objective == Objective::Maximize {
        let ghost up = sorted@;
        let mut down: Vec<Member> = Vec::new();
        while sorted.len() > 0
            invariant
                sorted@.len() + down@.len() == up.len(),
                sorted@ == up.take(sorted@.len() as int),
                down@ == backwards(up).take(down@.len() as int),
            decreases sorted.len(),
        {
            let ghost m = sorted@.len();
            let e = sorted.pop().unwrap();
            down.push(e);
            assert(sorted@ =~= up.take(m - 1));
            assert(down@ =~= backwards(up).take(down@.len() as int));
        }
        assert(down@ =~= backwards(up));
        down
    } else {
        sorted
    };
    out.truncate(np);
    out
}

} // verus!
