//! The deterministic balanced split of a group's partitions among its
//! members.
//!
//! Partitions (sorted ascending) are distributed over members (sorted
//! ascending) in contiguous ranges, as evenly as possible: every member
//! receives `p / m` partitions and the first `p % m` members receive one
//! more, so per-member counts differ by at most one. Recomputation is a pure
//! function of the two sorted id lists; it does not try to minimize churn
//! between successive assignments, a deliberate simplicity trade-off. Every
//! rebalance fully replaces the assignment.

use vstd::prelude::*;
use vstd::arithmetic::div_mod::lemma_fundamental_div_mod;
use vstd::set_lib::lemma_int_range;
use vstd::set_lib::set_int_range;
use vstd::assert_sets_equal;
use crate::sorted::strictly_sorted;

verus! {

/// How many partitions member `j` (by position in the sorted member list)
/// receives when `p` partitions are split among `m` members.
pub open spec fn spec_share(p: nat, m: nat, j: nat) -> nat
    recommends
        m >= 1,
{
    p / m + if j < p % m {
        1nat
    } else {
        0nat
    }
}

/// The index of the first partition in member `j`'s contiguous range.
pub open spec fn spec_range_start(p: nat, m: nat, j: nat) -> nat
    recommends
        m >= 1,
{
    j * (p / m) + if j < p % m {
        j
    } else {
        p % m
    }
}

/// A well-formed assignment pairs every partition, in order, with the member
/// whose contiguous range covers its index; with no members it is empty.
pub open spec fn assignment_wf(asg: Seq<(u32, u32)>, parts: Seq<u32>, membs: Seq<u32>) -> bool {
    &&& asg.len() == if membs.len() == 0 {
        0nat
    } else {
        parts.len()
    }
    &&& forall|i: int| 0 <= i < asg.len() ==> (#[trigger] asg[i]).0 == parts[i]
    &&& forall|j: int, i: int|
        #![trigger asg[i].1, membs[j]]
        0 <= j < membs.len() && spec_range_start(parts.len(), membs.len(), j as nat) <= i
            < spec_range_start(parts.len(), membs.len(), j as nat) + spec_share(
            parts.len(),
            membs.len(),
            j as nat,
        ) ==> asg[i].1 == membs[j]
}

/// One member's range ends where the next begins.
pub proof fn lemma_range_start_step(p: nat, m: nat, j: nat)
    requires
        m >= 1,
    ensures
        spec_range_start(p, m, (j + 1) as nat) == spec_range_start(p, m, j) + spec_share(p, m, j),
{
    let b = p / m;
    assert((j + 1) * b == j * b + b) by (nonlinear_arith);
}

/// Range starts never decrease as the member position grows.
pub proof fn lemma_range_start_mono(p: nat, m: nat, j1: nat, j2: nat)
    requires
        m >= 1,
        j1 <= j2,
    ensures
        spec_range_start(p, m, j1) <= spec_range_start(p, m, j2),
    decreases j2 - j1,
{
    if j1 < j2 {
        lemma_range_start_step(p, m, (j2 - 1) as nat);
        lemma_range_start_mono(p, m, j1, (j2 - 1) as nat);
    }
}

/// The ranges of all `m` members cover exactly the `p` partition indices.
pub proof fn lemma_range_start_total(p: nat, m: nat)
    requires
        m >= 1,
    ensures
        spec_range_start(p, m, m) == p,
{
    lemma_fundamental_div_mod(p as int, m as int);
}

/// Every partition index below `p` falls in exactly one member's range; this
/// lemma finds the covering member at or after position `j`.
pub proof fn lemma_index_in_some_range(p: nat, m: nat, j: nat, i: nat)
    requires
        m >= 1,
        j < m,
        spec_range_start(p, m, j) <= i < p,
    ensures
        exists|jj: nat|
            #![trigger spec_range_start(p, m, jj)]
            j <= jj < m && spec_range_start(p, m, jj) <= i < spec_range_start(p, m, jj)
                + spec_share(p, m, jj),
    decreases m - j,
{
    lemma_range_start_step(p, m, j);
    if i < spec_range_start(p, m, j) + spec_share(p, m, j) {
        assert(j <= j < m && spec_range_start(p, m, j) <= i < spec_range_start(p, m, j)
            + spec_share(p, m, j));
    } else {
        lemma_range_start_total(p, m);
        if j + 1 == m {
            assert(false);
        } else {
            lemma_index_in_some_range(p, m, (j + 1) as nat, i);
        }
    }
}

/// Computes the deterministic balanced assignment of `partitions` to
/// `members`: member `j` owns the `j`-th contiguous range of partition
/// indices, ranges differing in size by at most one. With no members the
/// assignment is empty.
pub fn compute_assignment(partitions: &Vec<u32>, members: &Vec<u32>) -> (asg: Vec<(u32, u32)>)
    ensures
        assignment_wf(asg@, partitions@, members@),
{
    let p = partitions.len();
    let m = members.len();
    let mut asg: Vec<(u32, u32)> = Vec::new();
    if m == 0 {
        return asg;
    }
    let base = p / m;
    let extra = p % m;
    proof {
        lemma_fundamental_div_mod(p as int, m as int);
    }
    let mut j: usize = 0;
    while j < m
        invariant
            p == partitions@.len(),
            1 <= m == members@.len(),
            base == p as nat / m as nat,
            extra == p as nat % m as nat,
            j <= m,
            asg@.len() == spec_range_start(p as nat, m as nat, j as nat),
            forall|i: int| 0 <= i < asg@.len() ==> (#[trigger] asg@[i]).0 == partitions@[i],
            forall|jj: int, i: int|
                #![trigger asg@[i].1, members@[jj]]
                0 <= jj < j && spec_range_start(p as nat, m as nat, jj as nat) <= i
                    < spec_range_start(p as nat, m as nat, jj as nat) + spec_share(
                    p as nat,
                    m as nat,
                    jj as nat,
                ) ==> asg@[i].1 == members@[jj],
        decreases m - j,
    {
        let share: usize = if j < extra {
            proof {
                lemma_fundamental_div_mod(p as int, m as int);
                assert(m * base >= base) by (nonlinear_arith)
                    requires
                        m >= 1,
                        base >= 0,
                ;
            }
            base + 1
        } else {
            base
        };
        assert(share == spec_share(p as nat, m as nat, j as nat));
        proof {
            lemma_range_start_step(p as nat, m as nat, j as nat);
            lemma_range_start_mono(p as nat, m as nat, (j + 1) as nat, m as nat);
            lemma_range_start_total(p as nat, m as nat);
        }
        let ghost range_start = spec_range_start(p as nat, m as nat, j as nat);
        let mut k: usize = 0;
        while k < share
            invariant
                p == partitions@.len(),
                1 <= m == members@.len(),
                j < m,
                k <= share,
                range_start == spec_range_start(p as nat, m as nat, j as nat),
                share == spec_share(p as nat, m as nat, j as nat),
                range_start + share <= p,
                asg@.len() == range_start + k,
                forall|i: int| 0 <= i < asg@.len() ==> (#[trigger] asg@[i]).0 == partitions@[i],
                forall|jj: int, i: int|
                    #![trigger asg@[i].1, members@[jj]]
                    0 <= jj < j && spec_range_start(p as nat, m as nat, jj as nat) <= i
                        < spec_range_start(p as nat, m as nat, jj as nat) + spec_share(
                        p as nat,
                        m as nat,
                        jj as nat,
                    ) ==> asg@[i].1 == members@[jj],
                forall|i: int|
                    range_start <= i < range_start + k ==> (#[trigger] asg@[i]).1 == members@[
                        j as int],
            decreases share - k,
        {
            let idx = asg.len();
            let ghost prev = asg@;
            asg.push((partitions[idx], members[j]));
            proof {
                assert(forall|i: int| 0 <= i < prev.len() ==> asg@[i] == prev[i]);
                assert(asg@[idx as int] == (partitions@[idx as int], members@[j as int]));
                assert forall|jj: int, i: int|
                    #![trigger asg@[i].1, members@[jj]]
                    0 <= jj < j && spec_range_start(p as nat, m as nat, jj as nat) <= i
                        < spec_range_start(p as nat, m as nat, jj as nat) + spec_share(
                        p as nat,
                        m as nat,
                        jj as nat,
                    ) implies asg@[i].1 == members@[jj] by {
                    lemma_range_start_step(p as nat, m as nat, jj as nat);
                    lemma_range_start_mono(p as nat, m as nat, (jj + 1) as nat, j as nat);
                    assert(i < prev.len());
                    assert(prev[i].1 == members@[jj]);
                }
            }
            k = k + 1;
        }
        proof {
            lemma_range_start_step(p as nat, m as nat, j as nat);
        }
        j = j + 1;
        assert forall|jj: int, i: int|
            #![trigger asg@[i].1, members@[jj]]
            0 <= jj < j && spec_range_start(p as nat, m as nat, jj as nat) <= i < spec_range_start(
                p as nat,
                m as nat,
                jj as nat,
            ) + spec_share(p as nat, m as nat, jj as nat) implies asg@[i].1 == members@[jj] by {
            if jj == j - 1 {
                assert(asg@[i].1 == members@[jj]);
            }
        }
    }
    proof {
        lemma_range_start_total(p as nat, m as nat);
    }
    asg
}

/// The set of assignment indices owned by one member id.
pub open spec fn spec_owned_indices(asg: Seq<(u32, u32)>, member: u32) -> Set<int> {
    Set::new(|i: int| 0 <= i < asg.len() && asg[i].1 == member)
}

/// Law: in a well-formed assignment over at least one member, member `j`
/// owns exactly its share of partition indices.
pub proof fn lemma_member_owned_count(asg: Seq<(u32, u32)>, parts: Seq<u32>, membs: Seq<u32>, j: int)
    requires
        assignment_wf(asg, parts, membs),
        strictly_sorted(membs),
        membs.len() >= 1,
        0 <= j < membs.len(),
    ensures
        spec_owned_indices(asg, membs[j]).finite(),
        spec_owned_indices(asg, membs[j]).len() == spec_share(parts.len(), membs.len(), j as nat),
{
    let p = parts.len();
    let m = membs.len();
    let lo = spec_range_start(p, m, j as nat) as int;
    let hi = lo + spec_share(p, m, j as nat) as int;
    lemma_range_start_step(p, m, j as nat);
    lemma_range_start_mono(p, m, (j + 1) as nat, m);
    lemma_range_start_total(p, m);
    assert(hi <= p);
    assert_sets_equal!(spec_owned_indices(asg, membs[j]) == set_int_range(lo, hi), i => {
        if 0 <= i < asg.len() && asg[i].1 == membs[j] {
            lemma_index_in_some_range(p, m, 0, i as nat);
            let jj = choose|jj: nat|
                #![trigger spec_range_start(p, m, jj)]
                0 <= jj < m && spec_range_start(p, m, jj) <= i < spec_range_start(p, m, jj)
                    + spec_share(p, m, jj);
            assert(asg[i].1 == membs[jj as int]);
            if jj != j {
                if jj < j {
                    assert(membs[jj as int] < membs[j]);
                } else {
                    assert(membs[j] < membs[jj as int]);
                }
                assert(false);
            }
        }
        if lo <= i < hi {
            assert(0 <= i < asg.len());
            assert(asg[i].1 == membs[j]);
        }
    });
    lemma_int_range(lo, hi);
}

/// Law: per-member partition counts differ by at most one, for any two
/// members of a well-formed assignment.
pub proof fn lemma_assignment_balanced(
    asg: Seq<(u32, u32)>,
    parts: Seq<u32>,
    membs: Seq<u32>,
    j: int,
    k: int,
)
    requires
        assignment_wf(asg, parts, membs),
        strictly_sorted(membs),
        membs.len() >= 1,
        0 <= j < membs.len(),
        0 <= k < membs.len(),
    ensures
        spec_owned_indices(asg, membs[j]).len() <= spec_owned_indices(asg, membs[k]).len() + 1,
{
    lemma_member_owned_count(asg, parts, membs, j);
    lemma_member_owned_count(asg, parts, membs, k);
}

/// Law: a well-formed assignment over at least one member covers every
/// partition of the group exactly once: each partition id appears at exactly
/// one assignment index, and no other id appears at all.
pub proof fn lemma_assignment_covers_exactly_once(
    asg: Seq<(u32, u32)>,
    parts: Seq<u32>,
    membs: Seq<u32>,
)
    requires
        assignment_wf(asg, parts, membs),
        strictly_sorted(parts),
        membs.len() >= 1,
    ensures
        asg.len() == parts.len(),
        forall|i1: int, i2: int|
            0 <= i1 < asg.len() && 0 <= i2 < asg.len() && (#[trigger] asg[i1]).0 == (
            #[trigger] asg[i2]).0 ==> i1 == i2,
        forall|x: u32| parts.contains(x) <==> exists|i: int| 0 <= i < asg.len() && (#[trigger] asg[i]).0 == x,
{
    assert forall|i1: int, i2: int|
        0 <= i1 < asg.len() && 0 <= i2 < asg.len() && (#[trigger] asg[i1]).0 == (#[trigger] asg[i2]).0
        implies i1 == i2 by {
        if i1 < i2 {
            assert(parts[i1] < parts[i2]);
        }
        if i2 < i1 {
            assert(parts[i2] < parts[i1]);
        }
    }
    assert forall|x: u32| parts.contains(x) implies exists|i: int|
        0 <= i < asg.len() && (#[trigger] asg[i]).0 == x by {
        let i = choose|i: int| 0 <= i < parts.len() && parts[i] == x;
        assert(asg[i].0 == x);
    }
}

} // verus!
