//! Strictly sorted vectors of ids: the coordinator keeps partition sets and
//! member sets sorted ascending and free of duplicates, so that assignment
//! recomputation is a pure function of their contents.

use vstd::prelude::*;

verus! {

/// Strictly ascending: sorted and free of duplicates.
pub open spec fn strictly_sorted(s: Seq<u32>) -> bool {
    forall|i: int, j: int| 0 <= i < j < s.len() ==> s[i] < s[j]
}

/// Finds the position of `x`, if present.
pub fn find_index(v: &Vec<u32>, x: u32) -> (r: Option<usize>)
    ensures
        match r {
            Some(i) => i < v@.len() && v@[i as int] == x,
            None => !v@.contains(x),
        },
{
    let mut i: usize = 0;
    while i < v.len()
        invariant
            i <= v@.len(),
            forall|k: int| 0 <= k < i ==> v@[k] != x,
        decreases v@.len() - i,
    {
        if v[i] == x {
            return Some(i);
        }
        i = i + 1;
    }
    assert(forall|k: int| 0 <= k < v@.len() ==> v@[k] != x);
    None
}

/// Inserts `x` into a strictly sorted vector, keeping it strictly sorted;
/// inserting a value already present leaves the vector unchanged.
pub fn insert_sorted(v: &mut Vec<u32>, x: u32)
    requires
        strictly_sorted(old(v)@),
        old(v)@.len() < usize::MAX,
    ensures
        strictly_sorted(final(v)@),
        forall|y: u32| final(v)@.contains(y) <==> (old(v)@.contains(y) || y == x),
        old(v)@.contains(x) ==> final(v)@ == old(v)@,
        !old(v)@.contains(x) ==> final(v)@.len() == old(v)@.len() + 1,
{
    let mut i: usize = 0;
    while i < v.len() && v[i] < x
        invariant
            i <= v@.len(),
            strictly_sorted(v@),
            v == old(v),
            forall|k: int| 0 <= k < i ==> v@[k] < x,
        decreases v@.len() - i,
    {
        i = i + 1;
    }
    if i < v.len() && v[i] == x {
        assert(v@.contains(x));
        return ;
    }
    assert(forall|k: int| i <= k < v@.len() ==> v@[k] > x) by {
        assert(forall|k: int| i < k < v@.len() ==> v@[i as int] < v@[k]);
    }
    assert(!old(v)@.contains(x));
    v.insert(i, x);
    assert(forall|k: int| 0 <= k < i ==> v@[k] == old(v)@[k]);
    assert(v@[i as int] == x);
    assert(forall|k: int| i < k < v@.len() ==> v@[k] == old(v)@[k - 1]);
    assert(strictly_sorted(v@));
    assert forall|y: u32| v@.contains(y) <==> (old(v)@.contains(y) || y == x) by {
        if v@.contains(y) {
            let k = choose|k: int| 0 <= k < v@.len() && v@[k] == y;
            if k < i {
                assert(old(v)@[k] == y);
            } else if k > i {
                assert(old(v)@[k - 1] == y);
            }
        }
        if old(v)@.contains(y) {
            let k = choose|k: int| 0 <= k < old(v)@.len() && old(v)@[k] == y;
            if k < i {
                assert(v@[k] == y);
            } else {
                assert(v@[k + 1] == y);
            }
        }
        if y == x {
            assert(v@[i as int] == y);
        }
    }
}

/// Removes `x` from a strictly sorted vector, keeping it strictly sorted;
/// reports whether `x` was present.
pub fn remove_value(v: &mut Vec<u32>, x: u32) -> (found: bool)
    requires
        strictly_sorted(old(v)@),
    ensures
        strictly_sorted(final(v)@),
        found == old(v)@.contains(x),
        forall|y: u32| final(v)@.contains(y) <==> (old(v)@.contains(y) && y != x),
        !found ==> final(v)@ == old(v)@,
        found ==> final(v)@.len() + 1 == old(v)@.len(),
{
    match find_index(v, x) {
        None => {
            false
        },
        Some(i) => {
            assert(v@.contains(x));
            assert(forall|k: int| 0 <= k < v@.len() && k != i ==> v@[k] != x) by {
                assert(forall|k: int| 0 <= k < i ==> v@[k] < v@[i as int]);
                assert(forall|k: int| i < k < v@.len() ==> v@[i as int] < v@[k]);
            }
            v.remove(i);
            assert(forall|k: int| 0 <= k < i ==> v@[k] == old(v)@[k]);
            assert(forall|k: int| i <= k < v@.len() ==> v@[k] == old(v)@[k + 1]);
            assert(strictly_sorted(v@));
            assert forall|y: u32| v@.contains(y) <==> (old(v)@.contains(y) && y != x) by {
                if v@.contains(y) {
                    let k = choose|k: int| 0 <= k < v@.len() && v@[k] == y;
                    if k < i {
                        assert(old(v)@[k] == y);
                    } else {
                        assert(old(v)@[k + 1] == y);
                    }
                }
                if old(v)@.contains(y) && y != x {
                    let k = choose|k: int| 0 <= k < old(v)@.len() && old(v)@[k] == y;
                    if k < i {
                        assert(v@[k] == y);
                    } else {
                        assert(k != i);
                        assert(v@[k - 1] == y);
                    }
                }
            }
            true
        },
    }
}

} // verus!
