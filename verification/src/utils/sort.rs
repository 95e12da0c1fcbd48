//! Sorting small lists of indices, and comparing lists as multisets.
use vstd::prelude::*;
use vstd::relations::{sorted_by, total_ordering};
use vstd::seq_lib::{lemma_sorted_unique, to_multiset_build, to_multiset_insert};

verus! {

/// The order `<=` on `u32`.
pub open spec fn le_u32() -> spec_fn(u32, u32) -> bool {
    |a: u32, b: u32| a <= b
}

/// Is `s` in ascending order?
pub open spec fn ascending(s: Seq<u32>) -> bool {
    sorted_by(s, le_u32())
}

/// Two ascending lists with the same elements, counted with multiplicity, are equal.
pub proof fn lemma_ascending_unique(x: Seq<u32>, y: Seq<u32>)
    requires
        ascending(x),
        ascending(y),
        x.to_multiset() == y.to_multiset(),
    ensures
        x == y,
{
    let leq = le_u32();
    assert(total_ordering(leq)) by {
        assert forall|a: u32, b: u32, c: u32| #[trigger] leq(a, b) && #[trigger] leq(b, c) implies leq(
            a,
            c,
        ) by {}
        assert forall|a: u32, b: u32| #[trigger] leq(a, b) && #[trigger] leq(b, a) implies a == b by {}
        assert forall|a: u32, b: u32| #[trigger] leq(a, b) || #[trigger] leq(b, a) by {}
        assert forall|a: u32| #[trigger] leq(a, a) by {}
    }
    lemma_sorted_unique(x, y, leq);
}

/// A copy of `v` in ascending order.
pub fn sorted_copy(v: &Vec<u32>) -> (r: Vec<u32>)
    ensures
        ascending(r@),
        r@.to_multiset() == v@.to_multiset(),
{
    let mut r: Vec<u32> = Vec::new();
    let mut i: usize = 0;
    proof {
        assert(v@.take(0) =~= Seq::<u32>::empty());
    }
    while i < v.len()
        invariant
            i <= v@.len(),
            ascending(r@),
            r@.to_multiset() == v@.take(i as int).to_multiset(),
        decreases v.len() - i,
    {
        let x = v[i];
        let mut p: usize = 0;
        while p < r.len() && r[p] <= x
            invariant
                p <= r@.len(),
                forall|k: int| 0 <= k < p ==> r@[k] <= x,
            decreases r.len() - p,
        {
            p = p + 1;
        }
        let ghost old_r = r@;
        r.insert(p, x);
        proof {
            assert(r@ == old_r.insert(p as int, x));
            assert forall|a: int, b: int| 0 <= a < b < r@.len() implies #[trigger] le_u32()(
                r@[a],
                r@[b],
            ) by {
                assert(le_u32()(r@[a], r@[b]) == (r@[a] <= r@[b]));
                if b < p {
                    assert(le_u32()(old_r[a], old_r[b]));
                } else if b == p {
                } else if a < p {
                    assert(le_u32()(old_r[a], old_r[b - 1]));
                } else if a == p {
                    assert(p < old_r.len());
                    assert(le_u32()(old_r[p as int], old_r[b - 1]));
                } else {
                    assert(le_u32()(old_r[a - 1], old_r[b - 1]));
                }
            }
            to_multiset_insert(old_r, p as int, x);
            assert(v@.take(i + 1) =~= v@.take(i as int).push(x));
            to_multiset_build(v@.take(i as int), x);
        }
        i = i + 1;
    }
    proof {
        assert(v@.take(v@.len() as int) =~= v@);
    }
    r
}

} // verus!
