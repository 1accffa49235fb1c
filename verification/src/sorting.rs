//! Sorting points into row-major order.

use crate::point::{precedes, precedes_eq, row_major, Point};
use vstd::prelude::*;
use vstd::seq_lib::{to_multiset_build, to_multiset_insert};

verus! {

/// Inserting `p` at position `at` keeps a row-major sequence row-major when
/// everything before `at` comes no later than `p` and everything from `at` on
/// comes later.
proof fn lemma_insert_keeps_row_major(s: Seq<Point>, at: int, p: Point)
    requires
        row_major(s),
        0 <= at <= s.len(),
        forall|k: int| 0 <= k < at ==> precedes_eq(s[k], p),
        forall|k: int| at <= k < s.len() ==> precedes(p, s[k]),
    ensures
        row_major(s.insert(at, p)),
{
    let t = s.insert(at, p);
    assert forall|i: int, j: int| 0 <= i < j < t.len() implies precedes_eq(t[i], t[j]) by {
        if j < at {
            assert(t[i] == s[i] && t[j] == s[j]);
        } else if j == at {
            assert(t[i] == s[i]);
        } else if i < at {
            assert(t[i] == s[i] && t[j] == s[j - 1]);
        } else if i == at {
            assert(t[j] == s[j - 1]);
        } else {
            assert(t[i] == s[i - 1] && t[j] == s[j - 1]);
        }
    }
}

/// Two row-major sequences that hold the same points the same number of times
/// are the same sequence: sorting has exactly one result.
pub proof fn lemma_row_major_unique(a: Seq<Point>, b: Seq<Point>)
    requires
        row_major(a),
        row_major(b),
        a.to_multiset() == b.to_multiset(),
    ensures
        a == b,
    decreases a.len(),
{
    broadcast use vstd::seq_lib::group_to_multiset_ensures;

    a.to_multiset_ensures();
    b.to_multiset_ensures();
    assert(a.len() == b.len());
    if a.len() > 0 {
        let la = a.last();
        let lb = b.last();
        // Each last element occurs in the other sequence, so neither can come
        // strictly before the other.
        assert(a.contains(la) && b.contains(lb));
        assert(b.to_multiset().count(la) > 0);
        assert(b.contains(la));
        assert(a.to_multiset().count(lb) > 0);
        assert(a.contains(lb));
        let ia = choose|i: int| 0 <= i < b.len() && b[i] == la;
        let ib = choose|i: int| 0 <= i < a.len() && a[i] == lb;
        assert(precedes_eq(la, lb)) by {
            if ia < b.len() - 1 {
                assert(precedes_eq(b[ia], b[b.len() - 1]));
            }
        }
        assert(precedes_eq(lb, la)) by {
            if ib < a.len() - 1 {
                assert(precedes_eq(a[ib], a[a.len() - 1]));
            }
        }
        assert(la == lb);
        let a0 = a.drop_last();
        let b0 = b.drop_last();
        assert(a0.push(la) =~= a);
        assert(b0.push(lb) =~= b);
        to_multiset_build(a0, la);
        to_multiset_build(b0, lb);
        assert(a0.to_multiset() =~= a.to_multiset().remove(la));
        assert(b0.to_multiset() =~= b.to_multiset().remove(lb));
        lemma_row_major_unique(a0, b0);
    } else {
        assert(a =~= b);
    }
}

/// Sorts `v` into ascending row-major order (by `y`, then by `x`). The result
/// holds the same points as before, each as often as before.
pub fn sort_row_major(v: &mut Vec<Point>)
    ensures
        row_major(final(v)@),
        final(v)@.to_multiset() == old(v)@.to_multiset(),
{
    let mut sorted: Vec<Point> = Vec::new();
    let mut i: usize = 0;
    assert(v@.take(0) =~= Seq::<Point>::empty());
    while i < v.len()
        invariant
            i <= v.len(),
            v@ == old(v)@,
            row_major(sorted@),
            sorted@.to_multiset() == v@.take(i as int).to_multiset(),
        decreases v.len() - i,
    {
        let p = v[i];
        let mut at: usize = 0;
        while at < sorted.len() && sorted[at] <= p
            invariant
                at <= sorted.len(),
                forall|k: int| 0 <= k < at ==> precedes_eq(sorted@[k], p),
            decreases sorted.len() - at,
        {
            at += 1;
        }
        proof {
            assert forall|k: int| at <= k < sorted@.len() implies precedes(p, sorted@[k]) by {
                assert(!precedes_eq(sorted@[at as int], p));
                if at < k {
                    assert(precedes_eq(sorted@[at as int], sorted@[k]));
                }
            }
            lemma_insert_keeps_row_major(sorted@, at as int, p);
            to_multiset_insert(sorted@, at as int, p);
            to_multiset_build(v@.take(i as int), p);
            assert(v@.take(i as int).push(p) =~= v@.take(i + 1));
        }
        sorted.insert(at, p);
        i += 1;
    }
    assert(v@.take(v.len() as int) =~= v@);
    *v = sorted;
}

} // verus!
