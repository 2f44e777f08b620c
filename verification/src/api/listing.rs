//! Ascending listings of identifier sets, as the API reports distinct identifiers.

use vstd::prelude::*;

verus! {

/// Every element is smaller than every later one.
pub open spec fn strictly_ascending(s: Seq<u64>) -> bool {
    forall|i: int, j: int| 0 <= i < j < s.len() ==> s[i] < s[j]
}

/// `s` lists the elements of `set` in strictly ascending order.
pub open spec fn lists_ascending(s: Seq<u64>, set: Set<u64>) -> bool {
    &&& strictly_ascending(s)
    &&& forall|x: u64| s.contains(x) <==> set.contains(x)
}

/// The elements of `set` in ascending order.
pub open spec fn ascending(set: Set<u64>) -> Seq<u64> {
    choose|s: Seq<u64>| lists_ascending(s, set)
}

/// A set has at most one ascending listing.
pub proof fn lemma_ascending_unique(a: Seq<u64>, b: Seq<u64>, set: Set<u64>)
    requires
        lists_ascending(a, set),
        lists_ascending(b, set),
    ensures
        a == b,
    decreases a.len(),
{
    if a.len() == 0 {
        if b.len() > 0 {
            assert(b.contains(b[0]));
            assert(a.contains(b[0]));
        }
        assert(a =~= b);
    } else {
        assert(a.contains(a[0]));
        assert(b.contains(a[0]));
        assert(b.contains(b[0]));
        assert(a.contains(b[0]));
        let k = choose|k: int| 0 <= k < a.len() && a[k] == b[0];
        let l = choose|l: int| 0 <= l < b.len() && b[l] == a[0];
        if k > 0 {
            assert(a[0] < b[0]);
            if l > 0 {
                assert(b[0] < a[0]);
            }
        }
        assert(a[0] == b[0]);
        let s2 = set.remove(a[0]);
        let ta = a.drop_first();
        let tb = b.drop_first();
        assert forall|x: u64| ta.contains(x) <==> s2.contains(x) by {
            if ta.contains(x) {
                let i = choose|i: int| 0 <= i < ta.len() && ta[i] == x;
                assert(a[i + 1] == x);
                assert(a.contains(x));
            }
            if s2.contains(x) {
                assert(a.contains(x));
                let i = choose|i: int| 0 <= i < a.len() && a[i] == x;
                assert(i != 0);
                assert(ta[i - 1] == x);
            }
        }
        assert forall|x: u64| tb.contains(x) <==> s2.contains(x) by {
            if tb.contains(x) {
                let i = choose|i: int| 0 <= i < tb.len() && tb[i] == x;
                assert(b[i + 1] == x);
                assert(b.contains(x));
            }
            if s2.contains(x) {
                assert(b.contains(x));
                let i = choose|i: int| 0 <= i < b.len() && b[i] == x;
                assert(i != 0);
                assert(tb[i - 1] == x);
            }
        }
        lemma_ascending_unique(ta, tb, s2);
        assert(a =~= b) by {
            assert forall|i: int| 0 <= i < a.len() implies a[i] == b[i] by {
                if i > 0 {
                    assert(ta[i - 1] == tb[i - 1]);
                }
            }
        }
    }
}

/// An ascending listing of `set` is the listing `ascending(set)`.
pub proof fn lemma_ascending_is(s: Seq<u64>, set: Set<u64>)
    requires
        lists_ascending(s, set),
    ensures
        ascending(set) == s,
        set.finite(),
        set.len() == s.len(),
{
    lemma_ascending_unique(ascending(set), s, set);
    assert(set =~= s.to_set());
    assert(s.no_duplicates()) by {
        assert forall|i: int, j: int| 0 <= i < s.len() && 0 <= j < s.len() && i != j implies s[i] != s[j] by {
            if i < j {
                assert(s[i] < s[j]);
            } else {
                assert(s[j] < s[i]);
            }
        }
    }
    s.unique_seq_to_set();
}

/// Inserts `x` into an ascending vector, unless it is there already.
pub fn insert_ascending(v: &mut Vec<u64>, x: u64)
    requires
        strictly_ascending(old(v)@),
    ensures
        strictly_ascending(final(v)@),
        forall|y: u64| final(v)@.contains(y) <==> (old(v)@.contains(y) || y == x),
{
    let mut p: usize = 0;
    while p < v.len() && v[p] < x
        invariant
            p <= v@.len(),
            v@ == old(v)@,
            forall|i: int| 0 <= i < p ==> v@[i] < x,
        decreases v@.len() - p,
    {
        p = p + 1;
    }
    if p < v.len() && v[p] == x {
        assert(v@.contains(x));
        return;
    }
    let ghost before = v@;
    v.insert(p, x);
    proof {
        let after = v@;
        assert(after == before.insert(p as int, x));
        assert(p < before.len() ==> before[p as int] > x);
        assert forall|i: int, j: int| 0 <= i < j < after.len() implies after[i] < after[j] by {
            if j < p {
            } else if j == p {
            } else if i < p {
                assert(before[i] < x);
                assert(before[p as int] > x);
                if p < j - 1 {
                    assert(before[p as int] < before[j - 1]);
                }
            } else if i == p {
                assert(before[p as int] > x);
                if p < j - 1 {
                    assert(before[p as int] < before[j - 1]);
                }
            } else {
                assert(before[i - 1] < before[j - 1]);
            }
        }
        assert forall|y: u64| after.contains(y) <==> (before.contains(y) || y == x) by {
            if after.contains(y) {
                let i = choose|i: int| 0 <= i < after.len() && after[i] == y;
                if i < p {
                    assert(before[i] == y);
                } else if i > p {
                    assert(before[i - 1] == y);
                }
            }
            if before.contains(y) {
                let i = choose|i: int| 0 <= i < before.len() && before[i] == y;
                if i < p {
                    assert(after[i] == y);
                } else {
                    assert(after[i + 1] == y);
                }
            }
            if y == x {
                assert(after[p as int] == x);
            }
        }
    }
}

} // verus!
