//! Strictly increasing vectors of ids used as ordered sets: lookup and
//! insertion by binary search, and the canonical order of a set.
use vstd::prelude::*;

verus! {

/// Strictly increasing values.
pub open spec fn strictly_ascending(s: Seq<u32>) -> bool {
    forall|i: int, j: int| 0 <= i < j < s.len() ==> s[i] < s[j]
}

/// The distinct values of `s` in increasing order.
pub open spec fn ascending_set(s: Seq<u32>) -> Seq<u32> {
    choose|r: Seq<u32>| strictly_ascending(r) && r.to_set() == s.to_set()
}

proof fn lemma_ascending_drop_first(a: Seq<u32>)
    requires
        strictly_ascending(a),
        a.len() > 0,
    ensures
        a.drop_first().to_set() == a.to_set().remove(a[0]),
        strictly_ascending(a.drop_first()),
        forall|x: u32| #[trigger] a.to_set().contains(x) ==> a[0] <= x,
{
    assert forall|x: u32| #[trigger] a.to_set().contains(x) implies a[0] <= x by {
        let k = choose|k: int| 0 <= k < a.len() && a[k] == x;
        if k > 0 {
            assert(a[0] < a[k]);
        }
    }
    assert forall|x: u32| a.drop_first().to_set().contains(x) <==> a.to_set().remove(
        a[0],
    ).contains(x) by {
        if a.drop_first().to_set().contains(x) {
            let k = choose|k: int| 0 <= k < a.drop_first().len() && a.drop_first()[k] == x;
            assert(a[k + 1] == x);
            assert(a[0] < a[k + 1]);
            assert(a.contains(x));
        }
        if a.to_set().remove(a[0]).contains(x) {
            let k = choose|k: int| 0 <= k < a.len() && a[k] == x;
            assert(k != 0);
            assert(a.drop_first()[k - 1] == x);
            assert(a.drop_first().contains(x));
        }
    }
    assert(a.drop_first().to_set() =~= a.to_set().remove(a[0]));
    assert forall|i: int, j: int| 0 <= i < j < a.drop_first().len() implies a.drop_first()[i]
        < a.drop_first()[j] by {
        assert(a[i + 1] < a[j + 1]);
    }
}

/// Two increasing sequences with the same values are the same sequence.
pub proof fn lemma_ascending_unique(a: Seq<u32>, b: Seq<u32>)
    requires
        strictly_ascending(a),
        strictly_ascending(b),
        a.to_set() == b.to_set(),
    ensures
        a == b,
    decreases a.len(),
{
    if a.len() == 0 {
        if b.len() > 0 {
            assert(b.to_set().contains(b[0]));
        }
        assert(a =~= b);
    } else {
        assert(a.to_set().contains(a[0]));
        assert(b.len() > 0);
        assert(b.to_set().contains(b[0]));
        lemma_ascending_drop_first(a);
        lemma_ascending_drop_first(b);
        assert(a[0] == b[0]);
        lemma_ascending_unique(a.drop_first(), b.drop_first());
        assert(a =~= seq![a[0]] + a.drop_first());
        assert(b =~= seq![b[0]] + b.drop_first());
    }
}

pub proof fn lemma_ascending_set_is(s: Seq<u32>, r: Seq<u32>)
    requires
        strictly_ascending(r),
        r.to_set() == s.to_set(),
    ensures
        ascending_set(s) == r,
{
    let c = ascending_set(s);
    assert(strictly_ascending(c) && c.to_set() == s.to_set());
    lemma_ascending_unique(c, r);
}

/// The values of a finite set in increasing order.
pub open spec fn ascending_of(st: Set<u32>) -> Seq<u32> {
    choose|r: Seq<u32>| strictly_ascending(r) && r.to_set() == st
}

/// Where `x` belongs in an increasing vector: every value before the
/// position is smaller, every value from it on is at least `x`.
pub fn position_ascending(v: &Vec<u32>, x: u32) -> (r: usize)
    requires
        strictly_ascending(v@),
    ensures
        r <= v.len(),
        forall|k: int| 0 <= k < r ==> v@[k] < x,
        forall|k: int| r <= k < v.len() ==> x <= v@[k],
{
    let mut lo: usize = 0;
    let mut hi: usize = v.len();
    while lo < hi
        invariant
            lo <= hi <= v.len(),
            strictly_ascending(v@),
            forall|k: int| 0 <= k < lo ==> v@[k] < x,
            forall|k: int| hi <= k < v.len() ==> x <= v@[k],
        decreases hi - lo,
    {
        let mid = lo + (hi - lo) / 2;
        if v[mid] < x {
            assert forall|k: int| 0 <= k < mid + 1 implies v@[k] < x by {
                if k < mid {
                    assert(v@[k] < v@[mid as int]);
                }
            }
            lo = mid + 1;
        } else {
            assert forall|k: int| mid <= k < v.len() implies x <= v@[k] by {
                if k > mid {
                    assert(v@[mid as int] < v@[k]);
                }
            }
            hi = mid;
        }
    }
    lo
}

/// Whether an increasing vector holds `x`.
pub fn contains_ascending(v: &Vec<u32>, x: u32) -> (r: bool)
    requires
        strictly_ascending(v@),
    ensures
        r == v@.contains(x),
{
    let i = position_ascending(v, x);
    if i < v.len() && v[i] == x {
        true
    } else {
        assert(!v@.contains(x)) by {
            if v@.contains(x) {
                let k = choose|k: int| 0 <= k < v@.len() && v@[k] == x;
                if k < i {
                } else {
                    assert(x <= v@[i as int]);
                    if k > i {
                        assert(v@[i as int] < v@[k]);
                    }
                }
            }
        }
        false
    }
}

/// Adds `x` to an increasing vector, keeping it increasing; says whether it
/// was new.
pub fn insert_ascending(v: &mut Vec<u32>, x: u32) -> (inserted: bool)
    requires
        strictly_ascending(old(v)@),
    ensures
        strictly_ascending(final(v)@),
        final(v)@.to_set() == old(v)@.to_set().insert(x),
        inserted == !old(v)@.contains(x),
{
    let i = position_ascending(v, x);
    let ghost before = v@;
    if i < v.len() && v[i] == x {
        assert(v@.to_set() =~= before.to_set().insert(x)) by {
            assert(before.contains(x));
        }
        false
    } else {
        v.insert(i, x);
        assert forall|a: int, b: int| 0 <= a < b < v@.len() implies v@[a] < v@[b] by {
            if b < i {
            } else if b == i {
            } else if a < i {
                assert(before[a] < before[b - 1]);
            } else if a == i {
                assert(x <= before[i as int]);
                assert(x != before[i as int]);
                if b - 1 > i {
                    assert(before[i as int] < before[b - 1]);
                }
            } else {
                assert(before[a - 1] < before[b - 1]);
            }
        }
        assert forall|y: u32| v@.contains(y) == (before.contains(y) || y == x) by {
            if v@.contains(y) {
                let k = choose|k: int| 0 <= k < v@.len() && v@[k] == y;
                if k < i {
                    assert(before[k] == y);
                } else if k > i {
                    assert(before[k - 1] == y);
                }
            }
            if before.contains(y) {
                let k = choose|k: int| 0 <= k < before.len() && before[k] == y;
                if k < i {
                    assert(v@[k] == y);
                } else {
                    assert(v@[k + 1] == y);
                }
            }
            if y == x {
                assert(v@[i as int] == x);
            }
        }
        let ghost after = v@;
        assert forall|y: u32| after.to_set().contains(y) == before.to_set().insert(x).contains(
            y,
        ) by {
            assert(after.contains(y) == (before.contains(y) || y == x));
        }
        assert(after.to_set() =~= before.to_set().insert(x));
        assert(!before.contains(x)) by {
            if before.contains(x) {
                let k = choose|k: int| 0 <= k < before.len() && before[k] == x;
                if k < i {
                } else {
                    assert(x <= before[i as int]);
                    if k > i {
                        assert(before[i as int] < before[k]);
                    }
                }
            }
        }
        true
    }
}

/// The distinct values of `v` in increasing order.
pub fn ascending_unique(v: &Vec<u32>) -> (r: Vec<u32>)
    ensures
        r@ == ascending_set(v@),
        strictly_ascending(r@),
        r@.to_set() == v@.to_set(),
{
    let mut r: Vec<u32> = Vec::new();
    let mut i: usize = 0;
    assert(r@.to_set() =~= v@.subrange(0, 0).to_set());
    while i < v.len()
        invariant
            i <= v.len(),
            strictly_ascending(r@),
            r@.to_set() == v@.subrange(0, i as int).to_set(),
        decreases v.len() - i,
    {
        insert_ascending(&mut r, v[i]);
        assert(v@.subrange(0, i + 1) =~= v@.subrange(0, i as int).push(v@[i as int]));
        proof {
            let p = v@.subrange(0, i as int);
            let q = v@.subrange(0, i + 1);
            let vi = v@[i as int];
            assert forall|y: u32| q.contains(y) == (p.contains(y) || y == vi) by {
                if q.contains(y) {
                    let k = choose|k: int| 0 <= k < q.len() && q[k] == y;
                    if k < i {
                        assert(p[k] == y);
                    }
                }
                if p.contains(y) {
                    let k = choose|k: int| 0 <= k < p.len() && p[k] == y;
                    assert(q[k] == y);
                }
                if y == vi {
                    assert(q[i as int] == y);
                }
            }
            assert(q.to_set() =~= p.to_set().insert(vi));
        }
        i = i + 1;
    }
    assert(v@.subrange(0, v.len() as int) =~= v@);
    proof {
        lemma_ascending_set_is(v@, r@);
    }
    r
}

} // verus!
