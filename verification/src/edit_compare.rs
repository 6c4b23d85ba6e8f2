//! Which states an edit session has changed, compared with the states as
//! they were loaded.
use vstd::prelude::*;
use std::collections::BTreeMap;
use std::collections::BTreeSet;
use crate::collections::{map_keys, set_items};
use crate::state::{Buildings, EditableStateProperties, PropertiesView, VictoryPoint};
use crate::working_set::{StateWorkingSet, lemma_filter_step};

verus! {

broadcast use vstd::std_specs::btree::group_btree_axioms;

pub open spec fn is_point(x: VictoryPoint) -> spec_fn(VictoryPoint) -> bool {
    |v: VictoryPoint| v == x
}

/// How often `x` occurs in a list of victory points.
pub open spec fn occurrences(s: Seq<VictoryPoint>, x: VictoryPoint) -> nat {
    s.filter(is_point(x)).len()
}

/// Two lists hold the same victory points, in any order.
pub open spec fn same_points(a: Seq<VictoryPoint>, b: Seq<VictoryPoint>) -> bool {
    &&& a.len() == b.len()
    &&& forall|i: int| 0 <= i < a.len() ==> occurrences(a, #[trigger] a[i]) == occurrences(b, a[i])
}

pub open spec fn buildings_map_view(m: Map<u32, Buildings>) -> Map<u32, Seq<(Seq<char>, i64)>> {
    Map::new(|k: u32| m.contains_key(k), |k: u32| m[k]@)
}

pub open spec fn list_entry(m: Map<u32, BTreeSet<u32>>, s: u32) -> Option<Set<u32>> {
    if m.contains_key(s) { Some(m[s]@) } else { None }
}

pub open spec fn properties_entry(m: Map<u32, EditableStateProperties>, s: u32) -> Option<PropertiesView> {
    if m.contains_key(s) { Some(m[s]@) } else { None }
}

pub open spec fn points_entry(m: Map<u32, Vec<VictoryPoint>>, s: u32) -> Seq<VictoryPoint> {
    if m.contains_key(s) { m[s]@ } else { Seq::empty() }
}

pub open spec fn buildings_entry(m: Map<u32, BTreeMap<u32, Buildings>>, s: u32) -> Option<Map<u32, Seq<(Seq<char>, i64)>>> {
    if m.contains_key(s) { Some(buildings_map_view(m[s]@)) } else { None }
}

/// State `s` differs between the two working sets: its province list,
/// properties, victory points (in any order) or province buildings.
pub open spec fn state_differs(base: StateWorkingSet, work: StateWorkingSet, s: u32) -> bool {
    ||| list_entry(base.provinces_by_state@, s) != list_entry(work.provinces_by_state@, s)
    ||| properties_entry(base.properties_by_state@, s) != properties_entry(work.properties_by_state@, s)
    ||| !same_points(points_entry(base.victory_points_by_state@, s), points_entry(work.victory_points_by_state@, s))
    ||| buildings_entry(base.province_buildings_by_state@, s) != buildings_entry(work.province_buildings_by_state@, s)
}

fn count_occurrences(s: &Vec<VictoryPoint>, x: VictoryPoint) -> (r: usize)
    ensures
        r == occurrences(s@, x),
{
    let ghost f = is_point(x);
    let mut count: usize = 0;
    let mut i: usize = 0;
    while i < s.len()
        invariant
            i <= s@.len(),
            f == is_point(x),
            count == s@.take(i as int).filter(f).len(),
            count <= i,
        decreases s@.len() - i,
    {
        proof {
            lemma_filter_step(s@, f, i as int);
            assert(f(s@[i as int]) <==> s@[i as int] == x);
        }
        if s[i] == x {
            count = count + 1;
        }
        i = i + 1;
    }
    proof {
        assert(s@.take(s@.len() as int) =~= s@);
    }
    count
}

/// Whether two lists hold the same victory points, in any order.
pub fn same_point_lists(a: &Vec<VictoryPoint>, b: &Vec<VictoryPoint>) -> (r: bool)
    ensures
        r == same_points(a@, b@),
{
    if a.len() != b.len() {
        return false;
    }
    let mut i: usize = 0;
    while i < a.len()
        invariant
            i <= a@.len(),
            a@.len() == b@.len(),
            forall|k: int| 0 <= k < i ==> occurrences(a@, #[trigger] a@[k]) == occurrences(b@, a@[k]),
        decreases a@.len() - i,
    {
        if count_occurrences(a, a[i]) != count_occurrences(b, a[i]) {
            return false;
        }
        i = i + 1;
    }
    true
}

fn all_contained(items: &Vec<u32>, set: &BTreeSet<u32>) -> (r: bool)
    ensures
        r == (forall|k: int| 0 <= k < items@.len() ==> set@.contains(#[trigger] items@[k])),
{
    let mut i: usize = 0;
    while i < items.len()
        invariant
            i <= items@.len(),
            forall|k: int| 0 <= k < i ==> set@.contains(#[trigger] items@[k]),
        decreases items@.len() - i,
    {
        if !set.contains(&items[i]) {
            return false;
        }
        i = i + 1;
    }
    true
}

fn same_sets(a: &BTreeSet<u32>, b: &BTreeSet<u32>) -> (r: bool)
    ensures
        r == (a@ == b@),
{
    let left = set_items(a);
    let right = set_items(b);
    let l = all_contained(&left, b);
    let rr = all_contained(&right, a);
    proof {
        if l && rr {
            assert forall|x: u32| a@.contains(x) <==> b@.contains(x) by {
                if a@.contains(x) {
                    assert(left@.to_set().contains(x));
                    let k = choose|k: int| 0 <= k < left@.len() && left@[k] == x;
                }
                if b@.contains(x) {
                    assert(right@.to_set().contains(x));
                    let k = choose|k: int| 0 <= k < right@.len() && right@[k] == x;
                }
            }
            assert(a@ =~= b@);
        }
        if !l {
            let k = choose|k: int| 0 <= k < left@.len() && !b@.contains(#[trigger] left@[k]);
            assert(left@.to_set().contains(left@[k]));
        }
        if !rr {
            let k = choose|k: int| 0 <= k < right@.len() && !a@.contains(#[trigger] right@[k]);
            assert(right@.to_set().contains(right@[k]));
        }
    }
    l && rr
}

fn same_building_maps(a: &BTreeMap<u32, Buildings>, b: &BTreeMap<u32, Buildings>) -> (r: bool)
    ensures
        r == (buildings_map_view(a@) == buildings_map_view(b@)),
{
    let left = map_keys(a);
    let right = map_keys(b);
    let mut i: usize = 0;
    while i < left.len()
        invariant
            i <= left@.len(),
            left@.to_set() == a@.dom(),
            forall|k: int| 0 <= k < i ==> b@.contains_key(#[trigger] left@[k]) && a@[left@[k]]@ == b@[left@[k]]@,
        decreases left@.len() - i,
    {
        let key = left[i];
        proof {
            assert(left@.to_set().contains(key));
        }
        let x = a.get(&key).unwrap();
        match b.get(&key) {
            Some(y) => {
                if !x.same_as(y) {
                    proof {
                        assert(buildings_map_view(a@)[key] != buildings_map_view(b@)[key]);
                    }
                    return false;
                }
            },
            None => {
                proof {
                    assert(!buildings_map_view(b@).contains_key(key));
                }
                return false;
            },
        }
        i = i + 1;
    }
    let mut j: usize = 0;
    while j < right.len()
        invariant
            j <= right@.len(),
            right@.to_set() == b@.dom(),
            forall|k: int| 0 <= k < j ==> a@.contains_key(#[trigger] right@[k]),
        decreases right@.len() - j,
    {
        if !a.contains_key(&right[j]) {
            proof {
                assert(right@.to_set().contains(right@[j as int]));
                assert(!buildings_map_view(a@).contains_key(right@[j as int]));
            }
            return false;
        }
        j = j + 1;
    }
    proof {
        assert forall|x: u32| a@.contains_key(x) <==> b@.contains_key(x) by {
            if a@.contains_key(x) {
                assert(left@.to_set().contains(x));
                let k = choose|k: int| 0 <= k < left@.len() && left@[k] == x;
            }
            if b@.contains_key(x) {
                assert(right@.to_set().contains(x));
                let k = choose|k: int| 0 <= k < right@.len() && right@[k] == x;
            }
        }
        assert forall|x: u32| a@.contains_key(x) implies a@[x]@ == b@[x]@ by {
            assert(left@.to_set().contains(x));
            let k = choose|k: int| 0 <= k < left@.len() && left@[k] == x;
        }
        assert(buildings_map_view(a@) =~= buildings_map_view(b@));
    }
    true
}

/// Whether state `s` differs between the two working sets.
pub fn state_changed(base: &StateWorkingSet, work: &StateWorkingSet, s: u32) -> (r: bool)
    ensures
        r == state_differs(*base, *work, s),
{
    let lists_differ = match (base.provinces_by_state.get(&s), work.provinces_by_state.get(&s)) {
        (Some(a), Some(b)) => !same_sets(a, b),
        (None, None) => false,
        _ => true,
    };
    let properties_differ = match (base.properties_by_state.get(&s), work.properties_by_state.get(&s)) {
        (Some(a), Some(b)) => !a.same_as(b),
        (None, None) => false,
        _ => true,
    };
    let empty: Vec<VictoryPoint> = Vec::new();
    let points_differ = {
        let a = match base.victory_points_by_state.get(&s) {
            Some(a) => a,
            None => &empty,
        };
        let b = match work.victory_points_by_state.get(&s) {
            Some(b) => b,
            None => &empty,
        };
        !same_point_lists(a, b)
    };
    let buildings_differ = match (base.province_buildings_by_state.get(&s), work.province_buildings_by_state.get(&s)) {
        (Some(a), Some(b)) => !same_building_maps(a, b),
        (None, None) => false,
        _ => true,
    };
    lists_differ || properties_differ || points_differ || buildings_differ
}

fn insert_keys<V>(out: &mut BTreeSet<u32>, m: &BTreeMap<u32, V>)
    ensures
        final(out)@ == old(out)@.union(m@.dom()),
{
    let keys = map_keys(m);
    let mut i: usize = 0;
    while i < keys.len()
        invariant
            i <= keys@.len(),
            keys@.to_set() == m@.dom(),
            out@ == old(out)@.union(keys@.take(i as int).to_set()),
        decreases keys@.len() - i,
    {
        proof {
            assert(keys@.take(i + 1) =~= keys@.take(i as int).push(keys@[i as int]));
            crate::facts::lemma_push_to_set(keys@.take(i as int), keys@[i as int]);
        }
        out.insert(keys[i]);
        proof {
            assert(out@ =~= old(out)@.union(keys@.take(i + 1).to_set()));
        }
        i = i + 1;
    }
    proof {
        assert(keys@.take(keys@.len() as int) =~= keys@);
    }
}

/// The states that differ between the two working sets.
pub fn changed_states(base: &StateWorkingSet, work: &StateWorkingSet) -> (r: BTreeSet<u32>)
    ensures
        r@ == Set::new(|s: u32| state_differs(*base, *work, s)),
{
    let mut ids: BTreeSet<u32> = BTreeSet::new();
    insert_keys(&mut ids, &base.provinces_by_state);
    insert_keys(&mut ids, &work.provinces_by_state);
    insert_keys(&mut ids, &base.properties_by_state);
    insert_keys(&mut ids, &work.properties_by_state);
    insert_keys(&mut ids, &base.victory_points_by_state);
    insert_keys(&mut ids, &work.victory_points_by_state);
    insert_keys(&mut ids, &base.province_buildings_by_state);
    insert_keys(&mut ids, &work.province_buildings_by_state);
    let items = set_items(&ids);
    let mut out: BTreeSet<u32> = BTreeSet::new();
    let mut i: usize = 0;
    while i < items.len()
        invariant
            i <= items@.len(),
            out@ == Set::new(|s: u32| items@.take(i as int).contains(s) && state_differs(*base, *work, s)),
        decreases items@.len() - i,
    {
        let s = items[i];
        if state_changed(base, work, s) {
            out.insert(s);
        }
        proof {
            let a = items@.take(i as int);
            let b = items@.take(i + 1);
            assert forall|t: u32| b.contains(t) <==> a.contains(t) || t == s by {
                if b.contains(t) {
                    let x = choose|x: int| 0 <= x < b.len() && b[x] == t;
                    if x < i {
                        assert(a[x] == t);
                    }
                }
                if a.contains(t) {
                    let x = choose|x: int| 0 <= x < a.len() && a[x] == t;
                    assert(b[x] == t);
                }
                if t == s {
                    assert(b[i as int] == s);
                }
            }
            assert(out@ =~= Set::new(|t: u32| b.contains(t) && state_differs(*base, *work, t)));
        }
        i = i + 1;
    }
    proof {
        assert(items@.take(items@.len() as int) =~= items@);
        assert forall|s: u32| state_differs(*base, *work, s) implies items@.contains(s) by {
            if !ids@.contains(s) {
                assert(points_entry(base.victory_points_by_state@, s) =~= Seq::<VictoryPoint>::empty());
                assert(points_entry(work.victory_points_by_state@, s) =~= Seq::<VictoryPoint>::empty());
            }
            assert(items@.to_set().contains(s));
        }
        assert(out@ =~= Set::new(|s: u32| state_differs(*base, *work, s)));
    }
    out
}

proof fn lemma_occurrences_add(a: Seq<VictoryPoint>, b: Seq<VictoryPoint>, x: VictoryPoint)
    ensures
        occurrences(a + b, x) == occurrences(a, x) + occurrences(b, x),
{
    Seq::filter_distributes_over_add(a, b, is_point(x));
}

/// Comparing victory point lists ignores their order: a list holds the same
/// points as itself and as the same points listed in another order (here,
/// two parts swapped), and the relation goes both ways; lists of different
/// lengths never hold the same points. A working set compared with itself
/// differs in no state.
pub proof fn lemma_comparison_laws(a: Seq<VictoryPoint>, b: Seq<VictoryPoint>, w: StateWorkingSet, s: u32)
    ensures
        same_points(a, a),
        same_points(a + b, b + a),
        a.len() != b.len() ==> !same_points(a, b),
        same_points(a, b) ==> forall|i: int| 0 <= i < a.len() ==> occurrences(b, #[trigger] a[i]) > 0,
        !state_differs(w, w, s),
{
    assert forall|i: int| 0 <= i < (a + b).len() implies occurrences(a + b, #[trigger] (a + b)[i]) == occurrences(b + a, (a + b)[i]) by {
        lemma_occurrences_add(a, b, (a + b)[i]);
        lemma_occurrences_add(b, a, (a + b)[i]);
    }
    if same_points(a, b) {
        assert forall|i: int| 0 <= i < a.len() implies occurrences(b, #[trigger] a[i]) > 0 by {
            let f = is_point(a[i]);
            a.filter_lemma(f);
            assert(a.filter(f).contains(a[i]));
        }
    }
}

} // verus!
