//! The editable copy of the project's states: both province indexes, the
//! state properties, victory points and province buildings, and the
//! provincial data of provinces that are currently unassigned.
use vstd::prelude::*;
use std::collections::BTreeMap;
use std::collections::BTreeSet;
use crate::collections::{map_keys, set_items};
use crate::edit_model::{
    IndexState, ProvinceEditDelta, distinct_provinces, last_source, last_target, lemma_last_target_some,
    lemma_moved_backward_closed, lemma_moved_forward_closed, move_one, moved_backward, moved_forward, opt_get,
    preimage, properties_views,
};
use crate::state::{
    Buildings, EditableProvinceData, EditableStateProperties, ProvinceKind, StateData, VictoryPoint,
};

verus! {

broadcast use vstd::std_specs::btree::group_btree_axioms;

/// The victory points of province `p` in a list.
pub open spec fn points_of(s: Seq<VictoryPoint>, p: u32) -> Seq<VictoryPoint> {
    s.filter(|v: VictoryPoint| v.province_id == p)
}

/// A list without the victory points of province `p`.
pub open spec fn points_without(s: Seq<VictoryPoint>, p: u32) -> Seq<VictoryPoint> {
    s.filter(|v: VictoryPoint| v.province_id != p)
}

/// The value of the first victory point of province `p` in a list.
pub open spec fn first_value_of(s: Seq<VictoryPoint>, p: u32) -> Option<i64>
    decreases s.len(),
{
    if s.len() == 0 {
        None
    } else if s[0].province_id == p {
        Some(s[0].value)
    } else {
        first_value_of(s.drop_first(), p)
    }
}

/// Where the first victory point of province `p` stands in a list.
pub open spec fn first_position_of(s: Seq<VictoryPoint>, p: u32) -> Option<int>
    decreases s.len(),
{
    if s.len() == 0 {
        None
    } else if s[0].province_id == p {
        Some(0)
    } else {
        match first_position_of(s.drop_first(), p) {
            Some(i) => Some(i + 1),
            None => None,
        }
    }
}

pub proof fn lemma_filter_step(s: Seq<VictoryPoint>, f: spec_fn(VictoryPoint) -> bool, i: int)
    requires
        0 <= i < s.len(),
    ensures
        s.take(i + 1).filter(f) == (if f(s[i]) {
            s.take(i).filter(f).push(s[i])
        } else {
            s.take(i).filter(f)
        }),
{
    reveal(Seq::filter);
    assert(s.take(i + 1).drop_last() =~= s.take(i));
}

proof fn lemma_first_value_skip(s: Seq<VictoryPoint>, p: u32, i: int)
    requires
        0 <= i < s.len(),
        s[i].province_id != p,
    ensures
        first_value_of(s.skip(i), p) == first_value_of(s.skip(i + 1), p),
        first_position_of(s.skip(i), p) == (match first_position_of(s.skip(i + 1), p) {
            Some(k) => Some(k + 1),
            None => None,
        }),
{
    assert(s.skip(i).drop_first() =~= s.skip(i + 1));
}

proof fn lemma_first_value_none(s: Seq<VictoryPoint>, p: u32)
    requires
        forall|i: int| 0 <= i < s.len() ==> (#[trigger] s[i]).province_id != p,
    ensures
        first_value_of(s, p) is None,
    decreases s.len(),
{
    if s.len() > 0 {
        lemma_first_value_none(s.drop_first(), p);
    }
}

proof fn lemma_first_value_insert(s: Seq<VictoryPoint>, k: int, x: VictoryPoint)
    requires
        0 <= k <= s.len(),
        forall|i: int| 0 <= i < s.len() ==> (#[trigger] s[i]).province_id != x.province_id,
    ensures
        first_value_of(s.insert(k, x), x.province_id) == Some(x.value),
    decreases k,
{
    if k > 0 {
        assert(s.insert(k, x).drop_first() =~= s.drop_first().insert(k - 1, x));
        lemma_first_value_insert(s.drop_first(), k - 1, x);
    }
}

proof fn lemma_without_has_none(s: Seq<VictoryPoint>, p: u32)
    ensures
        forall|i: int| 0 <= i < points_without(s, p).len() ==> (#[trigger] points_without(s, p)[i]).province_id != p,
{
    let f = |v: VictoryPoint| v.province_id != p;
    assert forall|i: int| 0 <= i < points_without(s, p).len() implies (#[trigger] points_without(s, p)[i]).province_id != p by {
        s.filter_lemma(f);
    }
}

/// The victory points of province `p` in a list.
fn copy_points_of(s: &Vec<VictoryPoint>, p: u32) -> (r: Vec<VictoryPoint>)
    ensures
        r@ == points_of(s@, p),
{
    let ghost f = |v: VictoryPoint| v.province_id == p;
    let mut out: Vec<VictoryPoint> = Vec::new();
    let mut i: usize = 0;
    while i < s.len()
        invariant
            i <= s@.len(),
            out@ == s@.take(i as int).filter(f),
            f == (|v: VictoryPoint| v.province_id == p),
        decreases s@.len() - i,
    {
        proof {
            lemma_filter_step(s@, f, i as int);
        }
        if s[i].province_id == p {
            out.push(s[i]);
        }
        i = i + 1;
    }
    proof {
        assert(s@.take(s@.len() as int) =~= s@);
    }
    out
}

/// A list without the victory points of province `p`, in order.
fn copy_points_without(s: &Vec<VictoryPoint>, p: u32) -> (r: Vec<VictoryPoint>)
    ensures
        r@ == points_without(s@, p),
{
    let ghost f = |v: VictoryPoint| v.province_id != p;
    let mut out: Vec<VictoryPoint> = Vec::new();
    let mut i: usize = 0;
    while i < s.len()
        invariant
            i <= s@.len(),
            out@ == s@.take(i as int).filter(f),
            f == (|v: VictoryPoint| v.province_id != p),
        decreases s@.len() - i,
    {
        proof {
            lemma_filter_step(s@, f, i as int);
        }
        if s[i].province_id != p {
            out.push(s[i]);
        }
        i = i + 1;
    }
    proof {
        assert(s@.take(s@.len() as int) =~= s@);
    }
    out
}

/// An element-by-element copy of a list of victory points.
pub fn copy_points(s: &Vec<VictoryPoint>) -> (r: Vec<VictoryPoint>)
    ensures
        r@ == s@,
{
    let mut out: Vec<VictoryPoint> = Vec::new();
    let mut i: usize = 0;
    while i < s.len()
        invariant
            i <= s@.len(),
            out@ == s@.take(i as int),
        decreases s@.len() - i,
    {
        out.push(s[i]);
        proof {
            assert(out@ =~= s@.take(i + 1));
        }
        i = i + 1;
    }
    proof {
        assert(s@.take(s@.len() as int) =~= s@);
    }
    out
}

/// The first victory point value of province `p` and where it stands.
fn first_point_of(s: &Vec<VictoryPoint>, p: u32) -> (r: Option<(usize, i64)>)
    ensures
        match r {
            Some((i, v)) => first_position_of(s@, p) == Some(i as int) && first_value_of(s@, p) == Some(v),
            None => first_position_of(s@, p) is None && first_value_of(s@, p) is None,
        },
{
    let mut i: usize = 0;
    proof {
        assert(s@.skip(0) =~= s@);
    }
    while i < s.len()
        invariant
            i <= s@.len(),
            first_value_of(s@, p) == first_value_of(s@.skip(i as int), p),
            first_position_of(s@, p) == (match first_position_of(s@.skip(i as int), p) {
                Some(k) => Some(k + i),
                None => None,
            }),
        decreases s@.len() - i,
    {
        if s[i].province_id == p {
            proof {
                assert(s@.skip(i as int)[0] == s@[i as int]);
            }
            return Some((i, s[i].value));
        }
        proof {
            lemma_first_value_skip(s@, p, i as int);
        }
        i = i + 1;
    }
    proof {
        assert(s@.skip(i as int).len() == 0);
    }
    None
}

pub open spec fn set_map_view(m: Map<u32, BTreeSet<u32>>) -> Map<u32, Set<u32>> {
    Map::new(|k: u32| m.contains_key(k), |k: u32| m[k]@)
}

/// Victory point lists by key, as sequences.
pub open spec fn point_lists(m: Map<u32, Vec<VictoryPoint>>) -> Map<u32, Seq<VictoryPoint>> {
    Map::new(|k: u32| m.contains_key(k), |k: u32| m[k]@)
}

/// Buildings by province, by their views.
pub open spec fn building_views(m: Map<u32, Buildings>) -> Map<u32, Seq<(Seq<char>, i64)>> {
    Map::new(|q: u32| m.contains_key(q), |q: u32| m[q]@)
}

/// Buildings by state and province, by their views.
pub open spec fn building_lists(m: Map<u32, BTreeMap<u32, Buildings>>) -> Map<
    u32,
    Map<u32, Seq<(Seq<char>, i64)>>,
> {
    Map::new(|k: u32| m.contains_key(k), |k: u32| building_views(m[k]@))
}

/// The victory point lists, by state and detached by province, once the
/// points of province `p` are taken out of `state`.
pub open spec fn points_removed(
    by_state: Map<u32, Seq<VictoryPoint>>,
    detached: Map<u32, Seq<VictoryPoint>>,
    state: Option<u32>,
    p: u32,
) -> (Map<u32, Seq<VictoryPoint>>, Map<u32, Seq<VictoryPoint>>) {
    match state {
        Some(s) => (
            if by_state.contains_key(s) {
                by_state.insert(s, points_without(by_state[s], p))
            } else {
                by_state
            },
            detached,
        ),
        None => (by_state, detached.remove(p)),
    }
}

/// The victory point lists once the points `moved` of province `p` go from
/// `from` to `to`: appended to the list of state `to`, or kept detached
/// for the province; nothing is added when there are none.
pub open spec fn points_moved(
    by_state: Map<u32, Seq<VictoryPoint>>,
    detached: Map<u32, Seq<VictoryPoint>>,
    p: u32,
    from: Option<u32>,
    to: Option<u32>,
    moved: Seq<VictoryPoint>,
) -> (Map<u32, Seq<VictoryPoint>>, Map<u32, Seq<VictoryPoint>>) {
    let (b, d) = points_removed(by_state, detached, from, p);
    if moved.len() == 0 {
        (b, d)
    } else {
        match to {
            Some(t) => (
                b.insert(t, (if b.contains_key(t) { b[t] } else { Seq::empty() }) + moved),
                d,
            ),
            None => (b, d.insert(p, moved)),
        }
    }
}

/// The buildings, by state and province and detached by province, once
/// the buildings of province `p` are taken out of `state`.
pub open spec fn buildings_removed(
    by_state: Map<u32, Map<u32, Seq<(Seq<char>, i64)>>>,
    detached: Map<u32, Seq<(Seq<char>, i64)>>,
    state: Option<u32>,
    p: u32,
) -> (Map<u32, Map<u32, Seq<(Seq<char>, i64)>>>, Map<u32, Seq<(Seq<char>, i64)>>) {
    match state {
        Some(s) => (
            if by_state.contains_key(s) {
                by_state.insert(s, by_state[s].remove(p))
            } else {
                by_state
            },
            detached,
        ),
        None => (by_state, detached.remove(p)),
    }
}

/// The buildings once the buildings `moved` of province `p`, if any, go
/// from `from` to `to`: into the buildings of state `to`, or kept detached
/// for the province.
pub open spec fn buildings_moved(
    by_state: Map<u32, Map<u32, Seq<(Seq<char>, i64)>>>,
    detached: Map<u32, Seq<(Seq<char>, i64)>>,
    p: u32,
    from: Option<u32>,
    to: Option<u32>,
    moved: Option<Seq<(Seq<char>, i64)>>,
) -> (Map<u32, Map<u32, Seq<(Seq<char>, i64)>>>, Map<u32, Seq<(Seq<char>, i64)>>) {
    let (b, d) = buildings_removed(by_state, detached, from, p);
    match moved {
        None => (b, d),
        Some(m) => match to {
            Some(t) => (
                b.insert(t, (if b.contains_key(t) { b[t] } else { Map::empty() }).insert(p, m)),
                d,
            ),
            None => (b, d.insert(p, m)),
        },
    }
}

/// The victory points that province `p` owns in `state`, read from the
/// lists by state and the detached lists by province.
pub open spec fn owned(
    by_state: Map<u32, Seq<VictoryPoint>>,
    detached: Map<u32, Seq<VictoryPoint>>,
    state: Option<u32>,
    p: u32,
) -> Seq<VictoryPoint> {
    match state {
        Some(s) => if by_state.contains_key(s) {
            points_of(by_state[s], p)
        } else {
            Seq::empty()
        },
        None => if detached.contains_key(p) {
            detached[p]
        } else {
            Seq::empty()
        },
    }
}

/// Every victory point of the list belongs to province `p`.
pub open spec fn all_of(points: Seq<VictoryPoint>, p: u32) -> bool {
    forall|i: int| 0 <= i < points.len() ==> (#[trigger] points[i]).province_id == p
}

/// Each detached list holds only victory points of its own province.
pub open spec fn detached_own(detached: Map<u32, Seq<VictoryPoint>>) -> bool {
    forall|k: u32| #[trigger] detached.contains_key(k) ==> all_of(detached[k], k)
}

/// What province `p` owns at `to` once its points `moved` arrive there:
/// appended to a state's list, or replacing its detached list when there
/// are any.
pub open spec fn arrived(before: Seq<VictoryPoint>, to: Option<u32>, moved: Seq<VictoryPoint>) -> Seq<VictoryPoint> {
    match to {
        Some(_) => before + moved,
        None => if moved.len() > 0 {
            moved
        } else {
            before
        },
    }
}

pub proof fn lemma_points_of_without(s: Seq<VictoryPoint>, q: u32, p: u32)
    ensures
        points_of(points_without(s, q), p) == (if p == q { Seq::<VictoryPoint>::empty() } else { points_of(s, p) }),
    decreases s.len(),
{
    reveal(Seq::filter);
    if s.len() > 0 {
        lemma_points_of_without(s.drop_last(), q, p);
        assert(points_without(s, q) == (if s.last().province_id != q {
            points_without(s.drop_last(), q).push(s.last())
        } else {
            points_without(s.drop_last(), q)
        }));
        let w = points_without(s.drop_last(), q);
        if s.last().province_id != q {
            assert(w.push(s.last()).drop_last() =~= w);
            assert(points_of(w.push(s.last()), p) == (if s.last().province_id == p {
                points_of(w, p).push(s.last())
            } else {
                points_of(w, p)
            }));
        }
        assert(points_of(points_without(s, q), p) =~= (if p == q { Seq::<VictoryPoint>::empty() } else { points_of(s, p) }));
    } else {
        assert(points_of(points_without(s, q), p) =~= Seq::<VictoryPoint>::empty());
    }
}

pub proof fn lemma_points_of_add(a: Seq<VictoryPoint>, b: Seq<VictoryPoint>, p: u32)
    ensures
        points_of(a + b, p) == points_of(a, p) + points_of(b, p),
{
    Seq::filter_distributes_over_add(a, b, |v: VictoryPoint| v.province_id == p);
}

pub proof fn lemma_points_of_all(m: Seq<VictoryPoint>, q: u32, p: u32)
    requires
        all_of(m, q),
    ensures
        points_of(m, p) == (if p == q { m } else { Seq::<VictoryPoint>::empty() }),
    decreases m.len(),
{
    reveal(Seq::filter);
    if m.len() > 0 {
        lemma_points_of_all(m.drop_last(), q, p);
        assert(m.drop_last().push(m.last()) =~= m);
        assert(m.last() == m[m.len() - 1]);
        assert(points_of(m, p) =~= (if p == q { m } else { Seq::<VictoryPoint>::empty() }));
    } else {
        assert(points_of(m, p) =~= Seq::<VictoryPoint>::empty());
    }
}

/// One move of province `q`'s points leaves every other province's points
/// where they were, empties `q`'s points at `from`, and brings them to `to`.
pub proof fn lemma_points_moved_owned(
    b: Map<u32, Seq<VictoryPoint>>,
    d: Map<u32, Seq<VictoryPoint>>,
    q: u32,
    from: Option<u32>,
    to: Option<u32>,
    moved: Seq<VictoryPoint>,
)
    requires
        from != to,
        all_of(moved, q),
    ensures
        ({
            let (b2, d2) = points_moved(b, d, q, from, to, moved);
            &&& forall|p: u32, s: Option<u32>| p != q ==> #[trigger] owned(b2, d2, s, p) == owned(b, d, s, p)
            &&& owned(b2, d2, to, q) == arrived(owned(b, d, to, q), to, moved)
            &&& owned(b2, d2, from, q) == Seq::<VictoryPoint>::empty()
            &&& (detached_own(d) ==> detached_own(d2))
        }),
{
    let (b1, d1) = points_removed(b, d, from, q);
    let (b2, d2) = points_moved(b, d, q, from, to, moved);
    assert forall|p: u32, s: Option<u32>| p != q implies #[trigger] owned(b2, d2, s, p) == owned(b, d, s, p) by {
        if let Some(t) = s {
            if let Some(f) = from {
                if f == t && b.contains_key(t) {
                    lemma_points_of_without(b[t], q, p);
                }
            }
            assert(owned(b1, d1, s, p) == owned(b, d, s, p));
            if moved.len() > 0 {
                if let Some(t2) = to {
                    if t2 == t {
                        let base = if b1.contains_key(t) { b1[t] } else { Seq::empty() };
                        lemma_points_of_add(base, moved, p);
                        lemma_points_of_all(moved, q, p);
                        assert(points_of(base, p) + Seq::<VictoryPoint>::empty() =~= points_of(base, p));
                        if !b1.contains_key(t) {
                            assert(points_of(Seq::<VictoryPoint>::empty(), p) =~= Seq::<VictoryPoint>::empty()) by {
                                reveal(Seq::filter);
                            }
                        }
                    }
                }
            }
        }
    }
    if let Some(t) = to {
        if let Some(f) = from {
            assert(f != t);
        }
        assert(owned(b1, d1, to, q) == owned(b, d, to, q));
        let base = if b1.contains_key(t) { b1[t] } else { Seq::empty() };
        lemma_points_of_add(base, moved, q);
        lemma_points_of_all(moved, q, q);
        if !b1.contains_key(t) {
            assert(points_of(Seq::<VictoryPoint>::empty(), q) =~= Seq::<VictoryPoint>::empty()) by {
                reveal(Seq::filter);
            }
        }
        if moved.len() == 0 {
            assert(owned(b, d, to, q) + moved =~= owned(b, d, to, q));
        }
    } else {
        assert(from is Some);
    }
    if let Some(f) = from {
        if b.contains_key(f) {
            lemma_points_of_without(b[f], q, q);
        }
        assert(owned(b2, d2, from, q) =~= Seq::<VictoryPoint>::empty()) by {
            if !b.contains_key(f) {
                reveal(Seq::filter);
            }
        }
    }
    if detached_own(d) {
        assert forall|k: u32| #[trigger] d2.contains_key(k) implies all_of(d2[k], k) by {
            if k != q {
                assert(d.contains_key(k));
            }
        }
    }
}

/// The delta that moves province `p`, the last one if several do.
pub open spec fn delta_of(d: Seq<ProvinceEditDelta>, p: u32) -> Option<ProvinceEditDelta>
    decreases d.len(),
{
    if d.len() == 0 {
        None
    } else if d.last().province_id == p {
        Some(d.last())
    } else {
        delta_of(d.drop_last(), p)
    }
}

/// Each delta carries only victory points of its own province, and moves
/// its province somewhere else.
pub open spec fn deltas_carry_own(d: Seq<ProvinceEditDelta>) -> bool {
    forall|i: int| 0 <= i < d.len() ==> all_of((#[trigger] d[i]).victory_points@, d[i].province_id)
        && d[i].from_state_id != d[i].to_state_id
}

/// Where a delta takes its province, applied forward or taken back.
pub open spec fn delta_dest(x: ProvinceEditDelta, forward: bool) -> Option<u32> {
    if forward {
        x.to_state_id
    } else {
        x.from_state_id
    }
}

/// Where a delta takes its province from, applied forward or taken back.
pub open spec fn delta_src(x: ProvinceEditDelta, forward: bool) -> Option<u32> {
    if forward {
        x.from_state_id
    } else {
        x.to_state_id
    }
}

pub proof fn lemma_delta_of_some(d: Seq<ProvinceEditDelta>, p: u32)
    ensures
        delta_of(d, p) matches Some(x) ==> exists|k: int| 0 <= k < d.len() && d[k] == x && x.province_id == p,
        delta_of(d, p) is None ==> forall|k: int| 0 <= k < d.len() ==> d[k].province_id != p,
    decreases d.len(),
{
    if d.len() > 0 {
        lemma_delta_of_some(d.drop_last(), p);
        if d.last().province_id != p {
            if let Some(x) = delta_of(d, p) {
                let k = choose|k: int| 0 <= k < d.drop_last().len() && d.drop_last()[k] == x && x.province_id == p;
                assert(d[k] == x);
            }
        } else {
            assert(d[d.len() - 1] == d.last());
        }
        if delta_of(d, p) is None {
            assert forall|k: int| 0 <= k < d.len() implies d[k].province_id != p by {
                if k < d.len() - 1 {
                    assert(d[k] == d.drop_last()[k]);
                }
            }
        }
    }
}

/// The points a province owns belong to it, where the detached lists hold
/// only their own province's points.
pub proof fn lemma_points_owned_all_of(ws: StateWorkingSet, state: Option<u32>, p: u32)
    requires
        detached_own(point_lists(ws.detached_victory_points@)),
    ensures
        all_of(ws.points_owned(state, p), p),
{
    match state {
        Some(s) => {
            if ws.victory_points_by_state@.contains_key(s) {
                let l = ws.victory_points_by_state@[s]@;
                l.filter_lemma(|v: VictoryPoint| v.province_id == p);
            }
        },
        None => {
            if ws.detached_victory_points@.contains_key(p) {
                assert(point_lists(ws.detached_victory_points@).contains_key(p));
            }
        },
    }
}

/// Every province without a delta keeps the points it owns everywhere, and
/// each province with one owns, where the delta takes it, what it owned
/// there with the delta's points arrived.
pub open spec fn points_carried(
    before: StateWorkingSet,
    after: StateWorkingSet,
    deltas: Seq<ProvinceEditDelta>,
    forward: bool,
) -> bool {
    &&& forall|p: u32, st: Option<u32>| delta_of(deltas, p) is None ==> #[trigger] after.points_owned(st, p)
        == before.points_owned(st, p)
    &&& forall|p: u32| #[trigger] delta_of(deltas, p) matches Some(x) ==> after.points_owned(delta_dest(x, forward), p)
        == arrived(before.points_owned(delta_dest(x, forward), p), delta_dest(x, forward), x.victory_points@)
        && after.points_owned(delta_src(x, forward), p) == Seq::<VictoryPoint>::empty()
}

pub proof fn lemma_owned_is_points_owned(ws: StateWorkingSet, st: Option<u32>, p: u32)
    ensures
        ws.points_owned(st, p) == owned(point_lists(ws.victory_points_by_state@), point_lists(ws.detached_victory_points@), st, p),
{
}

/// The view of the buildings that province `p` has in `state`, read from
/// the buildings by state and the detached buildings by province.
pub open spec fn owned_buildings(
    by_state: Map<u32, Map<u32, Seq<(Seq<char>, i64)>>>,
    detached: Map<u32, Seq<(Seq<char>, i64)>>,
    state: Option<u32>,
    p: u32,
) -> Option<Seq<(Seq<char>, i64)>> {
    match state {
        Some(s) => if by_state.contains_key(s) && by_state[s].contains_key(p) {
            Some(by_state[s][p])
        } else {
            None
        },
        None => if detached.contains_key(p) {
            Some(detached[p])
        } else {
            None
        },
    }
}

pub open spec fn opt_buildings_view(b: Option<Buildings>) -> Option<Seq<(Seq<char>, i64)>> {
    match b {
        Some(x) => Some(x@),
        None => None,
    }
}

/// One move of province `q`'s buildings leaves every other province's
/// buildings where they were and brings `q`'s to `to`, where there are any.
pub proof fn lemma_buildings_moved_owned(
    b: Map<u32, Map<u32, Seq<(Seq<char>, i64)>>>,
    d: Map<u32, Seq<(Seq<char>, i64)>>,
    q: u32,
    from: Option<u32>,
    to: Option<u32>,
    moved: Option<Seq<(Seq<char>, i64)>>,
)
    requires
        from != to,
    ensures
        ({
            let (b2, d2) = buildings_moved(b, d, q, from, to, moved);
            &&& forall|p: u32, s: Option<u32>| p != q ==> #[trigger] owned_buildings(b2, d2, s, p) == owned_buildings(b, d, s, p)
            &&& owned_buildings(b2, d2, to, q) == (match moved {
                Some(m) => Some(m),
                None => owned_buildings(b, d, to, q),
            })
        }),
{
    let (b1, d1) = buildings_removed(b, d, from, q);
    let (b2, d2) = buildings_moved(b, d, q, from, to, moved);
    assert forall|p: u32, s: Option<u32>| p != q implies #[trigger] owned_buildings(b2, d2, s, p) == owned_buildings(b, d, s, p) by {
        assert(owned_buildings(b1, d1, s, p) == owned_buildings(b, d, s, p));
    }
    if let Some(t) = to {
        if let Some(f) = from {
            assert(f != t);
        }
        assert(owned_buildings(b1, d1, to, q) == owned_buildings(b, d, to, q));
    } else {
        assert(from is Some);
        assert(owned_buildings(b1, d1, to, q) == owned_buildings(b, d, to, q));
    }
}

pub proof fn lemma_owned_buildings_is_buildings_of(ws: StateWorkingSet, st: Option<u32>, p: u32)
    ensures
        opt_buildings_view(ws.buildings_of(st, p)) == owned_buildings(
            building_lists(ws.province_buildings_by_state@),
            building_views(ws.detached_province_buildings@),
            st,
            p,
        ),
{
}

/// Every province without a delta keeps its buildings everywhere, and each
/// province with one has, where the delta takes it, the delta's buildings
/// where it carries any, else what it had there.
pub open spec fn buildings_carried(
    before: StateWorkingSet,
    after: StateWorkingSet,
    deltas: Seq<ProvinceEditDelta>,
    forward: bool,
) -> bool {
    &&& forall|p: u32, st: Option<u32>| delta_of(deltas, p) is None ==> #[trigger] opt_buildings_view(after.buildings_of(st, p))
        == opt_buildings_view(before.buildings_of(st, p))
    &&& forall|p: u32| #[trigger] delta_of(deltas, p) matches Some(x) ==> opt_buildings_view(
        after.buildings_of(delta_dest(x, forward), p),
    ) == (match x.province_buildings {
        Some(m) => Some(m@),
        None => opt_buildings_view(before.buildings_of(delta_dest(x, forward), p)),
    })
}

pub proof fn lemma_delta_of_ends(d: Seq<ProvinceEditDelta>, p: u32)
    ensures
        delta_of(d, p) matches Some(x) ==> last_source(d, p) == Some(x.from_state_id) && last_target(d, p) == Some(
            x.to_state_id,
        ),
        delta_of(d, p) is None ==> last_source(d, p) is None && last_target(d, p) is None,
    decreases d.len(),
{
    if d.len() > 0 {
        lemma_delta_of_ends(d.drop_last(), p);
    }
}

/// The editable copy of the states of a project.
#[derive(Debug)]
pub struct StateWorkingSet {
    pub state_by_province: BTreeMap<u32, u32>,
    pub provinces_by_state: BTreeMap<u32, BTreeSet<u32>>,
    pub properties_by_state: BTreeMap<u32, EditableStateProperties>,
    pub victory_points_by_state: BTreeMap<u32, Vec<VictoryPoint>>,
    pub province_buildings_by_state: BTreeMap<u32, BTreeMap<u32, Buildings>>,
    pub detached_victory_points: BTreeMap<u32, Vec<VictoryPoint>>,
    pub detached_province_buildings: BTreeMap<u32, Buildings>,
    pub unassigned_land_provinces: BTreeSet<u32>,
    pub dated_history_states: BTreeSet<u32>,
}

/// The land provinces that no state holds.
pub open spec fn unassigned_land(kinds: Map<u32, ProvinceKind>, state_of: Map<u32, u32>) -> Set<u32> {
    Set::new(|p: u32| kinds.contains_key(p) && kinds[p] == ProvinceKind::Land && !state_of.contains_key(p))
}

impl StateWorkingSet {
    /// The two province indexes agree: the state of every assigned province
    /// has a province list, and each list holds exactly the provinces
    /// assigned to its state.
    pub open spec fn lists_consistent(&self) -> bool {
        &&& forall|p: u32| self.state_by_province@.contains_key(p)
            ==> self.provinces_by_state@.contains_key(#[trigger] self.state_by_province@[p])
        &&& forall|s: u32| #[trigger] self.provinces_by_state@.contains_key(s)
            ==> self.provinces_by_state@[s]@ == preimage(self.state_by_province@, s)
    }

    /// The province index with the given active states.
    pub open spec fn index(&self, active: Set<u32>) -> IndexState {
        IndexState {
            state_of: self.state_by_province@,
            listed: self.provinces_by_state@.dom(),
            active,
            properties: properties_views(self.properties_by_state@),
        }
    }

    /// The victory points that travel with province `p` out of `state`.
    pub open spec fn points_owned(&self, state: Option<u32>, p: u32) -> Seq<VictoryPoint> {
        match state {
            Some(s) => if self.victory_points_by_state@.contains_key(s) {
                points_of(self.victory_points_by_state@[s]@, p)
            } else {
                Seq::empty()
            },
            None => if self.detached_victory_points@.contains_key(p) {
                self.detached_victory_points@[p]@
            } else {
                Seq::empty()
            },
        }
    }

    /// The buildings of province `p` in `state`, if it has any listed.
    pub open spec fn buildings_of(&self, state: Option<u32>, p: u32) -> Option<Buildings> {
        match state {
            Some(s) => if self.province_buildings_by_state@.contains_key(s)
                && self.province_buildings_by_state@[s]@.contains_key(p) {
                Some(self.province_buildings_by_state@[s]@[p])
            } else {
                None
            },
            None => if self.detached_province_buildings@.contains_key(p) {
                Some(self.detached_province_buildings@[p])
            } else {
                None
            },
        }
    }

    /// The first victory point value of province `p` in `state`.
    pub open spec fn victory_point_of(&self, state: Option<u32>, p: u32) -> Option<i64> {
        first_value_of(self.points_owned(state, p), p)
    }

    /// A working set with no states and no provinces.
    pub fn empty() -> (r: Self)
        ensures
            r.state_by_province@ == Map::<u32, u32>::empty(),
            r.provinces_by_state@ == Map::<u32, BTreeSet<u32>>::empty(),
            r.lists_consistent(),
            r.properties_by_state@ == Map::<u32, EditableStateProperties>::empty(),
            r.detached_victory_points@ == Map::<u32, Vec<VictoryPoint>>::empty(),
            r.victory_points_by_state@ == Map::<u32, Vec<VictoryPoint>>::empty(),
            r.province_buildings_by_state@ == Map::<u32, BTreeMap<u32, Buildings>>::empty(),
            r.detached_province_buildings@ == Map::<u32, Buildings>::empty(),
    {
        StateWorkingSet {
            state_by_province: BTreeMap::new(),
            provinces_by_state: BTreeMap::new(),
            properties_by_state: BTreeMap::new(),
            victory_points_by_state: BTreeMap::new(),
            province_buildings_by_state: BTreeMap::new(),
            detached_victory_points: BTreeMap::new(),
            detached_province_buildings: BTreeMap::new(),
            unassigned_land_provinces: BTreeSet::new(),
            dated_history_states: BTreeSet::new(),
        }
    }

    /// A copy with the same contents.
    pub fn duplicate(&self) -> (r: Self)
        ensures
            r.state_by_province@ == self.state_by_province@,
            r.provinces_by_state@ == self.provinces_by_state@,
            r.properties_by_state@ == self.properties_by_state@,
            r.victory_points_by_state@ == self.victory_points_by_state@,
            r.province_buildings_by_state@ == self.province_buildings_by_state@,
            r.detached_victory_points@ == self.detached_victory_points@,
            r.detached_province_buildings@ == self.detached_province_buildings@,
            r.unassigned_land_provinces@ == self.unassigned_land_provinces@,
            r.dated_history_states@ == self.dated_history_states@,
    {
        StateWorkingSet {
            state_by_province: self.state_by_province.clone(),
            provinces_by_state: self.provinces_by_state.clone(),
            properties_by_state: self.properties_by_state.clone(),
            victory_points_by_state: self.victory_points_by_state.clone(),
            province_buildings_by_state: self.province_buildings_by_state.clone(),
            detached_victory_points: self.detached_victory_points.clone(),
            detached_province_buildings: self.detached_province_buildings.clone(),
            unassigned_land_provinces: self.unassigned_land_provinces.clone(),
            dated_history_states: self.dated_history_states.clone(),
        }
    }

    /// Moves province `p` from state `from` to state `to` in both indexes.
    pub fn move_province(&mut self, p: u32, from: Option<u32>, to: Option<u32>)
        requires
            old(self).lists_consistent(),
            opt_get(old(self).state_by_province@, p) == from,
        ensures
            final(self).lists_consistent(),
            final(self).state_by_province@ == move_one(old(self).state_by_province@, p, to),
            final(self).provinces_by_state@.dom() == (match to {
                Some(t) => old(self).provinces_by_state@.dom().insert(t),
                None => old(self).provinces_by_state@.dom(),
            }),
            final(self).properties_by_state@ == old(self).properties_by_state@,
            final(self).victory_points_by_state@ == old(self).victory_points_by_state@,
            final(self).province_buildings_by_state@ == old(self).province_buildings_by_state@,
            final(self).detached_victory_points@ == old(self).detached_victory_points@,
            final(self).detached_province_buildings@ == old(self).detached_province_buildings@,
            final(self).unassigned_land_provinces@ == old(self).unassigned_land_provinces@,
            final(self).dated_history_states@ == old(self).dated_history_states@,
    {
        let ghost sbp0 = self.state_by_province@;
        let ghost pbs0 = self.provinces_by_state@;
        if let Some(f) = from {
            if let Some(mut provinces) = self.provinces_by_state.remove(&f) {
                provinces.remove(&p);
                self.provinces_by_state.insert(f, provinces);
            }
        }
        if let Some(t) = to {
            let mut provinces = match self.provinces_by_state.remove(&t) {
                Some(existing) => existing,
                None => BTreeSet::new(),
            };
            provinces.insert(p);
            self.provinces_by_state.insert(t, provinces);
            self.state_by_province.insert(p, t);
        } else {
            self.state_by_province.remove(&p);
        }
        proof {
            let sbp1 = self.state_by_province@;
            let pbs1 = self.provinces_by_state@;
            assert(pbs1.dom() =~= (match to {
                Some(t) => pbs0.dom().insert(t),
                None => pbs0.dom(),
            }));
            assert forall|s: u32| #[trigger] pbs1.contains_key(s) implies pbs1[s]@ == preimage(sbp1, s) by {
                if pbs0.contains_key(s) {
                    assert(pbs0[s]@ == preimage(sbp0, s));
                }
                assert(pbs1[s]@ =~= preimage(sbp1, s));
            }
            assert forall|q: u32| sbp1.contains_key(q) implies pbs1.contains_key(#[trigger] sbp1[q]) by {
                if q != p {
                    assert(sbp0.contains_key(q));
                }
            }
        }
    }

    /// The victory points that travel with province `p` out of `state`.
    pub fn victory_points_owned(&self, state: Option<u32>, p: u32) -> (r: Vec<VictoryPoint>)
        ensures
            r@ == self.points_owned(state, p),
    {
        match state {
            Some(s) => match self.victory_points_by_state.get(&s) {
                Some(points) => copy_points_of(points, p),
                None => Vec::new(),
            },
            None => match self.detached_victory_points.get(&p) {
                Some(points) => copy_points(points),
                None => Vec::new(),
            },
        }
    }

    /// The buildings of province `p` in `state`.
    pub fn province_buildings_for(&self, state: Option<u32>, p: u32) -> (r: Option<&Buildings>)
        ensures
            match r {
                Some(b) => self.buildings_of(state, p) == Some(*b),
                None => self.buildings_of(state, p) is None,
            },
    {
        match state {
            Some(s) => match self.province_buildings_by_state.get(&s) {
                Some(buildings) => buildings.get(&p),
                None => None,
            },
            None => self.detached_province_buildings.get(&p),
        }
    }

    /// The victory point and buildings of province `p` in `state`.
    pub fn province_data(&self, state: Option<u32>, p: u32) -> (r: EditableProvinceData)
        ensures
            r.victory_point == self.victory_point_of(state, p),
            r.buildings@ == (match self.buildings_of(state, p) {
                Some(b) => b@,
                None => Seq::empty(),
            }),
    {
        let points = self.victory_points_owned(state, p);
        let victory_point = match first_point_of(&points, p) {
            Some((_, value)) => Some(value),
            None => None,
        };
        let buildings = match self.province_buildings_for(state, p) {
            Some(b) => b.duplicate(),
            None => Buildings::new(),
        };
        EditableProvinceData { victory_point, buildings }
    }

    /// Replaces the victory point and buildings of province `p` in state
    /// `s`; the victory point keeps its place in the state's list.
    pub fn set_province_data(&mut self, s: u32, p: u32, data: &EditableProvinceData)
        ensures
            final(self).victory_point_of(Some(s), p) == data.victory_point,
            final(self).buildings_of(Some(s), p) matches Some(b) ==> b@ == data.buildings@ && b@.len() > 0,
            final(self).buildings_of(Some(s), p) is None ==> data.buildings@.len() == 0,
            final(self).state_by_province@ == old(self).state_by_province@,
            final(self).provinces_by_state@ == old(self).provinces_by_state@,
            final(self).properties_by_state@ == old(self).properties_by_state@,
            final(self).unassigned_land_provinces@ == old(self).unassigned_land_provinces@,
            final(self).dated_history_states@ == old(self).dated_history_states@,
            final(self).detached_victory_points@ == old(self).detached_victory_points@,
    {
        let old_points = match self.victory_points_by_state.remove(&s) {
            Some(points) => points,
            None => Vec::new(),
        };
        let original = first_point_of(&old_points, p);
        let mut points = copy_points_without(&old_points, p);
        proof {
            lemma_without_has_none(old_points@, p);
        }
        if let Some(value) = data.victory_point {
            let position = match original {
                Some((i, _)) => if i < points.len() {
                    i
                } else {
                    points.len()
                },
                None => points.len(),
            };
            let ghost kept = points@;
            points.insert(position, VictoryPoint { province_id: p, value });
            proof {
                lemma_first_value_insert(kept, position as int, VictoryPoint { province_id: p, value });
                let f = |v: VictoryPoint| v.province_id == p;
                assert(points@.filter(f) =~= seq![VictoryPoint { province_id: p, value }]) by {
                    points@.filter_lemma(f);
                    reveal(Seq::filter);
                    lemma_filter_singleton(kept, position as int, VictoryPoint { province_id: p, value });
                }
                assert(first_value_of(seq![VictoryPoint { province_id: p, value }], p) == Some(value));
            }
        } else {
            proof {
                let f = |v: VictoryPoint| v.province_id == p;
                assert(points@.filter(f) =~= Seq::<VictoryPoint>::empty()) by {
                    lemma_filter_none(points@, p);
                }
                lemma_first_value_none(Seq::<VictoryPoint>::empty(), p);
            }
        }
        self.victory_points_by_state.insert(s, points);
        let mut buildings = match self.province_buildings_by_state.remove(&s) {
            Some(b) => b,
            None => BTreeMap::new(),
        };
        if data.buildings.is_empty() {
            buildings.remove(&p);
        } else {
            buildings.insert(p, data.buildings.duplicate());
        }
        self.province_buildings_by_state.insert(s, buildings);
    }

    /// The data of state `s` as the editor shows it.
    pub fn state_data(&self, s: u32) -> (r: StateData)
        ensures
            r.id == Some(s),
            r.provinces@ == (if self.provinces_by_state@.contains_key(s) {
                self.provinces_by_state@[s]@
            } else {
                Set::empty()
            }),
            self.properties_by_state@.contains_key(s) ==> r.properties@ == self.properties_by_state@[s]@,
            r.victory_points@ == (if self.victory_points_by_state@.contains_key(s) {
                self.victory_points_by_state@[s]@
            } else {
                Seq::empty()
            }),
            r.province_buildings@ == (if self.province_buildings_by_state@.contains_key(s) {
                self.province_buildings_by_state@[s]@
            } else {
                Map::empty()
            }),
    {
        let provinces = match self.provinces_by_state.get(&s) {
            Some(set) => set.clone(),
            None => BTreeSet::new(),
        };
        let properties = match self.properties_by_state.get(&s) {
            Some(p) => p.duplicate(),
            None => EditableStateProperties {
                name: None,
                state_category: None,
                manpower: None,
                owner: None,
                buildings_max_level_factor_bits: None,
                local_supplies_bits: None,
            },
        };
        let victory_points = match self.victory_points_by_state.get(&s) {
            Some(points) => copy_points(points),
            None => Vec::new(),
        };
        let province_buildings = match self.province_buildings_by_state.get(&s) {
            Some(b) => b.clone(),
            None => BTreeMap::new(),
        };
        StateData { id: Some(s), provinces, properties, victory_points, province_buildings }
    }

    /// Recomputes the land provinces that no state holds.
    pub fn recompute_unassigned_land(&mut self, kinds: &BTreeMap<u32, ProvinceKind>)
        ensures
            final(self).unassigned_land_provinces@ == unassigned_land(kinds@, old(self).state_by_province@),
            final(self).state_by_province@ == old(self).state_by_province@,
            final(self).provinces_by_state@ == old(self).provinces_by_state@,
            final(self).properties_by_state@ == old(self).properties_by_state@,
            final(self).victory_points_by_state@ == old(self).victory_points_by_state@,
            final(self).province_buildings_by_state@ == old(self).province_buildings_by_state@,
            final(self).detached_victory_points@ == old(self).detached_victory_points@,
            final(self).detached_province_buildings@ == old(self).detached_province_buildings@,
            final(self).dated_history_states@ == old(self).dated_history_states@,
    {
        let ids = map_keys(kinds);
        let mut unassigned: BTreeSet<u32> = BTreeSet::new();
        let mut i: usize = 0;
        while i < ids.len()
            invariant
                i <= ids@.len(),
                ids@.to_set() == kinds@.dom(),
                unassigned@ == unassigned_land(kinds@, self.state_by_province@).intersect(ids@.take(i as int).to_set()),
            decreases ids@.len() - i,
        {
            let p = ids[i];
            proof {
                assert(ids@.take(i + 1) =~= ids@.take(i as int).push(p));
                crate::facts::lemma_push_to_set(ids@.take(i as int), p);
                assert(ids@.to_set().contains(p));
            }
            let is_land = match kinds.get(&p) {
                Some(kind) => *kind == ProvinceKind::Land,
                None => false,
            };
            if is_land && !self.state_by_province.contains_key(&p) {
                unassigned.insert(p);
            }
            proof {
                assert(unassigned@ =~= unassigned_land(kinds@, self.state_by_province@).intersect(ids@.take(i + 1).to_set()));
            }
            i = i + 1;
        }
        proof {
            assert(ids@.take(ids@.len() as int) =~= ids@);
            assert(unassigned@ =~= unassigned_land(kinds@, self.state_by_province@));
        }
        self.unassigned_land_provinces = unassigned;
    }
}

proof fn lemma_filter_none(s: Seq<VictoryPoint>, p: u32)
    requires
        forall|i: int| 0 <= i < s.len() ==> (#[trigger] s[i]).province_id != p,
    ensures
        s.filter(|v: VictoryPoint| v.province_id == p) == Seq::<VictoryPoint>::empty(),
    decreases s.len(),
{
    reveal(Seq::filter);
    if s.len() > 0 {
        lemma_filter_none(s.drop_last(), p);
        assert(s.filter(|v: VictoryPoint| v.province_id == p) =~= s.drop_last().filter(|v: VictoryPoint| v.province_id == p));
    } else {
        assert(s.filter(|v: VictoryPoint| v.province_id == p) =~= Seq::<VictoryPoint>::empty());
    }
}

proof fn lemma_filter_singleton(s: Seq<VictoryPoint>, k: int, x: VictoryPoint)
    requires
        0 <= k <= s.len(),
        forall|i: int| 0 <= i < s.len() ==> (#[trigger] s[i]).province_id != x.province_id,
    ensures
        s.insert(k, x).filter(|v: VictoryPoint| v.province_id == x.province_id) == seq![x],
    decreases s.len(),
{
    reveal(Seq::filter);
    let f = |v: VictoryPoint| v.province_id == x.province_id;
    let t = s.insert(k, x);
    if k == s.len() {
        assert(t.drop_last() =~= s);
        lemma_filter_none(s, x.province_id);
        assert(t.last() == x);
        assert(t.filter(f) =~= seq![x]);
    } else {
        let d = s.drop_last();
        assert(t.drop_last() =~= d.insert(k, x));
        lemma_filter_singleton(d, k, x);
        assert(t.last() == s.last());
        assert(s.last() == s[s.len() - 1]);
        assert(t.filter(f) =~= seq![x]);
    }
}

/// The states the deltas move provinces into.
pub open spec fn delta_targets(d: Seq<ProvinceEditDelta>) -> Set<u32> {
    Set::new(|s: u32| exists|i: int| 0 <= i < d.len() && d[i].to_state_id == Some(s))
}

/// The states the deltas move provinces out of.
pub open spec fn delta_sources(d: Seq<ProvinceEditDelta>) -> Set<u32> {
    Set::new(|s: u32| exists|i: int| 0 <= i < d.len() && d[i].from_state_id == Some(s))
}

proof fn lemma_take_step(d: Seq<ProvinceEditDelta>, i: int)
    requires
        0 <= i < d.len(),
    ensures
        d.take(i + 1).drop_last() == d.take(i),
        d.take(i + 1).last() == d[i],
        delta_targets(d.take(i + 1)) == (match d[i].to_state_id {
            Some(t) => delta_targets(d.take(i)).insert(t),
            None => delta_targets(d.take(i)),
        }),
        delta_sources(d.take(i + 1)) == (match d[i].from_state_id {
            Some(t) => delta_sources(d.take(i)).insert(t),
            None => delta_sources(d.take(i)),
        }),
{
    assert(d.take(i + 1).drop_last() =~= d.take(i));
    let a = d.take(i);
    let b = d.take(i + 1);
    assert forall|s: u32| delta_targets(b).contains(s) <==> (match d[i].to_state_id {
        Some(t) => delta_targets(a).insert(t),
        None => delta_targets(a),
    }).contains(s) by {
        if delta_targets(b).contains(s) {
            let k = choose|k: int| 0 <= k < b.len() && b[k].to_state_id == Some(s);
            if k < i {
                assert(a[k] == b[k]);
            }
        }
        if delta_targets(a).contains(s) {
            let k = choose|k: int| 0 <= k < a.len() && a[k].to_state_id == Some(s);
            assert(b[k] == a[k]);
        }
        if d[i].to_state_id == Some(s) {
            assert(b[i] == d[i]);
        }
    }
    assert forall|s: u32| delta_sources(b).contains(s) <==> (match d[i].from_state_id {
        Some(t) => delta_sources(a).insert(t),
        None => delta_sources(a),
    }).contains(s) by {
        if delta_sources(b).contains(s) {
            let k = choose|k: int| 0 <= k < b.len() && b[k].from_state_id == Some(s);
            if k < i {
                assert(a[k] == b[k]);
            }
        }
        if delta_sources(a).contains(s) {
            let k = choose|k: int| 0 <= k < a.len() && a[k].from_state_id == Some(s);
            assert(b[k] == a[k]);
        }
        if d[i].from_state_id == Some(s) {
            assert(b[i] == d[i]);
        }
    }
    assert(delta_targets(b) =~= (match d[i].to_state_id {
        Some(t) => delta_targets(a).insert(t),
        None => delta_targets(a),
    }));
    assert(delta_sources(b) =~= (match d[i].from_state_id {
        Some(t) => delta_sources(a).insert(t),
        None => delta_sources(a),
    }));
}

proof fn lemma_untouched_by_prefix(m: Map<u32, u32>, d: Seq<ProvinceEditDelta>, i: int)
    requires
        distinct_provinces(d),
        0 <= i < d.len(),
    ensures
        opt_get(moved_forward(m, d.take(i)), d[i].province_id) == opt_get(m, d[i].province_id),
        opt_get(moved_backward(m, d.take(i)), d[i].province_id) == opt_get(m, d[i].province_id),
{
    let p = d[i].province_id;
    lemma_moved_forward_closed(m, d.take(i), p);
    lemma_moved_backward_closed(m, d.take(i), p);
    lemma_last_target_some(d.take(i), p);
    if crate::edit_model::delta_provinces(d.take(i)).contains(p) {
        let k = choose|k: int| 0 <= k < d.take(i).len() && d.take(i)[k].province_id == p;
        assert(d[k].province_id == p);
    }
}

impl StateWorkingSet {
    /// Takes the victory points of province `p` out of `state`.
    pub fn remove_victory_points(&mut self, state: Option<u32>, p: u32)
        ensures
            final(self).state_by_province@ == old(self).state_by_province@,
            final(self).provinces_by_state@ == old(self).provinces_by_state@,
            final(self).properties_by_state@ == old(self).properties_by_state@,
            final(self).province_buildings_by_state@ == old(self).province_buildings_by_state@,
            final(self).detached_province_buildings@ == old(self).detached_province_buildings@,
            final(self).unassigned_land_provinces@ == old(self).unassigned_land_provinces@,
            final(self).dated_history_states@ == old(self).dated_history_states@,
            final(self).points_owned(state, p) == Seq::<VictoryPoint>::empty(),
            (point_lists(final(self).victory_points_by_state@), point_lists(final(self).detached_victory_points@))
                == points_removed(
                point_lists(old(self).victory_points_by_state@),
                point_lists(old(self).detached_victory_points@),
                state,
                p,
            ),
    {
        match state {
            Some(s) => {
                if let Some(points) = self.victory_points_by_state.remove(&s) {
                    let kept = copy_points_without(&points, p);
                    proof {
                        lemma_without_has_none(points@, p);
                        lemma_filter_none(kept@, p);
                    }
                    self.victory_points_by_state.insert(s, kept);
                }
            },
            None => {
                self.detached_victory_points.remove(&p);
            },
        }
        proof {
            assert(point_lists(self.victory_points_by_state@) =~= points_removed(
                point_lists(old(self).victory_points_by_state@),
                point_lists(old(self).detached_victory_points@),
                state,
                p,
            ).0);
            assert(point_lists(self.detached_victory_points@) =~= points_removed(
                point_lists(old(self).victory_points_by_state@),
                point_lists(old(self).detached_victory_points@),
                state,
                p,
            ).1);
        }
    }

    /// Takes the buildings of province `p` out of `state`.
    pub fn remove_province_buildings(&mut self, state: Option<u32>, p: u32)
        ensures
            final(self).state_by_province@ == old(self).state_by_province@,
            final(self).provinces_by_state@ == old(self).provinces_by_state@,
            final(self).properties_by_state@ == old(self).properties_by_state@,
            final(self).victory_points_by_state@ == old(self).victory_points_by_state@,
            final(self).detached_victory_points@ == old(self).detached_victory_points@,
            final(self).unassigned_land_provinces@ == old(self).unassigned_land_provinces@,
            final(self).dated_history_states@ == old(self).dated_history_states@,
            final(self).buildings_of(state, p) is None,
            (building_lists(final(self).province_buildings_by_state@), building_views(
                final(self).detached_province_buildings@,
            )) == buildings_removed(
                building_lists(old(self).province_buildings_by_state@),
                building_views(old(self).detached_province_buildings@),
                state,
                p,
            ),
    {
        match state {
            Some(s) => {
                if let Some(mut buildings) = self.province_buildings_by_state.remove(&s) {
                    buildings.remove(&p);
                    self.province_buildings_by_state.insert(s, buildings);
                }
            },
            None => {
                self.detached_province_buildings.remove(&p);
            },
        }
        proof {
            let e = buildings_removed(
                building_lists(old(self).province_buildings_by_state@),
                building_views(old(self).detached_province_buildings@),
                state,
                p,
            );
            if let Some(s0) = state {
                if old(self).province_buildings_by_state@.contains_key(s0) {
                    assert(building_views(self.province_buildings_by_state@[s0]@) =~= building_views(
                        old(self).province_buildings_by_state@[s0]@,
                    ).remove(p));
                }
            }
            assert(building_lists(self.province_buildings_by_state@) =~= e.0);
            assert(building_views(self.detached_province_buildings@) =~= e.1);
        }
    }

    /// Moves the victory points carried by a delta from `from` to `to`.
    pub fn move_victory_points(&mut self, delta: &ProvinceEditDelta, from: Option<u32>, to: Option<u32>)
        ensures
            final(self).state_by_province@ == old(self).state_by_province@,
            final(self).provinces_by_state@ == old(self).provinces_by_state@,
            final(self).properties_by_state@ == old(self).properties_by_state@,
            final(self).province_buildings_by_state@ == old(self).province_buildings_by_state@,
            final(self).detached_province_buildings@ == old(self).detached_province_buildings@,
            final(self).unassigned_land_provinces@ == old(self).unassigned_land_provinces@,
            final(self).dated_history_states@ == old(self).dated_history_states@,
            (point_lists(final(self).victory_points_by_state@), point_lists(final(self).detached_victory_points@))
                == points_moved(
                point_lists(old(self).victory_points_by_state@),
                point_lists(old(self).detached_victory_points@),
                delta.province_id,
                from,
                to,
                delta.victory_points@,
            ),
    {
        self.remove_victory_points(from, delta.province_id);
        let ghost mid_b = point_lists(self.victory_points_by_state@);
        let ghost mid_d = point_lists(self.detached_victory_points@);
        if delta.victory_points.len() == 0 {
            return;
        }
        match to {
            Some(t) => {
                let mut points = match self.victory_points_by_state.remove(&t) {
                    Some(existing) => existing,
                    None => Vec::new(),
                };
                let ghost before = points@;
                let mut moved = copy_points(&delta.victory_points);
                points.append(&mut moved);
                self.victory_points_by_state.insert(t, points);
                proof {
                    assert(before == (if mid_b.contains_key(t) { mid_b[t] } else { Seq::<VictoryPoint>::empty() }));
                    assert(point_lists(self.victory_points_by_state@) =~= mid_b.insert(t, before
                        + delta.victory_points@));
                }
            },
            None => {
                self.detached_victory_points.insert(delta.province_id, copy_points(&delta.victory_points));
                proof {
                    assert(point_lists(self.detached_victory_points@) =~= mid_d.insert(
                        delta.province_id,
                        delta.victory_points@,
                    ));
                }
            },
        }
    }

    /// Moves the buildings carried by a delta from `from` to `to`.
    pub fn move_province_buildings(&mut self, delta: &ProvinceEditDelta, from: Option<u32>, to: Option<u32>)
        ensures
            final(self).state_by_province@ == old(self).state_by_province@,
            final(self).provinces_by_state@ == old(self).provinces_by_state@,
            final(self).properties_by_state@ == old(self).properties_by_state@,
            final(self).victory_points_by_state@ == old(self).victory_points_by_state@,
            final(self).detached_victory_points@ == old(self).detached_victory_points@,
            final(self).unassigned_land_provinces@ == old(self).unassigned_land_provinces@,
            final(self).dated_history_states@ == old(self).dated_history_states@,
            (building_lists(final(self).province_buildings_by_state@), building_views(
                final(self).detached_province_buildings@,
            )) == buildings_moved(
                building_lists(old(self).province_buildings_by_state@),
                building_views(old(self).detached_province_buildings@),
                delta.province_id,
                from,
                to,
                match delta.province_buildings {
                    Some(b) => Some(b@),
                    None => None,
                },
            ),
    {
        self.remove_province_buildings(from, delta.province_id);
        let ghost mid_b = building_lists(self.province_buildings_by_state@);
        let ghost mid_d = building_views(self.detached_province_buildings@);
        let buildings = match &delta.province_buildings {
            Some(b) => b.duplicate(),
            None => {
                return;
            },
        };
        match to {
            Some(t) => {
                let mut by_province = match self.province_buildings_by_state.remove(&t) {
                    Some(existing) => existing,
                    None => BTreeMap::new(),
                };
                let ghost before = building_views(by_province@);
                proof {
                    assert(before =~= (if mid_b.contains_key(t) { mid_b[t] } else { Map::<u32, Seq<(Seq<char>, i64)>>::empty() }));
                }
                by_province.insert(delta.province_id, buildings);
                proof {
                    assert(building_views(by_province@) =~= before.insert(delta.province_id, buildings@));
                }
                self.province_buildings_by_state.insert(t, by_province);
                proof {
                    assert(building_lists(self.province_buildings_by_state@) =~= mid_b.insert(
                        t,
                        before.insert(delta.province_id, buildings@),
                    ));
                }
            },
            None => {
                self.detached_province_buildings.insert(delta.province_id, buildings);
                proof {
                    assert(building_views(self.detached_province_buildings@) =~= mid_d.insert(
                        delta.province_id,
                        buildings@,
                    ));
                }
            },
        }
    }

    /// Applies the deltas in order (`forward`), or takes them back in the
    /// same order, moving provinces, victory points and buildings, then
    /// recomputes the unassigned land.
    pub fn apply_deltas(&mut self, deltas: &Vec<ProvinceEditDelta>, forward: bool, kinds: &BTreeMap<u32, ProvinceKind>)
        requires
            old(self).lists_consistent(),
            distinct_provinces(deltas@),
            forward ==> forall|i: int| 0 <= i < deltas@.len()
                ==> (#[trigger] deltas@[i]).from_state_id == opt_get(old(self).state_by_province@, deltas@[i].province_id),
            !forward ==> forall|i: int| 0 <= i < deltas@.len()
                ==> (#[trigger] deltas@[i]).to_state_id == opt_get(old(self).state_by_province@, deltas@[i].province_id),
        ensures
            final(self).lists_consistent(),
            final(self).state_by_province@ == (if forward {
                moved_forward(old(self).state_by_province@, deltas@)
            } else {
                moved_backward(old(self).state_by_province@, deltas@)
            }),
            final(self).provinces_by_state@.dom() == old(self).provinces_by_state@.dom().union(
                if forward { delta_targets(deltas@) } else { delta_sources(deltas@) },
            ),
            final(self).unassigned_land_provinces@ == unassigned_land(kinds@, final(self).state_by_province@),
            final(self).properties_by_state@ == old(self).properties_by_state@,
            final(self).dated_history_states@ == old(self).dated_history_states@,
            deltas_carry_own(deltas@) && detached_own(point_lists(old(self).detached_victory_points@)) ==> {
                &&& detached_own(point_lists(final(self).detached_victory_points@))
                &&& points_carried(*old(self), *final(self), deltas@, forward)
            },
            deltas_carry_own(deltas@) ==> buildings_carried(*old(self), *final(self), deltas@, forward),
    {
        let ghost sbp0 = self.state_by_province@;
        let ghost dom0 = self.provinces_by_state@.dom();
        let mut i: usize = 0;
        proof {
            assert(deltas@.take(0) =~= Seq::<ProvinceEditDelta>::empty());
            assert(delta_targets(deltas@.take(0)) =~= Set::<u32>::empty());
            assert(delta_sources(deltas@.take(0)) =~= Set::<u32>::empty());
            assert(dom0.union(Set::<u32>::empty()) =~= dom0);
        }
        while i < deltas.len()
            invariant
                i <= deltas@.len(),
                self.lists_consistent(),
                distinct_provinces(deltas@),
                forward ==> forall|k: int| 0 <= k < deltas@.len()
                    ==> (#[trigger] deltas@[k]).from_state_id == opt_get(sbp0, deltas@[k].province_id),
                !forward ==> forall|k: int| 0 <= k < deltas@.len()
                    ==> (#[trigger] deltas@[k]).to_state_id == opt_get(sbp0, deltas@[k].province_id),
                self.state_by_province@ == (if forward {
                    moved_forward(sbp0, deltas@.take(i as int))
                } else {
                    moved_backward(sbp0, deltas@.take(i as int))
                }),
                self.provinces_by_state@.dom() == dom0.union(
                    if forward { delta_targets(deltas@.take(i as int)) } else { delta_sources(deltas@.take(i as int)) },
                ),
                self.properties_by_state@ == old(self).properties_by_state@,
                self.dated_history_states@ == old(self).dated_history_states@,
                deltas_carry_own(deltas@) && detached_own(point_lists(old(self).detached_victory_points@)) ==> {
                    &&& detached_own(point_lists(self.detached_victory_points@))
                    &&& forall|p: u32, st: Option<u32>| delta_of(deltas@.take(i as int), p) is None ==> #[trigger] owned(
                        point_lists(self.victory_points_by_state@),
                        point_lists(self.detached_victory_points@),
                        st,
                        p,
                    ) == owned(point_lists(old(self).victory_points_by_state@), point_lists(old(self).detached_victory_points@), st, p)
                    &&& forall|p: u32| #[trigger] delta_of(deltas@.take(i as int), p) matches Some(x) ==> owned(
                        point_lists(self.victory_points_by_state@),
                        point_lists(self.detached_victory_points@),
                        delta_dest(x, forward),
                        p,
                    ) == arrived(
                        owned(
                            point_lists(old(self).victory_points_by_state@),
                            point_lists(old(self).detached_victory_points@),
                            delta_dest(x, forward),
                            p,
                        ),
                        delta_dest(x, forward),
                        x.victory_points@,
                    ) && owned(
                        point_lists(self.victory_points_by_state@),
                        point_lists(self.detached_victory_points@),
                        delta_src(x, forward),
                        p,
                    ) == Seq::<VictoryPoint>::empty()
                },
                deltas_carry_own(deltas@) ==> {
                    &&& forall|p: u32, st: Option<u32>| delta_of(deltas@.take(i as int), p) is None ==> #[trigger] owned_buildings(
                        building_lists(self.province_buildings_by_state@),
                        building_views(self.detached_province_buildings@),
                        st,
                        p,
                    ) == owned_buildings(
                        building_lists(old(self).province_buildings_by_state@),
                        building_views(old(self).detached_province_buildings@),
                        st,
                        p,
                    )
                    &&& forall|p: u32| #[trigger] delta_of(deltas@.take(i as int), p) matches Some(x) ==> owned_buildings(
                        building_lists(self.province_buildings_by_state@),
                        building_views(self.detached_province_buildings@),
                        delta_dest(x, forward),
                        p,
                    ) == (match x.province_buildings {
                        Some(m) => Some(m@),
                        None => owned_buildings(
                            building_lists(old(self).province_buildings_by_state@),
                            building_views(old(self).detached_province_buildings@),
                            delta_dest(x, forward),
                            p,
                        ),
                    })
                },
            decreases deltas@.len() - i,
        {
            let delta = &deltas[i];
            let (from, to) = if forward {
                (delta.from_state_id, delta.to_state_id)
            } else {
                (delta.to_state_id, delta.from_state_id)
            };
            proof {
                lemma_untouched_by_prefix(sbp0, deltas@, i as int);
                lemma_take_step(deltas@, i as int);
            }
            self.move_province(delta.province_id, from, to);
            let ghost pb = point_lists(self.victory_points_by_state@);
            let ghost pd = point_lists(self.detached_victory_points@);
            self.move_victory_points(delta, from, to);
            proof {
                let b0 = point_lists(old(self).victory_points_by_state@);
                let d0 = point_lists(old(self).detached_victory_points@);
                if deltas_carry_own(deltas@) && detached_own(d0) {
                    let q = deltas@[i as int].province_id;
                    assert(all_of(deltas@[i as int].victory_points@, q));
                    lemma_points_moved_owned(pb, pd, q, from, to, delta.victory_points@);
                    let t0 = deltas@.take(i as int);
                    let t1 = deltas@.take(i + 1);
                    assert(t1.drop_last() =~= t0);
                    assert(t1.last() == deltas@[i as int]);
                    lemma_delta_of_some(t0, q);
                    assert(delta_of(t0, q) is None) by {
                        if let Some(x) = delta_of(t0, q) {
                            let k = choose|k: int| 0 <= k < t0.len() && t0[k] == x && x.province_id == q;
                            assert(t0[k] == deltas@[k]);
                        }
                    }
                    let b2 = point_lists(self.victory_points_by_state@);
                    let d2 = point_lists(self.detached_victory_points@);
                    assert forall|p: u32, st: Option<u32>| delta_of(t1, p) is None implies #[trigger] owned(b2, d2, st, p)
                        == owned(b0, d0, st, p) by {
                        assert(owned(b2, d2, st, p) == owned(pb, pd, st, p));
                    }
                    assert forall|p: u32| #[trigger] delta_of(t1, p) is Some implies owned(
                        b2,
                        d2,
                        delta_dest(delta_of(t1, p).unwrap(), forward),
                        p,
                    ) == arrived(
                        owned(b0, d0, delta_dest(delta_of(t1, p).unwrap(), forward), p),
                        delta_dest(delta_of(t1, p).unwrap(), forward),
                        delta_of(t1, p).unwrap().victory_points@,
                    ) && owned(b2, d2, delta_src(delta_of(t1, p).unwrap(), forward), p) == Seq::<VictoryPoint>::empty() by {
                        if p == q {
                            assert(delta_dest(deltas@[i as int], forward) == to);
                            assert(delta_src(deltas@[i as int], forward) == from);
                            assert(owned(pb, pd, to, q) == owned(b0, d0, to, q));
                        } else {
                            assert(delta_of(t1, p) == delta_of(t0, p));
                            assert(owned(b2, d2, delta_dest(delta_of(t0, p).unwrap(), forward), p)
                                == owned(pb, pd, delta_dest(delta_of(t0, p).unwrap(), forward), p));
                            assert(owned(b2, d2, delta_src(delta_of(t0, p).unwrap(), forward), p)
                                == owned(pb, pd, delta_src(delta_of(t0, p).unwrap(), forward), p));
                        }
                    }
                }
            }
            let ghost bb = building_lists(self.province_buildings_by_state@);
            let ghost bd = building_views(self.detached_province_buildings@);
            self.move_province_buildings(delta, from, to);
            proof {
                let b0 = building_lists(old(self).province_buildings_by_state@);
                let d0 = building_views(old(self).detached_province_buildings@);
                if deltas_carry_own(deltas@) {
                    let q = deltas@[i as int].province_id;
                    let mv = opt_buildings_view(delta.province_buildings);
                    assert(deltas@[i as int].from_state_id != deltas@[i as int].to_state_id);
                    lemma_buildings_moved_owned(bb, bd, q, from, to, mv);
                    let t0 = deltas@.take(i as int);
                    let t1 = deltas@.take(i + 1);
                    assert(t1.drop_last() =~= t0);
                    assert(t1.last() == deltas@[i as int]);
                    lemma_delta_of_some(t0, q);
                    assert(delta_of(t0, q) is None) by {
                        if let Some(x) = delta_of(t0, q) {
                            let k = choose|k: int| 0 <= k < t0.len() && t0[k] == x && x.province_id == q;
                            assert(t0[k] == deltas@[k]);
                        }
                    }
                    let b2 = building_lists(self.province_buildings_by_state@);
                    let d2 = building_views(self.detached_province_buildings@);
                    assert forall|p: u32, st: Option<u32>| delta_of(t1, p) is None implies #[trigger] owned_buildings(b2, d2, st, p)
                        == owned_buildings(b0, d0, st, p) by {
                        assert(owned_buildings(b2, d2, st, p) == owned_buildings(bb, bd, st, p));
                    }
                    assert forall|p: u32| #[trigger] delta_of(t1, p) is Some implies owned_buildings(
                        b2,
                        d2,
                        delta_dest(delta_of(t1, p).unwrap(), forward),
                        p,
                    ) == (match delta_of(t1, p).unwrap().province_buildings {
                        Some(m) => Some(m@),
                        None => owned_buildings(b0, d0, delta_dest(delta_of(t1, p).unwrap(), forward), p),
                    }) by {
                        if p == q {
                            assert(delta_dest(deltas@[i as int], forward) == to);
                            assert(owned_buildings(bb, bd, to, q) == owned_buildings(b0, d0, to, q));
                        } else {
                            assert(delta_of(t1, p) == delta_of(t0, p));
                            assert(owned_buildings(b2, d2, delta_dest(delta_of(t0, p).unwrap(), forward), p)
                                == owned_buildings(bb, bd, delta_dest(delta_of(t0, p).unwrap(), forward), p));
                        }
                    }
                }
            }
            proof {
                let t = if forward { delta_targets(deltas@.take(i as int)) } else { delta_sources(deltas@.take(i as int)) };
                let t1 = if forward { delta_targets(deltas@.take(i + 1)) } else { delta_sources(deltas@.take(i + 1)) };
                assert(self.provinces_by_state@.dom() =~= dom0.union(t1));
            }
            i = i + 1;
        }
        proof {
            assert(deltas@.take(deltas@.len() as int) =~= deltas@);
            if deltas_carry_own(deltas@) && detached_own(point_lists(old(self).detached_victory_points@)) {
                assert forall|p: u32, st: Option<u32>| delta_of(deltas@, p) is None implies #[trigger] self.points_owned(st, p)
                    == old(self).points_owned(st, p) by {
                    lemma_owned_is_points_owned(*self, st, p);
                    lemma_owned_is_points_owned(*old(self), st, p);
                }
                assert forall|p: u32| #[trigger] delta_of(deltas@, p) is Some implies self.points_owned(
                    delta_dest(delta_of(deltas@, p).unwrap(), forward),
                    p,
                ) == arrived(
                    old(self).points_owned(delta_dest(delta_of(deltas@, p).unwrap(), forward), p),
                    delta_dest(delta_of(deltas@, p).unwrap(), forward),
                    delta_of(deltas@, p).unwrap().victory_points@,
                ) && self.points_owned(delta_src(delta_of(deltas@, p).unwrap(), forward), p) == Seq::<VictoryPoint>::empty() by {
                    let st = delta_dest(delta_of(deltas@, p).unwrap(), forward);
                    lemma_owned_is_points_owned(*self, st, p);
                    lemma_owned_is_points_owned(*old(self), st, p);
                    lemma_owned_is_points_owned(*self, delta_src(delta_of(deltas@, p).unwrap(), forward), p);
                }
            }
        }
        proof {
            if deltas_carry_own(deltas@) {
                assert forall|p: u32, st: Option<u32>| delta_of(deltas@, p) is None implies #[trigger] opt_buildings_view(
                    self.buildings_of(st, p),
                ) == opt_buildings_view(old(self).buildings_of(st, p)) by {
                    lemma_owned_buildings_is_buildings_of(*self, st, p);
                    lemma_owned_buildings_is_buildings_of(*old(self), st, p);
                }
                assert forall|p: u32| #[trigger] delta_of(deltas@, p) is Some implies opt_buildings_view(
                    self.buildings_of(delta_dest(delta_of(deltas@, p).unwrap(), forward), p),
                ) == (match delta_of(deltas@, p).unwrap().province_buildings {
                    Some(m) => Some(m@),
                    None => opt_buildings_view(old(self).buildings_of(delta_dest(delta_of(deltas@, p).unwrap(), forward), p)),
                }) by {
                    let st = delta_dest(delta_of(deltas@, p).unwrap(), forward);
                    lemma_owned_buildings_is_buildings_of(*self, st, p);
                    lemma_owned_buildings_is_buildings_of(*old(self), st, p);
                }
            }
        }
        let ghost carried = *self;
        self.recompute_unassigned_land(kinds);
        proof {
            if deltas_carry_own(deltas@) && detached_own(point_lists(old(self).detached_victory_points@)) {
                assert forall|p: u32, st: Option<u32>| #[trigger] self.points_owned(st, p) == carried.points_owned(st, p) by {}
            }
            if deltas_carry_own(deltas@) {
                assert forall|p: u32, st: Option<u32>| #[trigger] self.buildings_of(st, p) == carried.buildings_of(st, p) by {}
            }
        }
    }
}

} // verus!
