//! Which provinces a state lasso takes in, and why each one it takes in can
//! or cannot be selected. How much of each province lies inside the polygon
//! is measured by the caller and handed in as a `LassoHit`.
use vstd::prelude::*;
use std::collections::{BTreeMap, BTreeSet};
use crate::state::ProvinceKind;
use crate::tools::{ProvinceInclusionMode, StateLassoError};

verus! {

broadcast use vstd::std_specs::btree::group_btree_axioms;

/// A province that the lasso's bounding box covers: its kind, its size, how
/// many of its pixels lie inside the polygon, and whether its center of mass
/// does.
#[derive(Debug, Clone, Copy, PartialEq, Eq, Structural)]
pub struct LassoHit {
    pub province_id: u32,
    pub kind: ProvinceKind,
    pub total_pixels: u64,
    pub pixels_inside: u64,
    pub centroid_inside: bool,
}

/// The provinces a lasso takes in, sorted by what can be done with them.
#[derive(Debug, Clone)]
pub struct LassoCandidateSet {
    pub selectable: BTreeSet<u32>,
    pub blocked: BTreeSet<u32>,
    pub already_selected: BTreeSet<u32>,
    pub ambiguous: BTreeSet<u32>,
    pub invalid_state: BTreeSet<u32>,
    pub ignored_non_land: usize,
    pub ignored_unknown_pixels: usize,
    pub scanned_pixels: usize,
}

/// The lasso takes the province in: its center of mass lies inside, any of
/// its pixels does, or more than half of them do (the doubled count
/// saturating).
pub open spec fn included(h: LassoHit, inclusion: ProvinceInclusionMode) -> bool {
    match inclusion {
        ProvinceInclusionMode::CentroidInside => h.centroid_inside,
        ProvinceInclusionMode::AnyIntersection => h.pixels_inside > 0,
        ProvinceInclusionMode::MajorityInside => (if h.pixels_inside * 2 > u64::MAX {
            u64::MAX as int
        } else {
            h.pixels_inside * 2
        }) > h.total_pixels,
    }
}

/// The rule that applies to a taken-in land province.
pub enum LassoClass {
    Ambiguous,
    InvalidState,
    Selectable,
}

pub open spec fn land_class(
    id: u32,
    ambiguous: Set<u32>,
    state_of: Map<u32, u32>,
    valid: Set<u32>,
) -> LassoClass {
    if ambiguous.contains(id) {
        LassoClass::Ambiguous
    } else if state_of.contains_key(id) && !valid.contains(state_of[id]) {
        LassoClass::InvalidState
    } else {
        LassoClass::Selectable
    }
}

/// The provinces of the hits that the lasso takes in as land of the class.
pub open spec fn taken_in(
    hits: Seq<LassoHit>,
    inclusion: ProvinceInclusionMode,
    ambiguous: Set<u32>,
    state_of: Map<u32, u32>,
    valid: Set<u32>,
    class: spec_fn(LassoClass) -> bool,
) -> Set<u32> {
    Set::new(|id: u32| exists|i: int| 0 <= i < hits.len() && hits[i].province_id == id && included(hits[i], inclusion)
        && hits[i].kind == ProvinceKind::Land && class(land_class(id, ambiguous, state_of, valid)))
}

pub open spec fn is_ambiguous() -> spec_fn(LassoClass) -> bool {
    |c: LassoClass| c is Ambiguous
}

pub open spec fn is_invalid_state() -> spec_fn(LassoClass) -> bool {
    |c: LassoClass| c is InvalidState
}

pub open spec fn is_selectable() -> spec_fn(LassoClass) -> bool {
    |c: LassoClass| c is Selectable
}

pub open spec fn is_blocked() -> spec_fn(LassoClass) -> bool {
    |c: LassoClass| !(c is Selectable)
}

/// How many taken-in hits are not land.
pub open spec fn non_land_count(hits: Seq<LassoHit>, inclusion: ProvinceInclusionMode) -> nat
    decreases hits.len(),
{
    if hits.len() == 0 {
        0
    } else {
        non_land_count(hits.drop_last(), inclusion) + (if included(hits.last(), inclusion) && hits.last().kind
            != ProvinceKind::Land {
            1nat
        } else {
            0nat
        })
    }
}

fn included_exec(h: LassoHit, inclusion: ProvinceInclusionMode) -> (r: bool)
    ensures
        r == included(h, inclusion),
{
    match inclusion {
        ProvinceInclusionMode::CentroidInside => h.centroid_inside,
        ProvinceInclusionMode::AnyIntersection => h.pixels_inside > 0,
        ProvinceInclusionMode::MajorityInside => {
            let doubled: u64 = if h.pixels_inside > u64::MAX / 2 {
                u64::MAX
            } else {
                h.pixels_inside * 2
            };
            doubled > h.total_pixels
        },
    }
}

/// The state lasso's verdict on the provinces its bounding box covers.
/// Fewer than three points make no polygon. Every taken-in province that is
/// not land is only counted; an ambiguous one is blocked as ambiguous; one
/// held by a state that is not valid is blocked as such; every other is
/// selectable, and noted when it is selected already.
pub fn classify_lasso_hits(
    point_count: usize,
    hits: &Vec<LassoHit>,
    inclusion: ProvinceInclusionMode,
    selected: &BTreeSet<u32>,
    state_by_province: &BTreeMap<u32, u32>,
    ambiguous_provinces: &BTreeSet<u32>,
    valid_state_ids: &BTreeSet<u32>,
    ignored_unknown_pixels: usize,
    scanned_pixels: usize,
) -> (r: Result<LassoCandidateSet, StateLassoError>)
    ensures
        point_count < 3 <==> r is Err,
        r matches Err(e) ==> e == StateLassoError::NotEnoughPoints,
        r matches Ok(c) ==> c.ignored_non_land <= hits@.len(),
        r matches Ok(c) ==> (forall|i: int| 0 <= i < hits@.len() ==> !included(#[trigger] hits@[i], inclusion)) ==> {
            &&& c.ignored_non_land == 0
            &&& c.selectable@ == Set::<u32>::empty()
            &&& c.blocked@ == Set::<u32>::empty()
        },
        r matches Ok(c) ==> (forall|i: int| 0 <= i < hits@.len() ==> (#[trigger] hits@[i]).kind == ProvinceKind::Land)
            ==> c.ignored_non_land == 0,
        r matches Ok(c) ==> {
            let (a, m, v) = (ambiguous_provinces@, state_by_province@, valid_state_ids@);
            &&& c.ambiguous@ == taken_in(hits@, inclusion, a, m, v, is_ambiguous())
            &&& c.invalid_state@ == taken_in(hits@, inclusion, a, m, v, is_invalid_state())
            &&& c.blocked@ == taken_in(hits@, inclusion, a, m, v, is_blocked())
            &&& c.selectable@ == taken_in(hits@, inclusion, a, m, v, is_selectable())
            &&& c.already_selected@ == taken_in(hits@, inclusion, a, m, v, is_selectable()).intersect(selected@)
            &&& c.ignored_non_land == non_land_count(hits@, inclusion)
            &&& c.ignored_unknown_pixels == ignored_unknown_pixels
            &&& c.scanned_pixels == scanned_pixels
        },
{
    if point_count < 3 {
        return Err(StateLassoError::NotEnoughPoints);
    }
    let ghost (a, m, v) = (ambiguous_provinces@, state_by_province@, valid_state_ids@);
    let mut selectable: BTreeSet<u32> = BTreeSet::new();
    let mut blocked: BTreeSet<u32> = BTreeSet::new();
    let mut already: BTreeSet<u32> = BTreeSet::new();
    let mut ambiguous: BTreeSet<u32> = BTreeSet::new();
    let mut invalid: BTreeSet<u32> = BTreeSet::new();
    let mut non_land: usize = 0;
    let mut i: usize = 0;
    proof {
        assert(taken_in(hits@.take(0), inclusion, a, m, v, is_ambiguous()) =~= Set::<u32>::empty());
        assert(taken_in(hits@.take(0), inclusion, a, m, v, is_invalid_state()) =~= Set::<u32>::empty());
        assert(taken_in(hits@.take(0), inclusion, a, m, v, is_blocked()) =~= Set::<u32>::empty());
        assert(taken_in(hits@.take(0), inclusion, a, m, v, is_selectable()) =~= Set::<u32>::empty());
    }
    while i < hits.len()
        invariant
            i <= hits@.len(),
            a == ambiguous_provinces@,
            m == state_by_province@,
            v == valid_state_ids@,
            ambiguous@ == taken_in(hits@.take(i as int), inclusion, a, m, v, is_ambiguous()),
            invalid@ == taken_in(hits@.take(i as int), inclusion, a, m, v, is_invalid_state()),
            blocked@ == taken_in(hits@.take(i as int), inclusion, a, m, v, is_blocked()),
            selectable@ == taken_in(hits@.take(i as int), inclusion, a, m, v, is_selectable()),
            already@ == selectable@.intersect(selected@),
            non_land == non_land_count(hits@.take(i as int), inclusion),
            non_land <= i,
        decreases hits@.len() - i,
    {
        let h = hits[i];
        let id = h.province_id;
        let ghost before = hits@.take(i as int);
        let ghost after = hits@.take(i + 1);
        proof {
            assert(after.drop_last() =~= before);
            assert(after.last() == h);
            lemma_taken_in_step(hits@, inclusion, a, m, v, i as int, is_ambiguous());
            lemma_taken_in_step(hits@, inclusion, a, m, v, i as int, is_invalid_state());
            lemma_taken_in_step(hits@, inclusion, a, m, v, i as int, is_blocked());
            lemma_taken_in_step(hits@, inclusion, a, m, v, i as int, is_selectable());
        }
        if included_exec(h, inclusion) {
            if h.kind != ProvinceKind::Land {
                non_land = non_land + 1;
            } else if ambiguous_provinces.contains(&id) {
                ambiguous.insert(id);
                blocked.insert(id);
            } else {
                let invalid_state = match state_by_province.get(&id) {
                    Some(s) => !valid_state_ids.contains(s),
                    None => false,
                };
                if invalid_state {
                    invalid.insert(id);
                    blocked.insert(id);
                } else {
                    if selected.contains(&id) {
                        already.insert(id);
                    }
                    selectable.insert(id);
                }
            }
        }
        i = i + 1;
        proof {
            assert(ambiguous@ =~= taken_in(after, inclusion, a, m, v, is_ambiguous()));
            assert(invalid@ =~= taken_in(after, inclusion, a, m, v, is_invalid_state()));
            assert(blocked@ =~= taken_in(after, inclusion, a, m, v, is_blocked()));
            assert(selectable@ =~= taken_in(after, inclusion, a, m, v, is_selectable()));
            assert(already@ =~= selectable@.intersect(selected@));
        }
    }
    proof {
        assert(hits@.take(hits@.len() as int) =~= hits@);
        lemma_non_land_count_bounds(hits@, inclusion);
        let (a, m, v) = (ambiguous_provinces@, state_by_province@, valid_state_ids@);
        if forall|i: int| 0 <= i < hits@.len() ==> !included(#[trigger] hits@[i], inclusion) {
            assert(selectable@ =~= Set::<u32>::empty()) by {
                assert forall|id: u32| !taken_in(hits@, inclusion, a, m, v, is_selectable()).contains(id) by {
                    if taken_in(hits@, inclusion, a, m, v, is_selectable()).contains(id) {
                        let k = choose|k: int| 0 <= k < hits@.len() && hits@[k].province_id == id && included(hits@[k], inclusion)
                            && hits@[k].kind == ProvinceKind::Land && is_selectable()(land_class(id, a, m, v));
                    }
                }
            }
            assert(blocked@ =~= Set::<u32>::empty()) by {
                assert forall|id: u32| !taken_in(hits@, inclusion, a, m, v, is_blocked()).contains(id) by {
                    if taken_in(hits@, inclusion, a, m, v, is_blocked()).contains(id) {
                        let k = choose|k: int| 0 <= k < hits@.len() && hits@[k].province_id == id && included(hits@[k], inclusion)
                            && hits@[k].kind == ProvinceKind::Land && is_blocked()(land_class(id, a, m, v));
                    }
                }
            }
        }
    }
    Ok(
        LassoCandidateSet {
            selectable,
            blocked,
            already_selected: already,
            ambiguous,
            invalid_state: invalid,
            ignored_non_land: non_land,
            ignored_unknown_pixels,
            scanned_pixels,
        },
    )
}

proof fn lemma_taken_in_step(
    hits: Seq<LassoHit>,
    inclusion: ProvinceInclusionMode,
    a: Set<u32>,
    m: Map<u32, u32>,
    v: Set<u32>,
    i: int,
    class: spec_fn(LassoClass) -> bool,
)
    requires
        0 <= i < hits.len(),
    ensures
        ({
            let h = hits[i];
            taken_in(hits.take(i + 1), inclusion, a, m, v, class) == (if included(h, inclusion) && h.kind
                == ProvinceKind::Land && class(land_class(h.province_id, a, m, v)) {
                taken_in(hits.take(i), inclusion, a, m, v, class).insert(h.province_id)
            } else {
                taken_in(hits.take(i), inclusion, a, m, v, class)
            })
        }),
{
    let x = hits.take(i);
    let y = hits.take(i + 1);
    let h = hits[i];
    assert(y[i] == h);
    assert forall|k: int| 0 <= k < i implies #[trigger] y[k] == x[k] by {}
    let want = if included(h, inclusion) && h.kind == ProvinceKind::Land && class(land_class(h.province_id, a, m, v)) {
        taken_in(x, inclusion, a, m, v, class).insert(h.province_id)
    } else {
        taken_in(x, inclusion, a, m, v, class)
    };
    assert forall|id: u32| taken_in(y, inclusion, a, m, v, class).contains(id) <==> want.contains(id) by {
        if taken_in(y, inclusion, a, m, v, class).contains(id) {
            let k = choose|k: int| 0 <= k < y.len() && y[k].province_id == id && included(y[k], inclusion)
                && y[k].kind == ProvinceKind::Land && class(land_class(id, a, m, v));
            if k < i {
                assert(x[k] == y[k]);
            }
        }
        if taken_in(x, inclusion, a, m, v, class).contains(id) {
            let k = choose|k: int| 0 <= k < x.len() && x[k].province_id == id && included(x[k], inclusion)
                && x[k].kind == ProvinceKind::Land && class(land_class(id, a, m, v));
            assert(y[k] == x[k]);
        }
    }
    assert(taken_in(y, inclusion, a, m, v, class) =~= want);
}

/// Counting taken-in provinces that are not land: at most one per hit, and
/// none when every hit is land or none is taken in.
proof fn lemma_non_land_count_bounds(hits: Seq<LassoHit>, inclusion: ProvinceInclusionMode)
    ensures
        non_land_count(hits, inclusion) <= hits.len(),
        (forall|i: int| 0 <= i < hits.len() ==> !included(#[trigger] hits[i], inclusion)) ==> non_land_count(hits, inclusion) == 0,
        (forall|i: int| 0 <= i < hits.len() ==> (#[trigger] hits[i]).kind == ProvinceKind::Land) ==> non_land_count(hits, inclusion) == 0,
    decreases hits.len(),
{
    if hits.len() > 0 {
        let d = hits.drop_last();
        assert forall|i: int| 0 <= i < d.len() implies #[trigger] d[i] == hits[i] by {}
        assert(hits.last() == hits[hits.len() - 1]);
        lemma_non_land_count_bounds(d, inclusion);
    }
}

/// Which hits a lasso takes in, and how the count of taken-in provinces that
/// are not land grows: a hit the lasso does not take in, or a land hit, never
/// changes it; a taken-in hit that is not land adds one.
pub proof fn lemma_lasso_laws(hits: Seq<LassoHit>, h: LassoHit, inclusion: ProvinceInclusionMode)
    ensures
        included(h, ProvinceInclusionMode::CentroidInside) <==> h.centroid_inside,
        included(h, ProvinceInclusionMode::AnyIntersection) <==> h.pixels_inside > 0,
        h.pixels_inside <= u64::MAX / 2 ==> (included(h, ProvinceInclusionMode::MajorityInside) <==> 2 * h.pixels_inside
            > h.total_pixels),
        h.pixels_inside == 0 ==> !included(h, ProvinceInclusionMode::AnyIntersection) && (h.total_pixels >= 0
            ==> !included(h, ProvinceInclusionMode::MajorityInside)),
        !included(h, inclusion) ==> non_land_count(hits.push(h), inclusion) == non_land_count(hits, inclusion),
        h.kind == ProvinceKind::Land ==> non_land_count(hits.push(h), inclusion) == non_land_count(hits, inclusion),
        included(h, inclusion) && h.kind != ProvinceKind::Land ==> non_land_count(hits.push(h), inclusion)
            == non_land_count(hits, inclusion) + 1,
        non_land_count(hits, inclusion) <= hits.len(),
{
    assert(hits.push(h).drop_last() =~= hits);
    lemma_non_land_count_bounds(hits, inclusion);
}

/// How the taken-in land provinces are sorted: a province is selectable or
/// blocked exactly when a taken-in land hit has its id, never both; blocked
/// means ambiguous or in an invalid state, never both; an ambiguous one is
/// one the caller marked ambiguous; a selectable one is not marked and has no
/// state or a valid one; a hit the lasso does not take in adds nothing; a
/// taken-in land hit is ambiguous when marked so, else in an invalid state
/// when its state is not valid, else selectable.
pub proof fn lemma_lasso_class_laws(
    hits: Seq<LassoHit>,
    h: LassoHit,
    inclusion: ProvinceInclusionMode,
    a: Set<u32>,
    m: Map<u32, u32>,
    v: Set<u32>,
    id: u32,
)
    ensures
        taken_in(hits, inclusion, a, m, v, is_selectable()).contains(id) || taken_in(hits, inclusion, a, m, v, is_blocked()).contains(id)
            <==> exists|i: int| 0 <= i < hits.len() && (#[trigger] hits[i]).province_id == id && included(hits[i], inclusion)
            && hits[i].kind == ProvinceKind::Land,
        !(taken_in(hits, inclusion, a, m, v, is_selectable()).contains(id) && taken_in(hits, inclusion, a, m, v, is_blocked()).contains(id)),
        taken_in(hits, inclusion, a, m, v, is_blocked()).contains(id) <==> taken_in(hits, inclusion, a, m, v, is_ambiguous()).contains(id)
            || taken_in(hits, inclusion, a, m, v, is_invalid_state()).contains(id),
        !(taken_in(hits, inclusion, a, m, v, is_ambiguous()).contains(id) && taken_in(hits, inclusion, a, m, v, is_invalid_state()).contains(id)),
        taken_in(hits, inclusion, a, m, v, is_ambiguous()).contains(id) ==> a.contains(id),
        taken_in(hits, inclusion, a, m, v, is_invalid_state()).contains(id) ==> m.contains_key(id) && !v.contains(m[id]),
        taken_in(hits, inclusion, a, m, v, is_selectable()).contains(id) ==> !a.contains(id) && (m.contains_key(id)
            ==> v.contains(m[id])),
        !included(h, inclusion) ==> taken_in(hits.push(h), inclusion, a, m, v, is_selectable()) == taken_in(hits, inclusion, a, m, v, is_selectable())
            && taken_in(hits.push(h), inclusion, a, m, v, is_blocked()) == taken_in(hits, inclusion, a, m, v, is_blocked()),
        included(h, inclusion) && h.kind == ProvinceKind::Land ==> taken_in(hits.push(h), inclusion, a, m, v, is_selectable()).contains(h.province_id)
            || taken_in(hits.push(h), inclusion, a, m, v, is_blocked()).contains(h.province_id),
        included(h, inclusion) && h.kind == ProvinceKind::Land && a.contains(h.province_id) ==> taken_in(hits.push(h), inclusion, a, m, v, is_ambiguous()).contains(h.province_id),
        included(h, inclusion) && h.kind == ProvinceKind::Land && !a.contains(h.province_id) && m.contains_key(h.province_id)
            && !v.contains(m[h.province_id]) ==> taken_in(hits.push(h), inclusion, a, m, v, is_invalid_state()).contains(h.province_id),
        included(h, inclusion) && h.kind == ProvinceKind::Land && !a.contains(h.province_id) && (m.contains_key(h.province_id)
            ==> v.contains(m[h.province_id])) ==> taken_in(hits.push(h), inclusion, a, m, v, is_selectable()).contains(h.province_id),
{
    let t = hits.push(h);
    assert forall|i: int| 0 <= i < hits.len() implies #[trigger] t[i] == hits[i] by {}
    if !included(h, inclusion) {
        assert forall|x: u32| taken_in(t, inclusion, a, m, v, is_selectable()).contains(x) <==> taken_in(hits, inclusion, a, m, v, is_selectable()).contains(x) by {
            if taken_in(t, inclusion, a, m, v, is_selectable()).contains(x) {
                let i = choose|i: int| 0 <= i < t.len() && t[i].province_id == x && included(t[i], inclusion)
                    && t[i].kind == ProvinceKind::Land && is_selectable()(land_class(x, a, m, v));
                assert(i < hits.len());
                assert(hits[i] == t[i]);
            }
            if taken_in(hits, inclusion, a, m, v, is_selectable()).contains(x) {
                let i = choose|i: int| 0 <= i < hits.len() && hits[i].province_id == x && included(hits[i], inclusion)
                    && hits[i].kind == ProvinceKind::Land && is_selectable()(land_class(x, a, m, v));
                assert(t[i] == hits[i]);
            }
        }
        assert forall|x: u32| taken_in(t, inclusion, a, m, v, is_blocked()).contains(x) <==> taken_in(hits, inclusion, a, m, v, is_blocked()).contains(x) by {
            if taken_in(t, inclusion, a, m, v, is_blocked()).contains(x) {
                let i = choose|i: int| 0 <= i < t.len() && t[i].province_id == x && included(t[i], inclusion)
                    && t[i].kind == ProvinceKind::Land && is_blocked()(land_class(x, a, m, v));
                assert(i < hits.len());
                assert(hits[i] == t[i]);
            }
            if taken_in(hits, inclusion, a, m, v, is_blocked()).contains(x) {
                let i = choose|i: int| 0 <= i < hits.len() && hits[i].province_id == x && included(hits[i], inclusion)
                    && hits[i].kind == ProvinceKind::Land && is_blocked()(land_class(x, a, m, v));
                assert(t[i] == hits[i]);
            }
        }
        assert(taken_in(t, inclusion, a, m, v, is_selectable()) =~= taken_in(hits, inclusion, a, m, v, is_selectable()));
        assert(taken_in(t, inclusion, a, m, v, is_blocked()) =~= taken_in(hits, inclusion, a, m, v, is_blocked()));
    }
    if included(h, inclusion) && h.kind == ProvinceKind::Land {
        assert(t[hits.len() as int] == h);
    }
}

} // verus!
