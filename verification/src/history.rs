//! State history at the project's initial bookmark: which editable values
//! the dated blocks of a state's history touch up to that date.
//!
//! Sets of tags and building names are kept as vectors without repeats, in
//! the order they are first met; their contents are stated as sets.
use vstd::prelude::*;
use std::collections::{BTreeMap, BTreeSet};
use crate::state::{VictoryPoint, clone_opt_str, opt_str_view};
use crate::text::same_text;
use crate::working_set::{copy_points, first_position_of};
use crate::lexicographic::{key_le, lemma_sorted_by_key_unique, sort_by_keys, views, key_injective_on};
use vstd::relations::sorted_by;

verus! {

broadcast use vstd::std_specs::btree::group_btree_axioms;

/// A date of the game's calendar, ordered by year, month, day and hour.
#[derive(Debug, Clone, Copy, PartialEq, Eq, Structural)]
pub struct Hoi4Date {
    pub year: i32,
    pub month: u32,
    pub day: u32,
    pub hour: u32,
}

/// `a` is not later than `b`.
pub open spec fn date_le(a: Hoi4Date, b: Hoi4Date) -> bool {
    if a.year != b.year {
        a.year < b.year
    } else if a.month != b.month {
        a.month < b.month
    } else if a.day != b.day {
        a.day < b.day
    } else {
        a.hour <= b.hour
    }
}

/// The calendar order: a date in an earlier year, or in the same year and an
/// earlier month, or in the same month and an earlier day, or on the same day
/// at an hour not later, is not after another; it is a total order.
pub proof fn lemma_date_order_laws(a: Hoi4Date, b: Hoi4Date, c: Hoi4Date)
    ensures
        a.year < b.year ==> date_le(a, b) && !date_le(b, a),
        a.year == b.year && a.month < b.month ==> date_le(a, b) && !date_le(b, a),
        a.year == b.year && a.month == b.month && a.day < b.day ==> date_le(a, b) && !date_le(b, a),
        a.year == b.year && a.month == b.month && a.day == b.day ==> (date_le(a, b) <==> a.hour <= b.hour),
        date_le(a, a),
        date_le(a, b) || date_le(b, a),
        date_le(a, b) && date_le(b, a) ==> a == b,
        date_le(a, b) && date_le(b, c) ==> date_le(a, c),
{
}

/// A block takes effect exactly when its date is not after the bookmark; a
/// block of an earlier month of the bookmark's year always does.
pub proof fn lemma_effective_blocks(b: DatedHistoryBlock, d: Hoi4Date)
    ensures
        effective(b, None),
        b.date.year == d.year && b.date.month < d.month ==> effective(b, Some(d)),
        b.date.year < d.year ==> effective(b, Some(d)),
        d.year < b.date.year ==> !effective(b, Some(d)),
        b.date.year == d.year && d.month < b.date.month ==> !effective(b, Some(d)),
{
}

impl Hoi4Date {
    /// This date is not later than `other`: an earlier year, else an earlier
    /// month, else an earlier day, else an hour not later decides.
    pub fn not_after(self, other: Hoi4Date) -> (r: bool)
        ensures
            r == date_le(self, other),
            self.year < other.year ==> r,
            self.year > other.year ==> !r,
            self.year == other.year && self.month < other.month ==> r,
            self.year == other.year && self.month > other.month ==> !r,
            self.year == other.year && self.month == other.month && self.day < other.day ==> r,
            self.year == other.year && self.month == other.month && self.day > other.day ==> !r,
            self.year == other.year && self.month == other.month && self.day == other.day ==> (r <==> self.hour
                <= other.hour),
    {
        if self.year != other.year {
            self.year < other.year
        } else if self.month != other.month {
            self.month < other.month
        } else if self.day != other.day {
            self.day < other.day
        } else {
            self.hour <= other.hour
        }
    }
}

/// What one dated block of a state's history changes.
#[derive(Debug, Clone, Default)]
pub struct StateHistoryDelta {
    pub owner: Option<String>,
    pub controller: Option<String>,
    pub added_cores: Vec<String>,
    pub removed_cores: Vec<String>,
    pub added_claims: Vec<String>,
    pub removed_claims: Vec<String>,
    pub victory_points: Vec<VictoryPoint>,
    pub state_buildings: Vec<(String, i64)>,
    pub province_buildings: Vec<(u32, Vec<(String, i64)>)>,
}

/// A block of history that takes effect at a date.
#[derive(Debug, Clone)]
pub struct DatedHistoryBlock {
    pub date: Hoi4Date,
    pub changes: StateHistoryDelta,
}

/// The editable history values that dated blocks affect.
#[derive(Debug, Clone, Default)]
pub struct DatedHistoryImpact {
    pub owner_has_dated_effects: bool,
    pub controller_has_dated_effects: bool,
    pub cores: Vec<String>,
    pub claims: Vec<String>,
    pub victory_points: BTreeSet<u32>,
    pub state_buildings: Vec<String>,
    pub province_buildings: BTreeMap<u32, Vec<String>>,
}

/// The texts of a list of names.
pub open spec fn names(v: Seq<String>) -> Set<Seq<char>> {
    Set::new(|t: Seq<char>| exists|i: int| 0 <= i < v.len() && v[i]@ == t)
}

/// The building names of a list of buildings with levels.
pub open spec fn building_names(v: Seq<(String, i64)>) -> Set<Seq<char>> {
    Set::new(|t: Seq<char>| exists|i: int| 0 <= i < v.len() && v[i].0@ == t)
}

/// The province ids of a list of victory points.
pub open spec fn point_provinces(v: Seq<VictoryPoint>) -> Set<u32> {
    Set::new(|p: u32| exists|i: int| 0 <= i < v.len() && v[i].province_id == p)
}

/// No two names in the list have the same text.
pub open spec fn distinct_names(v: Seq<String>) -> bool {
    forall|i: int, j: int| 0 <= i < j < v.len() ==> v[i]@ != v[j]@
}

/// A block takes effect by the date; with no date, every block does.
pub open spec fn effective(b: DatedHistoryBlock, date: Option<Hoi4Date>) -> bool {
    match date {
        Some(d) => date_le(b.date, d),
        None => true,
    }
}

/// Some effective block sets the owner.
pub open spec fn owner_dated(blocks: Seq<DatedHistoryBlock>, date: Option<Hoi4Date>) -> bool {
    exists|i: int| 0 <= i < blocks.len() && effective(blocks[i], date) && blocks[i].changes.owner is Some
}

/// Some effective block sets the controller.
pub open spec fn controller_dated(blocks: Seq<DatedHistoryBlock>, date: Option<Hoi4Date>) -> bool {
    exists|i: int| 0 <= i < blocks.len() && effective(blocks[i], date) && blocks[i].changes.controller is Some
}

/// The cores that effective blocks add or remove.
pub open spec fn dated_cores(blocks: Seq<DatedHistoryBlock>, date: Option<Hoi4Date>) -> Set<Seq<char>> {
    Set::new(|t: Seq<char>| exists|i: int| 0 <= i < blocks.len() && effective(blocks[i], date)
        && (names(blocks[i].changes.added_cores@).contains(t) || names(blocks[i].changes.removed_cores@).contains(t)))
}

/// The claims that effective blocks add or remove.
pub open spec fn dated_claims(blocks: Seq<DatedHistoryBlock>, date: Option<Hoi4Date>) -> Set<Seq<char>> {
    Set::new(|t: Seq<char>| exists|i: int| 0 <= i < blocks.len() && effective(blocks[i], date)
        && (names(blocks[i].changes.added_claims@).contains(t) || names(blocks[i].changes.removed_claims@).contains(t)))
}

/// The provinces whose victory points effective blocks set.
pub open spec fn dated_points(blocks: Seq<DatedHistoryBlock>, date: Option<Hoi4Date>) -> Set<u32> {
    Set::new(|p: u32| exists|i: int| 0 <= i < blocks.len() && effective(blocks[i], date)
        && point_provinces(blocks[i].changes.victory_points@).contains(p))
}

/// The state buildings that effective blocks set.
pub open spec fn dated_state_buildings(blocks: Seq<DatedHistoryBlock>, date: Option<Hoi4Date>) -> Set<Seq<char>> {
    Set::new(|t: Seq<char>| exists|i: int| 0 <= i < blocks.len() && effective(blocks[i], date)
        && building_names(blocks[i].changes.state_buildings@).contains(t))
}

/// The buildings of province `p` that effective blocks set.
pub open spec fn dated_province_buildings(blocks: Seq<DatedHistoryBlock>, date: Option<Hoi4Date>, p: u32) -> Set<
    Seq<char>,
> {
    Set::new(|t: Seq<char>| exists|i: int, k: int| 0 <= i < blocks.len() && effective(blocks[i], date)
        && 0 <= k < blocks[i].changes.province_buildings@.len()
        && blocks[i].changes.province_buildings@[k].0 == p
        && building_names(blocks[i].changes.province_buildings@[k].1@).contains(t))
}

/// The provinces whose buildings effective blocks set.
pub open spec fn dated_building_provinces(blocks: Seq<DatedHistoryBlock>, date: Option<Hoi4Date>) -> Set<u32> {
    Set::new(|p: u32| exists|i: int, k: int| 0 <= i < blocks.len() && effective(blocks[i], date)
        && 0 <= k < blocks[i].changes.province_buildings@.len()
        && blocks[i].changes.province_buildings@[k].0 == p)
}

/// Adds a name unless a name with the same text is there.
fn add_name(out: &mut Vec<String>, name: &String)
    requires
        distinct_names(old(out)@),
    ensures
        distinct_names(final(out)@),
        names(final(out)@) == names(old(out)@).insert(name@),
{
    let mut i: usize = 0;
    while i < out.len()
        invariant
            i <= out@.len(),
            out@ == old(out)@,
            distinct_names(out@),
            forall|k: int| 0 <= k < i ==> out@[k]@ != name@,
        decreases out@.len() - i,
    {
        if same_text(out[i].as_str(), name.as_str()) {
            proof {
                assert(names(out@).insert(name@) =~= names(out@));
            }
            return;
        }
        i = i + 1;
    }
    let ghost before = out@;
    out.push(name.clone());
    proof {
        assert(out@[before.len() as int]@ == name@);
        assert forall|t: Seq<char>| names(out@).contains(t) <==> names(before).insert(name@).contains(t) by {
            if names(out@).contains(t) {
                let k = choose|k: int| 0 <= k < out@.len() && out@[k]@ == t;
                if k < before.len() {
                    assert(out@[k] == before[k]);
                }
            }
            if names(before).contains(t) {
                let k = choose|k: int| 0 <= k < before.len() && before[k]@ == t;
                assert(out@[k] == before[k]);
            }
        }
        assert(names(out@) =~= names(before).insert(name@));
        assert forall|a: int, b: int| 0 <= a < b < out@.len() implies out@[a]@ != out@[b]@ by {
            if b < before.len() {
                assert(out@[a] == before[a] && out@[b] == before[b]);
            } else {
                assert(out@[a] == before[a]);
            }
        }
    }
}

/// Adds each name of a list.
fn add_names(out: &mut Vec<String>, list: &Vec<String>)
    requires
        distinct_names(old(out)@),
    ensures
        distinct_names(final(out)@),
        names(final(out)@) == names(old(out)@).union(names(list@)),
{
    let mut i: usize = 0;
    while i < list.len()
        invariant
            i <= list@.len(),
            distinct_names(out@),
            names(out@) == names(old(out)@).union(names(list@.take(i as int))),
        decreases list@.len() - i,
    {
        add_name(out, &list[i]);
        proof {
            assert(names(list@.take(i + 1)) =~= names(list@.take(i as int)).insert(list@[i as int]@)) by {
                assert forall|t: Seq<char>| names(list@.take(i + 1)).contains(t) implies names(list@.take(i as int)).insert(
                    list@[i as int]@,
                ).contains(t) by {
                    let a = list@.take(i + 1);
                    let k = choose|k: int| 0 <= k < a.len() && #[trigger] a[k]@ == t;
                    if k < i {
                        assert(list@.take(i as int)[k] == list@[k]);
                    }
                }
                assert forall|t: Seq<char>| names(list@.take(i as int)).contains(t) implies names(list@.take(i + 1)).contains(t) by {
                    let a = list@.take(i as int);
                    let k = choose|k: int| 0 <= k < a.len() && #[trigger] a[k]@ == t;
                    assert(list@.take(i + 1)[k] == list@[k]);
                }
                assert(list@.take(i + 1)[i as int] == list@[i as int]);
            }
        }
        i = i + 1;
        proof {
            assert(names(out@) =~= names(old(out)@).union(names(list@.take(i as int))));
        }
    }
    proof {
        assert(list@.take(list@.len() as int) =~= list@);
    }
}

/// Adds the building name of each entry of a list.
fn add_building_names(out: &mut Vec<String>, list: &Vec<(String, i64)>)
    requires
        distinct_names(old(out)@),
    ensures
        distinct_names(final(out)@),
        names(final(out)@) == names(old(out)@).union(building_names(list@)),
{
    let mut i: usize = 0;
    while i < list.len()
        invariant
            i <= list@.len(),
            distinct_names(out@),
            names(out@) == names(old(out)@).union(building_names(list@.take(i as int))),
        decreases list@.len() - i,
    {
        add_name(out, &list[i].0);
        proof {
            assert(building_names(list@.take(i + 1)) =~= building_names(list@.take(i as int)).insert(list@[i as int].0@)) by {
                assert forall|t: Seq<char>| building_names(list@.take(i + 1)).contains(t) implies building_names(
                    list@.take(i as int),
                ).insert(list@[i as int].0@).contains(t) by {
                    let a = list@.take(i + 1);
                    let k = choose|k: int| 0 <= k < a.len() && #[trigger] a[k].0@ == t;
                    if k < i {
                        assert(list@.take(i as int)[k] == list@[k]);
                    }
                }
                assert forall|t: Seq<char>| building_names(list@.take(i as int)).contains(t) implies building_names(
                    list@.take(i + 1),
                ).contains(t) by {
                    let a = list@.take(i as int);
                    let k = choose|k: int| 0 <= k < a.len() && #[trigger] a[k].0@ == t;
                    assert(list@.take(i + 1)[k] == list@[k]);
                }
                assert(list@.take(i + 1)[i as int] == list@[i as int]);
            }
        }
        i = i + 1;
        proof {
            assert(names(out@) =~= names(old(out)@).union(building_names(list@.take(i as int))));
        }
    }
    proof {
        assert(list@.take(list@.len() as int) =~= list@);
    }
}

/// Entry `m` of block `j`'s province buildings is counted once the blocks
/// before `i`, and the first `k` entries of block `i`, are.
pub open spec fn entry_seen(blocks: Seq<DatedHistoryBlock>, date: Option<Hoi4Date>, i: int, k: int, j: int, m: int) -> bool {
    &&& 0 <= j < blocks.len()
    &&& effective(blocks[j], date)
    &&& 0 <= m < blocks[j].changes.province_buildings@.len()
    &&& (j < i || (j == i && m < k))
}

/// The buildings of province `p` counted so far.
pub open spec fn seen_buildings(blocks: Seq<DatedHistoryBlock>, date: Option<Hoi4Date>, i: int, k: int, p: u32) -> Set<
    Seq<char>,
> {
    Set::new(|t: Seq<char>| exists|j: int, m: int| entry_seen(blocks, date, i, k, j, m)
        && blocks[j].changes.province_buildings@[m].0 == p
        && building_names(blocks[j].changes.province_buildings@[m].1@).contains(t))
}

/// The provinces counted so far.
pub open spec fn seen_provinces(blocks: Seq<DatedHistoryBlock>, date: Option<Hoi4Date>, i: int, k: int) -> Set<u32> {
    Set::new(|p: u32| exists|j: int, m: int| entry_seen(blocks, date, i, k, j, m)
        && blocks[j].changes.province_buildings@[m].0 == p)
}

/// The names of each province's buildings in a map.
pub open spec fn building_name_map(m: Map<u32, Vec<String>>) -> Map<u32, Set<Seq<char>>> {
    Map::new(|p: u32| m.contains_key(p), |p: u32| names(m[p]@))
}

/// What the dated blocks affect at the date: whether some effective block
/// sets the owner or the controller, and the cores, claims, victory point
/// provinces, state buildings and buildings of each province that effective
/// blocks touch. Without a date every block counts.
pub fn dated_history_impact(dated_blocks: &Vec<DatedHistoryBlock>, effective_date: Option<Hoi4Date>) -> (r:
    DatedHistoryImpact)
    ensures
        r.owner_has_dated_effects == owner_dated(dated_blocks@, effective_date),
        r.controller_has_dated_effects == controller_dated(dated_blocks@, effective_date),
        names(r.cores@) == dated_cores(dated_blocks@, effective_date),
        distinct_names(r.cores@),
        names(r.claims@) == dated_claims(dated_blocks@, effective_date),
        distinct_names(r.claims@),
        r.victory_points@ == dated_points(dated_blocks@, effective_date),
        names(r.state_buildings@) == dated_state_buildings(dated_blocks@, effective_date),
        distinct_names(r.state_buildings@),
        r.province_buildings@.dom() == dated_building_provinces(dated_blocks@, effective_date),
        forall|p: u32| #[trigger] r.province_buildings@.contains_key(p) ==> names(r.province_buildings@[p]@)
            == dated_province_buildings(dated_blocks@, effective_date, p)
            && distinct_names(r.province_buildings@[p]@),
{
    let ghost bs = dated_blocks@;
    let mut owner = false;
    let mut controller = false;
    let mut cores: Vec<String> = Vec::new();
    let mut claims: Vec<String> = Vec::new();
    let mut points: BTreeSet<u32> = BTreeSet::new();
    let mut state_buildings: Vec<String> = Vec::new();
    let mut province_buildings: BTreeMap<u32, Vec<String>> = BTreeMap::new();
    let mut i: usize = 0;
    proof {
        assert(names(cores@) =~= Set::<Seq<char>>::empty());
        assert(seen_buildings(bs, effective_date, 0, 0, 0) =~= Set::<Seq<char>>::empty());
    }
    while i < dated_blocks.len()
        invariant
            i <= bs.len(),
            bs == dated_blocks@,
            owner == owner_dated(bs.take(i as int), effective_date),
            controller == controller_dated(bs.take(i as int), effective_date),
            names(cores@) == dated_cores(bs.take(i as int), effective_date),
            distinct_names(cores@),
            names(claims@) == dated_claims(bs.take(i as int), effective_date),
            distinct_names(claims@),
            points@ == dated_points(bs.take(i as int), effective_date),
            names(state_buildings@) == dated_state_buildings(bs.take(i as int), effective_date),
            distinct_names(state_buildings@),
            province_buildings@.dom() == seen_provinces(bs, effective_date, i as int, 0),
            forall|p: u32| #[trigger] province_buildings@.contains_key(p) ==> names(province_buildings@[p]@)
                == seen_buildings(bs, effective_date, i as int, 0, p) && distinct_names(province_buildings@[p]@),
        decreases bs.len() - i,
    {
        let block = &dated_blocks[i];
        let take_effect = match effective_date {
            Some(d) => block.date.not_after(d),
            None => true,
        };
        let ghost before = bs.take(i as int);
        let ghost after = bs.take(i + 1);
        proof {
            assert(after.drop_last() =~= before);
            assert(after[i as int] == bs[i as int]);
            assert forall|j: int| 0 <= j < i implies after[j] == before[j] && before[j] == bs[j] by {}
        }
        if take_effect {
            let ghost c0 = cores@;
            let ghost l0 = claims@;
            let ghost s0 = state_buildings@;
            let ghost p0 = points@;
            if block.changes.owner.is_some() {
                owner = true;
            }
            if block.changes.controller.is_some() {
                controller = true;
            }
            add_names(&mut cores, &block.changes.added_cores);
            add_names(&mut cores, &block.changes.removed_cores);
            add_names(&mut claims, &block.changes.added_claims);
            add_names(&mut claims, &block.changes.removed_claims);
            let mut v: usize = 0;
            while v < block.changes.victory_points.len()
                invariant
                    v <= block.changes.victory_points@.len(),
                    points@ == p0.union(point_provinces(block.changes.victory_points@.take(v as int))),
                decreases block.changes.victory_points@.len() - v,
            {
                points.insert(block.changes.victory_points[v].province_id);
                proof {
                    let vp = block.changes.victory_points@;
                    assert(point_provinces(vp.take(v + 1)) =~= point_provinces(vp.take(v as int)).insert(vp[v as int].province_id)) by {
                        assert forall|q: u32| point_provinces(vp.take(v + 1)).contains(q) implies point_provinces(vp.take(v as int)).insert(
                            vp[v as int].province_id,
                        ).contains(q) by {
                            let a = vp.take(v + 1);
                            let k = choose|k: int| 0 <= k < a.len() && #[trigger] a[k].province_id == q;
                            if k < v {
                                assert(vp.take(v as int)[k] == a[k]);
                            }
                        }
                        assert forall|q: u32| point_provinces(vp.take(v as int)).contains(q) implies point_provinces(vp.take(v + 1)).contains(q) by {
                            let a = vp.take(v as int);
                            let k = choose|k: int| 0 <= k < a.len() && #[trigger] a[k].province_id == q;
                            assert(vp.take(v + 1)[k] == a[k]);
                        }
                        assert(vp.take(v + 1)[v as int] == vp[v as int]);
                    }
                }
                v = v + 1;
                proof {
                    assert(points@ =~= p0.union(point_provinces(block.changes.victory_points@.take(v as int))));
                }
            }
            proof {
                assert(block.changes.victory_points@.take(block.changes.victory_points@.len() as int) =~= block.changes.victory_points@);
            }
            add_building_names(&mut state_buildings, &block.changes.state_buildings);
            proof {
                lemma_prefix_step(bs, effective_date, i as int);
            }
        } else {
            proof {
                lemma_prefix_step(bs, effective_date, i as int);
            }
        }
        if take_effect {
            let mut k: usize = 0;
            while k < block.changes.province_buildings.len()
                invariant
                    i < bs.len(),
                    bs == dated_blocks@,
                    block == &dated_blocks@[i as int],
                    effective(bs[i as int], effective_date),
                    k <= block.changes.province_buildings@.len(),
                    province_buildings@.dom() == seen_provinces(bs, effective_date, i as int, k as int),
                    forall|p: u32| #[trigger] province_buildings@.contains_key(p) ==> names(province_buildings@[p]@)
                        == seen_buildings(bs, effective_date, i as int, k as int, p)
                        && distinct_names(province_buildings@[p]@),
                decreases block.changes.province_buildings@.len() - k,
            {
                let p = block.changes.province_buildings[k].0;
                let ghost old_has = province_buildings@.contains_key(p);
                proof {
                    lemma_seen_step(bs, effective_date, i as int, k as int);
                }
                let mut entry = match province_buildings.remove(&p) {
                    Some(e) => e,
                    None => Vec::new(),
                };
                proof {
                    if !old_has {
                        assert(names(entry@) =~= Set::<Seq<char>>::empty());
                    }
                }
                add_building_names(&mut entry, &block.changes.province_buildings[k].1);
                province_buildings.insert(p, entry);
                k = k + 1;
                proof {
                    assert(province_buildings@.dom() =~= seen_provinces(bs, effective_date, i as int, k as int));
                }
            }
        }
        proof {
            lemma_seen_next_block(bs, effective_date, i as int);
        }
        i = i + 1;
    }
    proof {
        assert(bs.take(bs.len() as int) =~= bs);
        lemma_seen_all(bs, effective_date);
    }
    DatedHistoryImpact {
        owner_has_dated_effects: owner,
        controller_has_dated_effects: controller,
        cores,
        claims,
        victory_points: points,
        state_buildings,
        province_buildings,
    }
}

proof fn lemma_prefix_step(bs: Seq<DatedHistoryBlock>, date: Option<Hoi4Date>, i: int)
    requires
        0 <= i < bs.len(),
    ensures
        ({
            let a = bs.take(i);
            let b = bs.take(i + 1);
            let e = effective(bs[i], date);
            let c = bs[i].changes;
            &&& owner_dated(b, date) == (owner_dated(a, date) || (e && c.owner is Some))
            &&& controller_dated(b, date) == (controller_dated(a, date) || (e && c.controller is Some))
            &&& dated_cores(b, date) == (if e {
                dated_cores(a, date).union(names(c.added_cores@)).union(names(c.removed_cores@))
            } else {
                dated_cores(a, date)
            })
            &&& dated_claims(b, date) == (if e {
                dated_claims(a, date).union(names(c.added_claims@)).union(names(c.removed_claims@))
            } else {
                dated_claims(a, date)
            })
            &&& dated_points(b, date) == (if e {
                dated_points(a, date).union(point_provinces(c.victory_points@))
            } else {
                dated_points(a, date)
            })
            &&& dated_state_buildings(b, date) == (if e {
                dated_state_buildings(a, date).union(building_names(c.state_buildings@))
            } else {
                dated_state_buildings(a, date)
            })
        }),
{
    let a = bs.take(i);
    let b = bs.take(i + 1);
    assert forall|j: int| 0 <= j < i implies #[trigger] b[j] == a[j] by {}
    assert(b[i] == bs[i]);
    let e = effective(bs[i], date);
    let c = bs[i].changes;
    if owner_dated(b, date) {
        let j = choose|j: int| 0 <= j < b.len() && effective(b[j], date) && b[j].changes.owner is Some;
        if j < i {
            assert(a[j] == b[j]);
        }
    }
    if owner_dated(a, date) {
        let j = choose|j: int| 0 <= j < a.len() && effective(a[j], date) && a[j].changes.owner is Some;
        assert(b[j] == a[j]);
    }
    if controller_dated(b, date) {
        let j = choose|j: int| 0 <= j < b.len() && effective(b[j], date) && b[j].changes.controller is Some;
        if j < i {
            assert(a[j] == b[j]);
        }
    }
    if controller_dated(a, date) {
        let j = choose|j: int| 0 <= j < a.len() && effective(a[j], date) && a[j].changes.controller is Some;
        assert(b[j] == a[j]);
    }
    assert(dated_cores(b, date) =~= (if e {
        dated_cores(a, date).union(names(c.added_cores@)).union(names(c.removed_cores@))
    } else {
        dated_cores(a, date)
    })) by {
        assert forall|t: Seq<char>| dated_cores(a, date).contains(t) implies dated_cores(b, date).contains(t) by {
            let j = choose|j: int| 0 <= j < a.len() && effective(a[j], date) && (names(a[j].changes.added_cores@).contains(t)
                || names(a[j].changes.removed_cores@).contains(t));
            assert(b[j] == a[j]);
        }
        assert forall|t: Seq<char>| dated_cores(b, date).contains(t) && !dated_cores(a, date).contains(t) implies e && (names(
            c.added_cores@,
        ).contains(t) || names(c.removed_cores@).contains(t)) by {
            let j = choose|j: int| 0 <= j < b.len() && effective(b[j], date) && (names(b[j].changes.added_cores@).contains(t)
                || names(b[j].changes.removed_cores@).contains(t));
            if j < i {
                assert(a[j] == b[j]);
            }
        }
    }
    assert(dated_claims(b, date) =~= (if e {
        dated_claims(a, date).union(names(c.added_claims@)).union(names(c.removed_claims@))
    } else {
        dated_claims(a, date)
    })) by {
        assert forall|t: Seq<char>| dated_claims(a, date).contains(t) implies dated_claims(b, date).contains(t) by {
            let j = choose|j: int| 0 <= j < a.len() && effective(a[j], date) && (names(a[j].changes.added_claims@).contains(t)
                || names(a[j].changes.removed_claims@).contains(t));
            assert(b[j] == a[j]);
        }
        assert forall|t: Seq<char>| dated_claims(b, date).contains(t) && !dated_claims(a, date).contains(t) implies e && (names(
            c.added_claims@,
        ).contains(t) || names(c.removed_claims@).contains(t)) by {
            let j = choose|j: int| 0 <= j < b.len() && effective(b[j], date) && (names(b[j].changes.added_claims@).contains(t)
                || names(b[j].changes.removed_claims@).contains(t));
            if j < i {
                assert(a[j] == b[j]);
            }
        }
    }
    assert(dated_points(b, date) =~= (if e {
        dated_points(a, date).union(point_provinces(c.victory_points@))
    } else {
        dated_points(a, date)
    })) by {
        assert forall|q: u32| dated_points(a, date).contains(q) implies dated_points(b, date).contains(q) by {
            let j = choose|j: int| 0 <= j < a.len() && effective(a[j], date) && point_provinces(a[j].changes.victory_points@).contains(q);
            assert(b[j] == a[j]);
        }
        assert forall|q: u32| dated_points(b, date).contains(q) && !dated_points(a, date).contains(q) implies e && point_provinces(
            c.victory_points@,
        ).contains(q) by {
            let j = choose|j: int| 0 <= j < b.len() && effective(b[j], date) && point_provinces(b[j].changes.victory_points@).contains(q);
            if j < i {
                assert(a[j] == b[j]);
            }
        }
    }
    assert(dated_state_buildings(b, date) =~= (if e {
        dated_state_buildings(a, date).union(building_names(c.state_buildings@))
    } else {
        dated_state_buildings(a, date)
    })) by {
        assert forall|t: Seq<char>| dated_state_buildings(a, date).contains(t) implies dated_state_buildings(b, date).contains(t) by {
            let j = choose|j: int| 0 <= j < a.len() && effective(a[j], date) && building_names(a[j].changes.state_buildings@).contains(t);
            assert(b[j] == a[j]);
        }
        assert forall|t: Seq<char>| dated_state_buildings(b, date).contains(t) && !dated_state_buildings(a, date).contains(t) implies e
            && building_names(c.state_buildings@).contains(t) by {
            let j = choose|j: int| 0 <= j < b.len() && effective(b[j], date) && building_names(b[j].changes.state_buildings@).contains(t);
            if j < i {
                assert(a[j] == b[j]);
            }
        }
    }
}

proof fn lemma_seen_step(bs: Seq<DatedHistoryBlock>, date: Option<Hoi4Date>, i: int, k: int)
    requires
        0 <= i < bs.len(),
        effective(bs[i], date),
        0 <= k < bs[i].changes.province_buildings@.len(),
    ensures
        ({
            let pair = bs[i].changes.province_buildings@[k];
            &&& seen_provinces(bs, date, i, k + 1) == seen_provinces(bs, date, i, k).insert(pair.0)
            &&& forall|q: u32| #[trigger] seen_buildings(bs, date, i, k + 1, q) == (if q == pair.0 {
                seen_buildings(bs, date, i, k, q).union(building_names(pair.1@))
            } else {
                seen_buildings(bs, date, i, k, q)
            })
            &&& forall|q: u32| !(#[trigger] seen_provinces(bs, date, i, k).contains(q)) ==> seen_buildings(bs, date, i, k, q)
                == Set::<Seq<char>>::empty()
        }),
{
    let pair = bs[i].changes.province_buildings@[k];
    assert(entry_seen(bs, date, i, k + 1, i, k));
    assert(seen_provinces(bs, date, i, k + 1) =~= seen_provinces(bs, date, i, k).insert(pair.0)) by {
        assert forall|q: u32| seen_provinces(bs, date, i, k + 1).contains(q) implies seen_provinces(bs, date, i, k).insert(
            pair.0,
        ).contains(q) by {
            let (j, m) = choose|j: int, m: int| entry_seen(bs, date, i, k + 1, j, m) && bs[j].changes.province_buildings@[m].0 == q;
            if !(j == i && m == k) {
                assert(entry_seen(bs, date, i, k, j, m));
            }
        }
        assert forall|q: u32| seen_provinces(bs, date, i, k).contains(q) implies seen_provinces(bs, date, i, k + 1).contains(q) by {
            let (j, m) = choose|j: int, m: int| entry_seen(bs, date, i, k, j, m) && bs[j].changes.province_buildings@[m].0 == q;
            assert(entry_seen(bs, date, i, k + 1, j, m));
        }
    }
    assert forall|q: u32| #[trigger] seen_buildings(bs, date, i, k + 1, q) == (if q == pair.0 {
        seen_buildings(bs, date, i, k, q).union(building_names(pair.1@))
    } else {
        seen_buildings(bs, date, i, k, q)
    }) by {
        assert forall|t: Seq<char>| #[trigger] seen_buildings(bs, date, i, k + 1, q).contains(t) implies (if q == pair.0 {
            seen_buildings(bs, date, i, k, q).union(building_names(pair.1@))
        } else {
            seen_buildings(bs, date, i, k, q)
        }).contains(t) by {
            let (j, m) = choose|j: int, m: int| entry_seen(bs, date, i, k + 1, j, m) && bs[j].changes.province_buildings@[m].0 == q
                && building_names(bs[j].changes.province_buildings@[m].1@).contains(t);
            if !(j == i && m == k) {
                assert(entry_seen(bs, date, i, k, j, m));
            }
        }
        assert forall|t: Seq<char>| #[trigger] seen_buildings(bs, date, i, k, q).contains(t) implies seen_buildings(bs, date, i, k + 1, q).contains(t) by {
            let (j, m) = choose|j: int, m: int| entry_seen(bs, date, i, k, j, m) && bs[j].changes.province_buildings@[m].0 == q
                && building_names(bs[j].changes.province_buildings@[m].1@).contains(t);
            assert(entry_seen(bs, date, i, k + 1, j, m));
        }
        assert(seen_buildings(bs, date, i, k + 1, q) =~= (if q == pair.0 {
            seen_buildings(bs, date, i, k, q).union(building_names(pair.1@))
        } else {
            seen_buildings(bs, date, i, k, q)
        }));
    }
    assert forall|q: u32| !(#[trigger] seen_provinces(bs, date, i, k).contains(q)) implies seen_buildings(bs, date, i, k, q)
        == Set::<Seq<char>>::empty() by {
        assert forall|t: Seq<char>| !#[trigger] seen_buildings(bs, date, i, k, q).contains(t) by {
            if seen_buildings(bs, date, i, k, q).contains(t) {
                let (j, m) = choose|j: int, m: int| entry_seen(bs, date, i, k, j, m) && bs[j].changes.province_buildings@[m].0 == q
                    && building_names(bs[j].changes.province_buildings@[m].1@).contains(t);
                assert(seen_provinces(bs, date, i, k).contains(q));
            }
        }
        assert(seen_buildings(bs, date, i, k, q) =~= Set::<Seq<char>>::empty());
    }
}

proof fn lemma_seen_next_block(bs: Seq<DatedHistoryBlock>, date: Option<Hoi4Date>, i: int)
    requires
        0 <= i < bs.len(),
    ensures
        ({
            let k = if effective(bs[i], date) { bs[i].changes.province_buildings@.len() as int } else { 0 };
            &&& seen_provinces(bs, date, i + 1, 0) == seen_provinces(bs, date, i, k)
            &&& forall|q: u32| #[trigger] seen_buildings(bs, date, i + 1, 0, q) == seen_buildings(bs, date, i, k, q)
        }),
{
    let k = if effective(bs[i], date) { bs[i].changes.province_buildings@.len() as int } else { 0 };
    assert forall|j: int, m: int| #[trigger] entry_seen(bs, date, i + 1, 0, j, m) == entry_seen(bs, date, i, k, j, m) by {}
    assert forall|q: u32| seen_provinces(bs, date, i + 1, 0).contains(q) <==> seen_provinces(bs, date, i, k).contains(q) by {
        if seen_provinces(bs, date, i + 1, 0).contains(q) {
            let (j, m) = choose|j: int, m: int| entry_seen(bs, date, i + 1, 0, j, m) && bs[j].changes.province_buildings@[m].0 == q;
            assert(entry_seen(bs, date, i, k, j, m));
        }
        if seen_provinces(bs, date, i, k).contains(q) {
            let (j, m) = choose|j: int, m: int| entry_seen(bs, date, i, k, j, m) && bs[j].changes.province_buildings@[m].0 == q;
            assert(entry_seen(bs, date, i + 1, 0, j, m));
        }
    }
    assert(seen_provinces(bs, date, i + 1, 0) =~= seen_provinces(bs, date, i, k));
    assert forall|q: u32| #[trigger] seen_buildings(bs, date, i + 1, 0, q) == seen_buildings(bs, date, i, k, q) by {
        assert forall|t: Seq<char>| #[trigger] seen_buildings(bs, date, i + 1, 0, q).contains(t) <==> seen_buildings(bs, date, i, k, q).contains(t) by {
            if seen_buildings(bs, date, i + 1, 0, q).contains(t) {
                let (j, m) = choose|j: int, m: int| entry_seen(bs, date, i + 1, 0, j, m) && bs[j].changes.province_buildings@[m].0 == q
                    && building_names(bs[j].changes.province_buildings@[m].1@).contains(t);
                assert(entry_seen(bs, date, i, k, j, m));
            }
            if seen_buildings(bs, date, i, k, q).contains(t) {
                let (j, m) = choose|j: int, m: int| entry_seen(bs, date, i, k, j, m) && bs[j].changes.province_buildings@[m].0 == q
                    && building_names(bs[j].changes.province_buildings@[m].1@).contains(t);
                assert(entry_seen(bs, date, i + 1, 0, j, m));
            }
        }
        assert(seen_buildings(bs, date, i + 1, 0, q) =~= seen_buildings(bs, date, i, k, q));
    }
}

proof fn lemma_seen_all(bs: Seq<DatedHistoryBlock>, date: Option<Hoi4Date>)
    ensures
        seen_provinces(bs, date, bs.len() as int, 0) == dated_building_provinces(bs, date),
        forall|q: u32| #[trigger] seen_buildings(bs, date, bs.len() as int, 0, q) == dated_province_buildings(bs, date, q),
{
    let n = bs.len() as int;
    assert forall|q: u32| seen_provinces(bs, date, n, 0).contains(q) <==> dated_building_provinces(bs, date).contains(q) by {
        if seen_provinces(bs, date, n, 0).contains(q) {
            let (j, m) = choose|j: int, m: int| entry_seen(bs, date, n, 0, j, m) && bs[j].changes.province_buildings@[m].0 == q;
        }
        if dated_building_provinces(bs, date).contains(q) {
            let (j, m) = choose|j: int, m: int| 0 <= j < bs.len() && effective(bs[j], date) && 0 <= m
                < bs[j].changes.province_buildings@.len() && bs[j].changes.province_buildings@[m].0 == q;
            assert(entry_seen(bs, date, n, 0, j, m));
        }
    }
    assert(seen_provinces(bs, date, n, 0) =~= dated_building_provinces(bs, date));
    assert forall|q: u32| #[trigger] seen_buildings(bs, date, n, 0, q) == dated_province_buildings(bs, date, q) by {
        assert forall|t: Seq<char>| #[trigger] seen_buildings(bs, date, n, 0, q).contains(t) <==> dated_province_buildings(bs, date, q).contains(t) by {
            if seen_buildings(bs, date, n, 0, q).contains(t) {
                let (j, m) = choose|j: int, m: int| entry_seen(bs, date, n, 0, j, m) && bs[j].changes.province_buildings@[m].0 == q
                    && building_names(bs[j].changes.province_buildings@[m].1@).contains(t);
            }
            if dated_province_buildings(bs, date, q).contains(t) {
                let (j, m) = choose|j: int, m: int| 0 <= j < bs.len() && effective(bs[j], date) && 0 <= m
                    < bs[j].changes.province_buildings@.len() && bs[j].changes.province_buildings@[m].0 == q
                    && building_names(bs[j].changes.province_buildings@[m].1@).contains(t);
                assert(entry_seen(bs, date, n, 0, j, m));
            }
        }
        assert(seen_buildings(bs, date, n, 0, q) =~= dated_province_buildings(bs, date, q));
    }
}

/// Where a value of the effective history comes from.
#[derive(Debug, Clone, Copy, PartialEq, Eq, Structural)]
pub enum EffectiveHistoryOrigin {
    Direct,
    Dated(Hoi4Date),
    ImplicitOwner,
    Unresolved,
}

/// The history of a state as its file declares it: the values before any
/// dated block, the cores and claims it removes, and its dated blocks.
#[derive(Debug, Clone, Default)]
pub struct StateHistory {
    pub owner: Option<String>,
    pub controller: Option<String>,
    pub cores: Vec<String>,
    pub claims: Vec<String>,
    pub removed_cores: Vec<String>,
    pub removed_claims: Vec<String>,
    pub victory_points: Vec<VictoryPoint>,
    pub state_buildings: Vec<(String, i64)>,
    pub province_buildings: Vec<(u32, Vec<(String, i64)>)>,
    pub dated_blocks: Vec<DatedHistoryBlock>,
}

/// Building names with their levels, by text.
pub open spec fn levels_view(v: Seq<(String, i64)>) -> Seq<(Seq<char>, i64)> {
    v.map_values(|p: (String, i64)| (p.0@, p.1))
}

/// Buildings by province, by text.
pub open spec fn province_levels_view(v: Seq<(u32, Vec<(String, i64)>)>) -> Seq<(u32, Seq<(Seq<char>, i64)>)> {
    v.map_values(|p: (u32, Vec<(String, i64)>)| (p.0, levels_view(p.1@)))
}

/// The position of the first entry named `k`.
pub open spec fn first_named(s: Seq<(Seq<char>, i64)>, k: Seq<char>) -> Option<int>
    decreases s.len(),
{
    if s.len() == 0 {
        None
    } else if s[0].0 == k {
        Some(0)
    } else {
        match first_named(s.drop_first(), k) {
            Some(i) => Some(i + 1),
            None => None,
        }
    }
}

/// Sets the level of building `k`: the first entry with that name takes the
/// level, or a new entry is appended.
pub open spec fn set_level(s: Seq<(Seq<char>, i64)>, k: Seq<char>, level: i64) -> Seq<(Seq<char>, i64)> {
    match first_named(s, k) {
        Some(i) => s.update(i, (k, level)),
        None => s.push((k, level)),
    }
}

/// Sets each level of a list, in order.
pub open spec fn set_levels(s: Seq<(Seq<char>, i64)>, list: Seq<(Seq<char>, i64)>) -> Seq<(Seq<char>, i64)>
    decreases list.len(),
{
    if list.len() == 0 {
        s
    } else {
        let t = set_levels(s, list.drop_last());
        set_level(t, list.last().0, list.last().1)
    }
}

/// The position of the first entry of province `p`.
pub open spec fn first_province(s: Seq<(u32, Seq<(Seq<char>, i64)>)>, p: u32) -> Option<int>
    decreases s.len(),
{
    if s.len() == 0 {
        None
    } else if s[0].0 == p {
        Some(0)
    } else {
        match first_province(s.drop_first(), p) {
            Some(i) => Some(i + 1),
            None => None,
        }
    }
}

/// Sets the levels of province `p`'s buildings.
pub open spec fn set_province_levels(
    s: Seq<(u32, Seq<(Seq<char>, i64)>)>,
    p: u32,
    list: Seq<(Seq<char>, i64)>,
) -> Seq<(u32, Seq<(Seq<char>, i64)>)> {
    match first_province(s, p) {
        Some(i) => s.update(i, (p, set_levels(s[i].1, list))),
        None => s.push((p, set_levels(Seq::empty(), list))),
    }
}

/// Sets the buildings of each province of a list, in order.
pub open spec fn set_all_province_levels(
    s: Seq<(u32, Seq<(Seq<char>, i64)>)>,
    list: Seq<(u32, Seq<(Seq<char>, i64)>)>,
) -> Seq<(u32, Seq<(Seq<char>, i64)>)>
    decreases list.len(),
{
    if list.len() == 0 {
        s
    } else {
        let t = set_all_province_levels(s, list.drop_last());
        set_province_levels(t, list.last().0, list.last().1)
    }
}

/// Sets a victory point: the first point of its province takes its value,
/// or it is appended.
pub open spec fn set_point(s: Seq<VictoryPoint>, v: VictoryPoint) -> Seq<VictoryPoint> {
    match first_position_of(s, v.province_id) {
        Some(i) => s.update(i, v),
        None => s.push(v),
    }
}

/// Sets each victory point of a list, in order.
pub open spec fn set_points(s: Seq<VictoryPoint>, list: Seq<VictoryPoint>) -> Seq<VictoryPoint>
    decreases list.len(),
{
    if list.len() == 0 {
        s
    } else {
        set_point(set_points(s, list.drop_last()), list.last())
    }
}

proof fn lemma_first_named_bounds(s: Seq<(Seq<char>, i64)>, k: Seq<char>)
    ensures
        first_named(s, k) matches Some(i) ==> 0 <= i < s.len() && s[i].0 == k && forall|j: int| 0 <= j < i ==> s[j].0 != k,
        first_named(s, k) is None ==> forall|j: int| 0 <= j < s.len() ==> s[j].0 != k,
    decreases s.len(),
{
    if s.len() > 0 {
        lemma_first_named_bounds(s.drop_first(), k);
        assert forall|j: int| 0 < j < s.len() implies s[j] == s.drop_first()[j - 1] by {}
    }
}

proof fn lemma_first_named_is(s: Seq<(Seq<char>, i64)>, k: Seq<char>, i: int)
    requires
        0 <= i <= s.len(),
        forall|j: int| 0 <= j < i ==> s[j].0 != k,
        i < s.len() ==> s[i].0 == k,
    ensures
        first_named(s, k) == (if i < s.len() { Some(i) } else { None }),
    decreases i,
{
    if i > 0 {
        assert forall|j: int| 0 <= j < i - 1 implies s.drop_first()[j].0 != k by {
            assert(s.drop_first()[j] == s[j + 1]);
        }
        if i < s.len() {
            assert(s.drop_first()[i - 1] == s[i]);
        }
        lemma_first_named_is(s.drop_first(), k, i - 1);
    } else if s.len() > 0 {
    }
}

proof fn lemma_first_province_is(s: Seq<(u32, Seq<(Seq<char>, i64)>)>, p: u32, i: int)
    requires
        0 <= i <= s.len(),
        forall|j: int| 0 <= j < i ==> s[j].0 != p,
        i < s.len() ==> s[i].0 == p,
    ensures
        first_province(s, p) == (if i < s.len() { Some(i) } else { None }),
    decreases i,
{
    if i > 0 {
        assert forall|j: int| 0 <= j < i - 1 implies s.drop_first()[j].0 != p by {
            assert(s.drop_first()[j] == s[j + 1]);
        }
        if i < s.len() {
            assert(s.drop_first()[i - 1] == s[i]);
        }
        lemma_first_province_is(s.drop_first(), p, i - 1);
    }
}

proof fn lemma_first_point_is(s: Seq<VictoryPoint>, p: u32, i: int)
    requires
        0 <= i <= s.len(),
        forall|j: int| 0 <= j < i ==> s[j].province_id != p,
        i < s.len() ==> s[i].province_id == p,
    ensures
        first_position_of(s, p) == (if i < s.len() { Some(i) } else { None }),
    decreases i,
{
    if i > 0 {
        assert forall|j: int| 0 <= j < i - 1 implies s.drop_first()[j].province_id != p by {
            assert(s.drop_first()[j] == s[j + 1]);
        }
        if i < s.len() {
            assert(s.drop_first()[i - 1] == s[i]);
        }
        lemma_first_point_is(s.drop_first(), p, i - 1);
    }
}

/// Sets the level of building `name`.
fn set_level_exec(v: &mut Vec<(String, i64)>, name: &String, level: i64)
    ensures
        levels_view(final(v)@) == set_level(levels_view(old(v)@), name@, level),
{
    let ghost s = levels_view(v@);
    let mut i: usize = 0;
    while i < v.len()
        invariant
            i <= v@.len(),
            v@ == old(v)@,
            s == levels_view(v@),
            forall|j: int| 0 <= j < i ==> s[j].0 != name@,
        decreases v@.len() - i,
    {
        if same_text(v[i].0.as_str(), name.as_str()) {
            proof {
                lemma_first_named_is(s, name@, i as int);
            }
            v.set(i, (name.clone(), level));
            proof {
                assert(levels_view(v@) =~= s.update(i as int, (name@, level)));
            }
            return;
        }
        i = i + 1;
    }
    proof {
        lemma_first_named_is(s, name@, s.len() as int);
    }
    v.push((name.clone(), level));
    proof {
        assert(levels_view(v@) =~= s.push((name@, level)));
    }
}

/// Sets each level of a list.
fn set_levels_exec(v: &mut Vec<(String, i64)>, list: &Vec<(String, i64)>)
    ensures
        levels_view(final(v)@) == set_levels(levels_view(old(v)@), levels_view(list@)),
{
    let ghost s0 = levels_view(v@);
    let mut i: usize = 0;
    while i < list.len()
        invariant
            i <= list@.len(),
            levels_view(v@) == set_levels(s0, levels_view(list@.take(i as int))),
        decreases list@.len() - i,
    {
        set_level_exec(v, &list[i].0, list[i].1);
        proof {
            let l = levels_view(list@.take(i + 1));
            assert(l.drop_last() =~= levels_view(list@.take(i as int)));
            assert(l.last() == (list@[i as int].0@, list@[i as int].1));
        }
        i = i + 1;
    }
    proof {
        assert(list@.take(list@.len() as int) =~= list@);
    }
}

/// Sets the buildings of province `p`.
fn set_province_levels_exec(v: &mut Vec<(u32, Vec<(String, i64)>)>, p: u32, list: &Vec<(String, i64)>)
    ensures
        province_levels_view(final(v)@) == set_province_levels(province_levels_view(old(v)@), p, levels_view(list@)),
{
    let ghost s = province_levels_view(v@);
    let mut i: usize = 0;
    while i < v.len()
        invariant
            i <= v@.len(),
            v@ == old(v)@,
            s == province_levels_view(v@),
            forall|j: int| 0 <= j < i ==> s[j].0 != p,
        decreases v@.len() - i,
    {
        if v[i].0 == p {
            proof {
                lemma_first_province_is(s, p, i as int);
            }
            let mut entry = copy_levels(&v[i].1);
            set_levels_exec(&mut entry, list);
            v.set(i, (p, entry));
            proof {
                assert(province_levels_view(v@) =~= s.update(i as int, (p, set_levels(s[i as int].1, levels_view(list@)))));
            }
            return;
        }
        i = i + 1;
    }
    proof {
        lemma_first_province_is(s, p, s.len() as int);
    }
    let mut entry: Vec<(String, i64)> = Vec::new();
    proof {
        assert(levels_view(entry@) =~= Seq::<(Seq<char>, i64)>::empty());
    }
    set_levels_exec(&mut entry, list);
    v.push((p, entry));
    proof {
        assert(province_levels_view(v@) =~= s.push((p, set_levels(Seq::empty(), levels_view(list@)))));
    }
}

fn copy_levels(v: &Vec<(String, i64)>) -> (r: Vec<(String, i64)>)
    ensures
        levels_view(r@) == levels_view(v@),
{
    let mut out: Vec<(String, i64)> = Vec::new();
    let mut i: usize = 0;
    while i < v.len()
        invariant
            i <= v@.len(),
            out@.len() == i,
            levels_view(out@) == levels_view(v@.take(i as int)),
        decreases v@.len() - i,
    {
        let name = v[i].0.clone();
        let ghost o0 = out@;
        out.push((name, v[i].1));
        proof {
            assert(out@[i as int].0@ == v@[i as int].0@ && out@[i as int].1 == v@[i as int].1);
            assert forall|j: int| 0 <= j < i implies out@[j] == o0[j] by {}
            assert(levels_view(out@) =~= levels_view(v@.take(i + 1))) by {
                assert forall|j: int| 0 <= j < i + 1 implies #[trigger] levels_view(out@)[j] == levels_view(v@.take(i + 1))[j] by {
                    if j < i {
                        assert(levels_view(o0)[j] == levels_view(v@.take(i as int))[j]);
                    }
                }
            }
        }
        i = i + 1;
    }
    proof {
        assert(v@.take(v@.len() as int) =~= v@);
    }
    out
}

/// Sets the buildings of each province of a list.
fn set_all_province_levels_exec(v: &mut Vec<(u32, Vec<(String, i64)>)>, list: &Vec<(u32, Vec<(String, i64)>)>)
    ensures
        province_levels_view(final(v)@) == set_all_province_levels(province_levels_view(old(v)@), province_levels_view(list@)),
{
    let ghost s0 = province_levels_view(v@);
    let mut i: usize = 0;
    while i < list.len()
        invariant
            i <= list@.len(),
            province_levels_view(v@) == set_all_province_levels(s0, province_levels_view(list@.take(i as int))),
        decreases list@.len() - i,
    {
        set_province_levels_exec(v, list[i].0, &list[i].1);
        proof {
            let l = province_levels_view(list@.take(i + 1));
            assert(l.drop_last() =~= province_levels_view(list@.take(i as int)));
            assert(l.last() == (list@[i as int].0, levels_view(list@[i as int].1@)));
        }
        i = i + 1;
    }
    proof {
        assert(list@.take(list@.len() as int) =~= list@);
    }
}

/// Sets a victory point.
fn set_point_exec(v: &mut Vec<VictoryPoint>, point: VictoryPoint)
    ensures
        final(v)@ == set_point(old(v)@, point),
{
    let mut i: usize = 0;
    while i < v.len()
        invariant
            i <= v@.len(),
            v@ == old(v)@,
            forall|j: int| 0 <= j < i ==> v@[j].province_id != point.province_id,
        decreases v@.len() - i,
    {
        if v[i].province_id == point.province_id {
            proof {
                lemma_first_point_is(v@, point.province_id, i as int);
            }
            v.set(i, point);
            return;
        }
        i = i + 1;
    }
    proof {
        lemma_first_point_is(v@, point.province_id, v@.len() as int);
    }
    v.push(point);
}

/// Sets each victory point of a list.
fn set_points_exec(v: &mut Vec<VictoryPoint>, list: &Vec<VictoryPoint>)
    ensures
        final(v)@ == set_points(old(v)@, list@),
{
    let mut i: usize = 0;
    while i < list.len()
        invariant
            i <= list@.len(),
            v@ == set_points(old(v)@, list@.take(i as int)),
        decreases list@.len() - i,
    {
        set_point_exec(v, list[i]);
        proof {
            assert(list@.take(i + 1).drop_last() =~= list@.take(i as int));
        }
        i = i + 1;
    }
    proof {
        assert(list@.take(list@.len() as int) =~= list@);
    }
}

/// Keeps the names that the list does not hold, each once.
fn without_names(v: &Vec<String>, list: &Vec<String>) -> (r: Vec<String>)
    ensures
        distinct_names(r@),
        names(r@) == names(v@).difference(names(list@)),
{
    let mut out: Vec<String> = Vec::new();
    let mut i: usize = 0;
    proof {
        assert(names(out@) =~= names(v@.take(0)).difference(names(list@)));
    }
    while i < v.len()
        invariant
            i <= v@.len(),
            distinct_names(out@),
            names(out@) == names(v@.take(i as int)).difference(names(list@)),
        decreases v@.len() - i,
    {
        let mut listed = false;
        let mut k: usize = 0;
        while k < list.len()
            invariant
                i < v@.len(),
                k <= list@.len(),
                listed == exists|j: int| 0 <= j < k && list@[j]@ == v@[i as int]@,
            decreases list@.len() - k,
        {
            if same_text(list[k].as_str(), v[i].as_str()) {
                listed = true;
            }
            k = k + 1;
        }
        let ghost o0 = out@;
        if !listed {
            add_name(&mut out, &v[i]);
        }
        proof {
            let a = v@.take(i as int);
            let b = v@.take(i + 1);
            assert(names(b) =~= names(a).insert(v@[i as int]@)) by {
                assert forall|t: Seq<char>| names(b).contains(t) implies names(a).insert(v@[i as int]@).contains(t) by {
                    let j = choose|j: int| 0 <= j < b.len() && #[trigger] b[j]@ == t;
                    if j < i {
                        assert(a[j] == b[j]);
                    }
                }
                assert forall|t: Seq<char>| names(a).contains(t) implies names(b).contains(t) by {
                    let j = choose|j: int| 0 <= j < a.len() && #[trigger] a[j]@ == t;
                    assert(b[j] == a[j]);
                }
                assert(b[i as int] == v@[i as int]);
            }
            assert(listed == names(list@).contains(v@[i as int]@));
            assert(names(out@) =~= names(b).difference(names(list@)));
        }
        i = i + 1;
    }
    proof {
        assert(v@.take(v@.len() as int) =~= v@);
    }
    out
}

/// The history values that matter to the editor, by text.
pub struct HistoryView {
    pub owner: Option<Seq<char>>,
    pub controller: Option<Seq<char>>,
    pub owner_origin: EffectiveHistoryOrigin,
    pub controller_origin: EffectiveHistoryOrigin,
    pub cores: Set<Seq<char>>,
    pub claims: Set<Seq<char>>,
    pub points: Seq<VictoryPoint>,
    pub state_buildings: Seq<(Seq<char>, i64)>,
    pub province_buildings: Seq<(u32, Seq<(Seq<char>, i64)>)>,
}

/// The declared values, before any dated block: the owner and controller
/// as declared (from the file, or unresolved), and the cores and claims
/// without those the file removes.
pub open spec fn declared_view(d: StateHistory) -> HistoryView {
    HistoryView {
        owner: opt_str_view(d.owner),
        controller: opt_str_view(d.controller),
        owner_origin: if d.owner is Some { EffectiveHistoryOrigin::Direct } else { EffectiveHistoryOrigin::Unresolved },
        controller_origin: if d.controller is Some {
            EffectiveHistoryOrigin::Direct
        } else {
            EffectiveHistoryOrigin::Unresolved
        },
        cores: names(d.cores@).difference(names(d.removed_cores@)),
        claims: names(d.claims@).difference(names(d.removed_claims@)),
        points: d.victory_points@,
        state_buildings: levels_view(d.state_buildings@),
        province_buildings: province_levels_view(d.province_buildings@),
    }
}

/// The values after a dated block: an owner or controller it sets replaces
/// the one before and dates it; cores and claims it removes go before those
/// it adds come in; its victory points and building levels are set.
pub open spec fn apply_block(h: HistoryView, b: DatedHistoryBlock) -> HistoryView {
    let c = b.changes;
    HistoryView {
        owner: if c.owner is Some { opt_str_view(c.owner) } else { h.owner },
        controller: if c.controller is Some { opt_str_view(c.controller) } else { h.controller },
        owner_origin: if c.owner is Some { EffectiveHistoryOrigin::Dated(b.date) } else { h.owner_origin },
        controller_origin: if c.controller is Some { EffectiveHistoryOrigin::Dated(b.date) } else { h.controller_origin },
        cores: h.cores.difference(names(c.removed_cores@)).union(names(c.added_cores@)),
        claims: h.claims.difference(names(c.removed_claims@)).union(names(c.added_claims@)),
        points: set_points(h.points, c.victory_points@),
        state_buildings: set_levels(h.state_buildings, levels_view(c.state_buildings@)),
        province_buildings: set_all_province_levels(h.province_buildings, province_levels_view(c.province_buildings@)),
    }
}

/// The values after the blocks at the given positions, in that order.
pub open spec fn apply_blocks(h: HistoryView, bs: Seq<DatedHistoryBlock>, order: Seq<u64>) -> HistoryView
    decreases order.len(),
{
    if order.len() == 0 {
        h
    } else {
        apply_block(apply_blocks(h, bs, order.drop_last()), bs[order.last() as int])
    }
}

/// A block's place in time, then its position.
pub open spec fn block_key(bs: Seq<DatedHistoryBlock>) -> spec_fn(u64) -> Seq<u64> {
    |i: u64| seq![
        (bs[i as int].date.year as int + 2147483648) as u64,
        bs[i as int].date.month as u64,
        bs[i as int].date.day as u64,
        bs[i as int].date.hour as u64,
        i,
    ]
}

/// The positions of the blocks that take effect by `d`, in order.
pub open spec fn effective_positions(bs: Seq<DatedHistoryBlock>, d: Hoi4Date) -> Seq<u64> {
    Seq::new(bs.len(), |i: int| i as u64).filter(|i: u64| date_le(bs[i as int].date, d))
}

/// The blocks that take effect by `d`, ordered by date, blocks of one date
/// in their order in the file.
pub open spec fn date_order(bs: Seq<DatedHistoryBlock>, d: Hoi4Date) -> Seq<u64> {
    choose|r: Seq<u64>| sorted_by(r, key_le(block_key(bs))) && r.to_multiset() == effective_positions(bs, d).to_multiset()
}

/// The history in effect at the date: without a date, the declared values.
pub open spec fn resolved_view(d: StateHistory, date: Option<Hoi4Date>) -> HistoryView {
    match date {
        Some(x) => apply_blocks(declared_view(d), d.dated_blocks@, date_order(d.dated_blocks@, x)),
        None => declared_view(d),
    }
}

/// The history of a state in effect at the initial bookmark.
#[derive(Debug, Clone)]
pub struct EffectiveStateHistory {
    pub owner: Option<String>,
    pub controller: Option<String>,
    pub cores: Vec<String>,
    pub claims: Vec<String>,
    pub victory_points: Vec<VictoryPoint>,
    pub state_buildings: Vec<(String, i64)>,
    pub province_buildings: Vec<(u32, Vec<(String, i64)>)>,
    pub owner_origin: EffectiveHistoryOrigin,
    pub controller_origin: EffectiveHistoryOrigin,
    /// The controller to show: the one in effect, or else the owner.
    pub controller_value: Option<String>,
}

/// The effective history matches the view.
pub open spec fn shows(r: EffectiveStateHistory, h: HistoryView) -> bool {
    &&& opt_str_view(r.owner) == h.owner
    &&& opt_str_view(r.controller) == h.controller
    &&& names(r.cores@) == h.cores
    &&& distinct_names(r.cores@)
    &&& names(r.claims@) == h.claims
    &&& distinct_names(r.claims@)
    &&& r.victory_points@ == h.points
    &&& levels_view(r.state_buildings@) == h.state_buildings
    &&& province_levels_view(r.province_buildings@) == h.province_buildings
    &&& r.owner_origin == h.owner_origin
}

fn copy_province_levels(v: &Vec<(u32, Vec<(String, i64)>)>) -> (r: Vec<(u32, Vec<(String, i64)>)>)
    ensures
        province_levels_view(r@) == province_levels_view(v@),
{
    let mut out: Vec<(u32, Vec<(String, i64)>)> = Vec::new();
    let mut i: usize = 0;
    while i < v.len()
        invariant
            i <= v@.len(),
            out@.len() == i,
            province_levels_view(out@) == province_levels_view(v@.take(i as int)),
        decreases v@.len() - i,
    {
        let entry = copy_levels(&v[i].1);
        let ghost o0 = out@;
        out.push((v[i].0, entry));
        proof {
            assert(province_levels_view(out@) =~= province_levels_view(v@.take(i + 1))) by {
                assert forall|j: int| 0 <= j < i + 1 implies #[trigger] province_levels_view(out@)[j]
                    == province_levels_view(v@.take(i + 1))[j] by {
                    if j < i {
                        assert(out@[j] == o0[j]);
                        assert(province_levels_view(o0)[j] == province_levels_view(v@.take(i as int))[j]);
                    }
                }
            }
        }
        i = i + 1;
    }
    proof {
        assert(v@.take(v@.len() as int) =~= v@);
    }
    out
}

fn apply_block_exec(r: &mut EffectiveStateHistory, b: &DatedHistoryBlock, Ghost(h): Ghost<HistoryView>)
    requires
        shows(*old(r), h),
        old(r).controller_origin == h.controller_origin,
    ensures
        shows(*final(r), apply_block(h, *b)),
        final(r).controller_origin == apply_block(h, *b).controller_origin,
{
    let c = &b.changes;
    if c.owner.is_some() {
        r.owner = clone_opt_str(&c.owner);
        r.owner_origin = EffectiveHistoryOrigin::Dated(b.date);
    }
    if c.controller.is_some() {
        r.controller = clone_opt_str(&c.controller);
        r.controller_origin = EffectiveHistoryOrigin::Dated(b.date);
    }
    let mut cores = without_names(&r.cores, &c.removed_cores);
    add_names(&mut cores, &c.added_cores);
    r.cores = cores;
    let mut claims = without_names(&r.claims, &c.removed_claims);
    add_names(&mut claims, &c.added_claims);
    r.claims = claims;
    set_points_exec(&mut r.victory_points, &c.victory_points);
    set_levels_exec(&mut r.state_buildings, &c.state_buildings);
    set_all_province_levels_exec(&mut r.province_buildings, &c.province_buildings);
}

proof fn lemma_block_key_injective(bs: Seq<DatedHistoryBlock>, r: Seq<u64>)
    ensures
        key_injective_on(r, block_key(bs)),
{
    assert forall|a: u64, b: u64| r.contains(a) && r.contains(b) && block_key(bs)(a) == block_key(bs)(b) implies a == b by {
        assert(block_key(bs)(a)[4] == a);
        assert(block_key(bs)(b)[4] == b);
    }
}

/// The history in effect at the date. With a date, the dated blocks that
/// take effect by it are applied in date order (blocks of one date in their
/// order in the file); without one, only the declared values count. Where
/// no controller is in effect, the owner is shown as controller.
pub fn effective_state_history(data: &StateHistory, effective_date: Option<Hoi4Date>) -> (r: EffectiveStateHistory)
    ensures
        shows(r, resolved_view(*data, effective_date)),
        r.controller_origin == (if resolved_view(*data, effective_date).controller is None
            && resolved_view(*data, effective_date).owner is Some {
            EffectiveHistoryOrigin::ImplicitOwner
        } else {
            resolved_view(*data, effective_date).controller_origin
        }),
        opt_str_view(r.controller_value) == (match resolved_view(*data, effective_date).controller {
            Some(c) => Some(c),
            None => resolved_view(*data, effective_date).owner,
        }),
{
    let ghost h0 = declared_view(*data);
    let mut r = EffectiveStateHistory {
        owner: clone_opt_str(&data.owner),
        controller: clone_opt_str(&data.controller),
        cores: without_names(&data.cores, &data.removed_cores),
        claims: without_names(&data.claims, &data.removed_claims),
        victory_points: copy_points(&data.victory_points),
        state_buildings: copy_levels(&data.state_buildings),
        province_buildings: copy_province_levels(&data.province_buildings),
        owner_origin: if data.owner.is_some() { EffectiveHistoryOrigin::Direct } else { EffectiveHistoryOrigin::Unresolved },
        controller_origin: if data.controller.is_some() {
            EffectiveHistoryOrigin::Direct
        } else {
            EffectiveHistoryOrigin::Unresolved
        },
        controller_value: None,
    };
    let ghost mut h = h0;
    if let Some(d) = effective_date {
        let bs = &data.dated_blocks;
        let ghost key = block_key(bs@);
        let mut items: Vec<u64> = Vec::new();
        let mut keys: Vec<Vec<u64>> = Vec::new();
        let mut i: usize = 0;
        while i < bs.len()
            invariant
                i <= bs@.len(),
                key == block_key(bs@),
                items@.len() == keys@.len(),
                items@ == Seq::new(i as nat, |k: int| k as u64).filter(|k: u64| date_le(bs@[k as int].date, d)),
                forall|k: int| 0 <= k < items@.len() ==> (#[trigger] keys@[k])@ == key(items@[k]@),
                forall|k: int| 0 <= k < items@.len() ==> #[trigger] items@[k] < i,
            decreases bs@.len() - i,
        {
            let ghost all0 = Seq::new(i as nat, |k: int| k as u64);
            let ghost all1 = Seq::new((i + 1) as nat, |k: int| k as u64);
            proof {
                assert(all1.drop_last() =~= all0);
                assert(all1.last() == i as u64);
                reveal(Seq::filter);
            }
            if bs[i].date.not_after(d) {
                let date = bs[i].date;
                let mut k: Vec<u64> = Vec::new();
                k.push((date.year as i64 + 2147483648i64) as u64);
                k.push(date.month as u64);
                k.push(date.day as u64);
                k.push(date.hour as u64);
                k.push(i as u64);
                proof {
                    assert(k@ =~= key(i as u64));
                }
                items.push(i as u64);
                keys.push(k);
            }
            i = i + 1;
        }
        proof {
            assert(Seq::new(bs@.len(), |k: int| k as u64) =~= Seq::new(i as nat, |k: int| k as u64));
            assert(items@ == effective_positions(bs@, d));
            assert(views(items@) =~= items@);
        }
        let order = sort_by_keys(items, keys, Ghost(key));
        proof {
            broadcast use vstd::seq_lib::group_to_multiset_ensures;
            assert(views(order@) =~= order@);
            let chosen = date_order(bs@, d);
            assert(sorted_by(chosen, key_le(key)) && chosen.to_multiset() == effective_positions(bs@, d).to_multiset());
            lemma_block_key_injective(bs@, order@);
            lemma_sorted_by_key_unique(order@, chosen, key);
            assert forall|k: int| 0 <= k < order@.len() implies #[trigger] order@[k] < bs@.len() by {
                assert(order@.to_multiset().count(order@[k]) > 0);
                assert(items@.contains(order@[k]));
            }
        }
        let mut j: usize = 0;
        while j < order.len()
            invariant
                j <= order@.len(),
                order@ == date_order(bs@, d),
                h0 == declared_view(*data),
                bs == &data.dated_blocks,
                forall|k: int| 0 <= k < order@.len() ==> #[trigger] order@[k] < bs@.len(),
                shows(r, apply_blocks(h0, bs@, order@.take(j as int))),
                r.controller_origin == apply_blocks(h0, bs@, order@.take(j as int)).controller_origin,
            decreases order@.len() - j,
        {
            let ghost before = apply_blocks(h0, bs@, order@.take(j as int));
            let n: usize = bs.len();
            let raw: u64 = order[j];
            proof {
                assert(raw < n);
            }
            let position = raw as usize;
            apply_block_exec(&mut r, &bs[position], Ghost(before));
            proof {
                let t = order@.take(j + 1);
                assert(t.drop_last() =~= order@.take(j as int));
                assert(t.last() == order@[j as int]);
                assert(apply_blocks(h0, bs@, t) == apply_block(apply_blocks(h0, bs@, t.drop_last()), bs@[t.last() as int]));
                assert(position as int == order@[j as int] as int);
            }
            j = j + 1;
        }
        proof {
            assert(order@.take(order@.len() as int) =~= order@);
            h = apply_blocks(h0, bs@, order@);
        }
    }
    proof {
        assert(h == resolved_view(*data, effective_date));
        assert(shows(r, h));
    }
    let ghost fin = resolved_view(*data, effective_date);
    if r.controller.is_some() {
        r.controller_value = clone_opt_str(&r.controller);
        proof {
            assert(fin.controller == opt_str_view(r.controller));
            assert(fin.controller is Some);
        }
    } else if r.owner.is_some() {
        r.controller_origin = EffectiveHistoryOrigin::ImplicitOwner;
        r.controller_value = clone_opt_str(&r.owner);
        proof {
            assert(fin.controller is None);
            assert(fin.owner == opt_str_view(r.owner));
        }
    } else {
        r.controller_value = None;
        proof {
            assert(fin.controller is None && fin.owner is None);
        }
    }
    r
}

/// The position of the earliest date of a list, the first one where several
/// are earliest.
pub open spec fn is_earliest(dates: Seq<Hoi4Date>, i: int) -> bool {
    &&& 0 <= i < dates.len()
    &&& forall|k: int| 0 <= k < dates.len() ==> date_le(dates[i], #[trigger] dates[k])
    &&& forall|k: int| 0 <= k < i ==> !date_le(#[trigger] dates[k], dates[i])
}

/// Where the earliest of the bookmark dates stands, if there is any: the
/// initial bookmark is the earliest one found, the first found among equals.
pub fn earliest_date(dates: &Vec<Hoi4Date>) -> (r: Option<usize>)
    ensures
        r is None <==> dates@.len() == 0,
        r matches Some(i) ==> is_earliest(dates@, i as int),
{
    if dates.len() == 0 {
        return None;
    }
    let mut best: usize = 0;
    let mut i: usize = 1;
    while i < dates.len()
        invariant
            1 <= i <= dates@.len(),
            best < i,
            forall|k: int| 0 <= k < i ==> date_le(dates@[best as int], #[trigger] dates@[k]),
            forall|k: int| 0 <= k < best ==> !date_le(#[trigger] dates@[k], dates@[best as int]),
        decreases dates@.len() - i,
    {
        if !dates[best].not_after(dates[i]) {
            proof {
                lemma_date_order(dates@[best as int], dates@[i as int]);
                assert forall|k: int| 0 <= k < i + 1 implies date_le(dates@[i as int], #[trigger] dates@[k]) by {
                    if k < i {
                        lemma_date_le_transitive(dates@[i as int], dates@[best as int], dates@[k]);
                    }
                }
                assert forall|k: int| 0 <= k < i implies !date_le(#[trigger] dates@[k], dates@[i as int]) by {
                    if date_le(dates@[k], dates@[i as int]) {
                        lemma_date_le_transitive(dates@[best as int], dates@[k], dates@[i as int]);
                    }
                }
            }
            best = i;
        }
        i = i + 1;
    }
    Some(best)
}

proof fn lemma_date_order(a: Hoi4Date, b: Hoi4Date)
    ensures
        date_le(a, b) || date_le(b, a),
        date_le(a, b) && date_le(b, a) ==> a == b,
{
}

proof fn lemma_date_le_transitive(a: Hoi4Date, b: Hoi4Date, c: Hoi4Date)
    requires
        date_le(a, b),
        date_le(b, c),
    ensures
        date_le(a, c),
{
}

/// A block that has not taken effect by the bookmark changes nothing that
/// the dated blocks are said to affect; one that has, and sets the owner,
/// makes the owner dated; the cores a block adds or removes always count
/// when there is no bookmark.
pub proof fn lemma_history_impact_laws(bs: Seq<DatedHistoryBlock>, b: DatedHistoryBlock, d: Option<Hoi4Date>)
    ensures
        !effective(b, d) ==> {
            &&& owner_dated(bs.push(b), d) == owner_dated(bs, d)
            &&& controller_dated(bs.push(b), d) == controller_dated(bs, d)
            &&& dated_cores(bs.push(b), d) == dated_cores(bs, d)
            &&& dated_claims(bs.push(b), d) == dated_claims(bs, d)
            &&& dated_points(bs.push(b), d) == dated_points(bs, d)
            &&& dated_state_buildings(bs.push(b), d) == dated_state_buildings(bs, d)
        },
        effective(b, d) && b.changes.owner is Some ==> owner_dated(bs.push(b), d),
        effective(b, d) && b.changes.controller is Some ==> controller_dated(bs.push(b), d),
        names(b.changes.added_cores@).subset_of(dated_cores(bs.push(b), None)),
        names(b.changes.removed_claims@).subset_of(dated_claims(bs.push(b), None)),
{
    let all = bs.push(b);
    assert(all.take(bs.len() as int) =~= bs);
    assert(all.take(bs.len() as int + 1) =~= all);
    assert(all[bs.len() as int] == b);
    lemma_prefix_step(all, d, bs.len() as int);
    lemma_prefix_step(all, None, bs.len() as int);
}

/// Without a bookmark, or when no dated block has taken effect by it, the
/// history in effect is the declared one.
pub proof fn lemma_history_without_effective_blocks(data: StateHistory, d: Hoi4Date)
    ensures
        resolved_view(data, None) == declared_view(data),
        (forall|i: int| 0 <= i < data.dated_blocks@.len() ==> !date_le((#[trigger] data.dated_blocks@[i]).date, d))
            ==> resolved_view(data, Some(d)) == declared_view(data),
{
    broadcast use vstd::seq_lib::group_to_multiset_ensures;

    let bs = data.dated_blocks@;
    if forall|i: int| 0 <= i < bs.len() ==> !date_le((#[trigger] bs[i]).date, d) {
        let all = Seq::new(bs.len(), |i: int| i as u64);
        let f = |i: u64| date_le(bs[i as int].date, d);
        all.filter_lemma(f);
        if all.filter(f).len() > 0 {
            let x = all.filter(f)[0];
            assert(f(x));
            assert(all.filter(f).contains(x));
            all.lemma_filter_contains_rev(f, x);
            assert(all.contains(x));
            let j = choose|j: int| 0 <= j < all.len() && all[j] == x;
            assert(all[j] == j as u64);
            assert(!date_le(bs[j].date, d));
        }
        assert(effective_positions(bs, d).len() == 0);
        assert(effective_positions(bs, d) =~= Seq::<u64>::empty());
        let chosen = date_order(bs, d);
        let witness = Seq::<u64>::empty();
        assert(sorted_by(witness, key_le(block_key(bs))));
        assert(witness.to_multiset() =~= effective_positions(bs, d).to_multiset());
        assert(chosen.to_multiset().len() == 0);
        assert(chosen.len() == 0);
    }
}

} // verus!
