//! The territory of a country on the map: which owned land provinces are
//! joined by borders, and the connected part with the most pixels, where
//! its label goes.
use vstd::prelude::*;
use ahash::{AHashMap, AHashSet};
use std::collections::BTreeMap;
use std::collections::BTreeSet;
use crate::ascending::{ascending_of, ascending_unique, lemma_ascending_unique, strictly_ascending};
use crate::collections::set_items;

verus! {

broadcast use vstd::std_specs::btree::group_btree_axioms;

#[verifier::external_type_specification]
#[verifier::external_body]
#[verifier::reject_recursive_types(T)]
#[verifier::reject_recursive_types(S)]
pub struct ExAHashSet<T, S>(AHashSet<T, S>);

/// For each province, the provinces it borders.
pub type NeighborMap = AHashMap<u32, AHashSet<u32>>;

/// The provinces each province borders, as sets.
pub uninterp spec fn neighbor_entries(m: NeighborMap) -> Map<u32, Set<u32>>;

/// `AHashMap::new`: no province has neighbors yet.
#[verifier::external_body]
fn new_neighbor_map() -> (m: NeighborMap)
    ensures
        neighbor_entries(m).dom().is_empty(),
{
    AHashMap::new()
}

/// The entry API of `AHashMap` with `AHashSet::default` and
/// `AHashSet::insert`: the set of `a`, created empty where it is missing,
/// gains `b`.
#[verifier::external_body]
fn add_neighbor(m: &mut NeighborMap, a: u32, b: u32)
    ensures
        neighbor_entries(*final(m)) == neighbor_entries(*old(m)).insert(a, neighbors_in(neighbor_entries(*old(m)), a).insert(b)),
{
    m.entry(a).or_default().insert(b);
}

/// `AHashMap::get` and the iteration of the `AHashSet` found: the
/// neighbors of `p`, each once, in the order the set gives them.
#[verifier::external_body]
fn neighbors_of(m: &NeighborMap, p: u32) -> (r: Vec<u32>)
    ensures
        r@.to_set() == neighbors_in(neighbor_entries(*m), p),
        r@.no_duplicates(),
{
    match m.get(&p) {
        Some(set) => set.iter().copied().collect(),
        None => Vec::new(),
    }
}

/// The neighbors that `adj` gives `p`: none where it has no entry.
pub open spec fn neighbors_in(adj: Map<u32, Set<u32>>, p: u32) -> Set<u32> {
    if adj.contains_key(p) {
        adj[p]
    } else {
        Set::empty()
    }
}

/// Whether `a` borders `b`.
pub open spec fn linked(adj: Map<u32, Set<u32>>, a: u32, b: u32) -> bool {
    neighbors_in(adj, a).contains(b)
}

/// What the territory logic reads of a province: its id, whether it is
/// land, and its size in pixels.
#[derive(Debug, Clone, Copy, PartialEq, Eq, Structural)]
pub struct TerritoryProvince {
    pub id: u32,
    pub is_land: bool,
    pub pixel_count: u64,
}

/// The provinces by id, where a later entry for an id replaces an earlier.
pub open spec fn provinces_by_id_of(provinces: Seq<TerritoryProvince>) -> Map<u32, TerritoryProvince>
    decreases provinces.len(),
{
    if provinces.len() == 0 {
        Map::empty()
    } else {
        provinces_by_id_of(provinces.drop_last()).insert(provinces.last().id, provinces.last())
    }
}

/// Whether a pair of the border list joins `a` and `b`, two different
/// provinces, in either order.
pub open spec fn paired(pairs: Seq<(u32, u32)>, a: u32, b: u32) -> bool {
    a != b && exists|i: int| 0 <= i < pairs.len() && (#[trigger] pairs[i] == (a, b) || pairs[i] == (b, a))
}

/// The provinces and borders that territories are built from.
pub struct TerritoryAnchorIndex {
    provinces_by_id: BTreeMap<u32, TerritoryProvince>,
    neighbors: NeighborMap,
}

impl TerritoryAnchorIndex {
    /// The borders, province by province.
    pub closed spec fn adjacency(&self) -> Map<u32, Set<u32>> {
        neighbor_entries(self.neighbors)
    }

    /// The provinces by id.
    pub closed spec fn provinces(&self) -> Map<u32, TerritoryProvince> {
        self.provinces_by_id@
    }

    /// Borders go both ways, and no province borders itself.
    pub open spec fn wf(&self) -> bool {
        &&& forall|a: u32, b: u32| #[trigger] linked(self.adjacency(), a, b) ==> linked(self.adjacency(), b, a)
        &&& forall|a: u32| !linked(self.adjacency(), a, a)
    }

    /// Indexes the provinces by id and the border pairs both ways; a pair
    /// of a province with itself is left out.
    pub fn new(provinces: &Vec<TerritoryProvince>, adjacency_pairs: &Vec<(u32, u32)>) -> (r: Self)
        ensures
            r.wf(),
            r.provinces() == provinces_by_id_of(provinces@),
            forall|a: u32, b: u32| #[trigger] linked(r.adjacency(), a, b) == paired(adjacency_pairs@, a, b),
    {
        let mut by_id: BTreeMap<u32, TerritoryProvince> = BTreeMap::new();
        let mut i: usize = 0;
        proof {
            assert(provinces@.take(0) =~= Seq::<TerritoryProvince>::empty());
        }
        while i < provinces.len()
            invariant
                i <= provinces@.len(),
                by_id@ == provinces_by_id_of(provinces@.take(i as int)),
            decreases provinces.len() - i,
        {
            let p = provinces[i];
            by_id.insert(p.id, p);
            proof {
                assert(provinces@.take(i + 1).drop_last() =~= provinces@.take(i as int));
            }
            i = i + 1;
        }
        proof {
            assert(provinces@.take(provinces@.len() as int) =~= provinces@);
        }
        let mut neighbors = new_neighbor_map();
        let mut k: usize = 0;
        while k < adjacency_pairs.len()
            invariant
                k <= adjacency_pairs@.len(),
                forall|a: u32, b: u32| #[trigger] linked(neighbor_entries(neighbors), a, b) == paired(
                    adjacency_pairs@.take(k as int),
                    a,
                    b,
                ),
            decreases adjacency_pairs.len() - k,
        {
            let (left, right) = adjacency_pairs[k];
            let ghost before = neighbor_entries(neighbors);
            if left != right {
                add_neighbor(&mut neighbors, left, right);
                add_neighbor(&mut neighbors, right, left);
            }
            proof {
                let t0 = adjacency_pairs@.take(k as int);
                let t1 = adjacency_pairs@.take(k + 1);
                assert forall|a: u32, b: u32| #[trigger] linked(neighbor_entries(neighbors), a, b) == paired(
                    t1,
                    a,
                    b,
                ) by {
                    assert(t1[k as int] == (left, right));
                    if paired(t0, a, b) {
                        let j = choose|j: int| 0 <= j < t0.len() && (#[trigger] t0[j] == (a, b) || t0[j]
                            == (b, a));
                        assert(t1[j] == t0[j]);
                    }
                    if paired(t1, a, b) {
                        let j = choose|j: int| 0 <= j < t1.len() && (#[trigger] t1[j] == (a, b) || t1[j]
                            == (b, a));
                        if j < k {
                            assert(t0[j] == t1[j]);
                        }
                    }
                    assert(linked(before, a, b) == paired(t0, a, b));
                }
            }
            k = k + 1;
        }
        proof {
            assert(adjacency_pairs@.take(adjacency_pairs@.len() as int) =~= adjacency_pairs@);
        }
        TerritoryAnchorIndex { provinces_by_id: by_id, neighbors }
    }
}

// ---------------------------------------------------------------------------
// Connected territory
// ---------------------------------------------------------------------------

/// The `i`-th step of a walk crosses a border.
pub open spec fn step(adj: Map<u32, Set<u32>>, p: Seq<u32>, i: int) -> bool {
    linked(adj, p[i], p[i + 1])
}

/// A walk through provinces of `owned`, each bordering the next.
pub open spec fn is_walk(adj: Map<u32, Set<u32>>, owned: Set<u32>, p: Seq<u32>) -> bool {
    &&& p.len() >= 1
    &&& forall|i: int| 0 <= i < p.len() ==> owned.contains(#[trigger] p[i])
    &&& forall|i: int| 0 <= i < p.len() - 1 ==> #[trigger] step(adj, p, i)
}

/// Whether a walk through `owned` leads from `a` to `b`.
pub open spec fn connected(adj: Map<u32, Set<u32>>, owned: Set<u32>, a: u32, b: u32) -> bool {
    exists|p: Seq<u32>| #[trigger] is_walk(adj, owned, p) && p[0] == a && p.last() == b
}

/// The provinces of `owned` that walks through `owned` reach from `a`.
pub open spec fn component(adj: Map<u32, Set<u32>>, owned: Set<u32>, a: u32) -> Set<u32> {
    Set::new(|b: u32| connected(adj, owned, a, b))
}

/// Borders go both ways.
pub open spec fn symmetric(adj: Map<u32, Set<u32>>) -> bool {
    forall|a: u32, b: u32| #[trigger] linked(adj, a, b) ==> linked(adj, b, a)
}

/// No province of `owned` outside `r` borders one inside it.
pub open spec fn closed_outside(adj: Map<u32, Set<u32>>, owned: Set<u32>, r: Set<u32>) -> bool {
    forall|x: u32, y: u32|
        owned.contains(x) && !r.contains(x) && owned.contains(y) && #[trigger] linked(adj, x, y)
            ==> !r.contains(y)
}

proof fn lemma_walk_push(adj: Map<u32, Set<u32>>, owned: Set<u32>, p: Seq<u32>, n: u32)
    requires
        is_walk(adj, owned, p),
        owned.contains(n),
        linked(adj, p.last(), n),
    ensures
        is_walk(adj, owned, p.push(n)),
        p.push(n)[0] == p[0],
        p.push(n).last() == n,
{
    let q = p.push(n);
    assert forall|i: int| 0 <= i < q.len() - 1 implies #[trigger] step(adj, q, i) by {
        if i < p.len() - 1 {
            assert(step(adj, p, i));
        }
    }
}

proof fn lemma_walk_single(adj: Map<u32, Set<u32>>, owned: Set<u32>, a: u32)
    requires
        owned.contains(a),
    ensures
        is_walk(adj, owned, seq![a]),
        connected(adj, owned, a, a),
{
    assert(is_walk(adj, owned, seq![a]));
}

/// A walk that starts in a set closed under borders within `owned` never
/// leaves it.
proof fn lemma_walk_stays(adj: Map<u32, Set<u32>>, owned: Set<u32>, p: Seq<u32>, c: Set<u32>, i: int)
    requires
        is_walk(adj, owned, p),
        c.contains(p[0]),
        forall|u: u32, x: u32| c.contains(u) && owned.contains(x) && #[trigger] linked(adj, u, x) ==> c.contains(x),
        0 <= i < p.len(),
    ensures
        c.contains(p[i]),
    decreases i,
{
    if i > 0 {
        lemma_walk_stays(adj, owned, p, c, i - 1);
        assert(step(adj, p, i - 1));
        assert(owned.contains(p[i]));
    }
}

proof fn lemma_walk_reverse(adj: Map<u32, Set<u32>>, owned: Set<u32>, p: Seq<u32>)
    requires
        is_walk(adj, owned, p),
        symmetric(adj),
    ensures
        is_walk(adj, owned, p.reverse()),
        p.reverse()[0] == p.last(),
        p.reverse().last() == p[0],
{
    let q = p.reverse();
    let n = p.len();
    assert forall|i: int| 0 <= i < q.len() implies owned.contains(#[trigger] q[i]) by {
        assert(q[i] == p[n - 1 - i]);
    }
    assert forall|i: int| 0 <= i < q.len() - 1 implies #[trigger] step(adj, q, i) by {
        assert(step(adj, p, n - 2 - i));
        assert(q[i] == p[n - 1 - i]);
        assert(q[i + 1] == p[n - 2 - i]);
    }
}

proof fn lemma_walk_join(adj: Map<u32, Set<u32>>, owned: Set<u32>, p: Seq<u32>, q: Seq<u32>)
    requires
        is_walk(adj, owned, p),
        is_walk(adj, owned, q),
        p.last() == q[0],
    ensures
        is_walk(adj, owned, p + q.drop_first()),
        (p + q.drop_first())[0] == p[0],
        (p + q.drop_first()).last() == q.last(),
{
    let r = p + q.drop_first();
    let n = p.len();
    assert forall|i: int| 0 <= i < r.len() implies owned.contains(#[trigger] r[i]) by {
        if i >= n {
            assert(r[i] == q[i - n + 1]);
        }
    }
    assert forall|i: int| 0 <= i < r.len() - 1 implies #[trigger] step(adj, r, i) by {
        if i < n - 1 {
            assert(step(adj, p, i));
        } else {
            assert(step(adj, q, i - n + 1));
            assert(r[i + 1] == q[i - n + 2]);
            if i == n - 1 {
                assert(r[i] == p.last());
            } else {
                assert(r[i] == q[i - n + 1]);
            }
        }
    }
    if q.len() > 1 {
        assert(r.last() == q.last());
    }
}

/// Provinces connected to each other have the same component.
proof fn lemma_same_component(adj: Map<u32, Set<u32>>, owned: Set<u32>, a: u32, b: u32)
    requires
        symmetric(adj),
        connected(adj, owned, a, b),
    ensures
        component(adj, owned, a) == component(adj, owned, b),
{
    let p = choose|p: Seq<u32>| #[trigger] is_walk(adj, owned, p) && p[0] == a && p.last() == b;
    lemma_walk_reverse(adj, owned, p);
    assert forall|c: u32| component(adj, owned, a).contains(c) == component(adj, owned, b).contains(c) by {
        if connected(adj, owned, a, c) {
            let q = choose|q: Seq<u32>| #[trigger] is_walk(adj, owned, q) && q[0] == a && q.last() == c;
            lemma_walk_join(adj, owned, p.reverse(), q);
        }
        if connected(adj, owned, b, c) {
            let q = choose|q: Seq<u32>| #[trigger] is_walk(adj, owned, q) && q[0] == b && q.last() == c;
            lemma_walk_join(adj, owned, p, q);
        }
    }
    assert(component(adj, owned, a) =~= component(adj, owned, b));
}

proof fn lemma_push_set(s: Seq<u32>, x: u32)
    ensures
        s.push(x).to_set() == s.to_set().insert(x),
{
    let t = s.push(x);
    assert forall|y: u32| t.to_set().contains(y) == s.to_set().insert(x).contains(y) by {
        if t.contains(y) {
            let i = choose|i: int| 0 <= i < t.len() && t[i] == y;
            if i < s.len() {
                assert(s[i] == y);
            }
        }
        if s.contains(y) {
            let i = choose|i: int| 0 <= i < s.len() && s[i] == y;
            assert(t[i] == y);
        }
        if y == x {
            assert(t[s.len() as int] == x);
        }
    }
    assert(t.to_set() =~= s.to_set().insert(x));
}

/// The pixels of the provinces of `ids` that are known.
pub open spec fn pixels_of(provinces: Map<u32, TerritoryProvince>, ids: Seq<u32>) -> int
    decreases ids.len(),
{
    if ids.len() == 0 {
        0
    } else {
        pixels_of(provinces, ids.drop_last()) + if provinces.contains_key(ids.last()) {
            provinces[ids.last()].pixel_count as int
        } else {
            0int
        }
    }
}

/// The pixels of a set of provinces.
pub open spec fn set_pixels(provinces: Map<u32, TerritoryProvince>, c: Set<u32>) -> int {
    pixels_of(provinces, ascending_of(c))
}

impl TerritoryAnchorIndex {
    /// Takes the connected part of `start` out of `remaining` and returns
    /// it: a breadth-first walk over the borders, through provinces still
    /// remaining.
    fn component_from(&self, start: u32, remaining: &mut BTreeSet<u32>, Ghost(owned): Ghost<Set<u32>>) -> (comp:
        BTreeSet<u32>)
        requires
            self.wf(),
            old(remaining)@.subset_of(owned),
            old(remaining)@.finite(),
            old(remaining)@.contains(start),
            closed_outside(self.adjacency(), owned, old(remaining)@),
        ensures
            comp@ == component(self.adjacency(), owned, start),
            final(remaining)@ == old(remaining)@.difference(comp@),
            comp@.subset_of(old(remaining)@),
    {
        let ghost r0 = remaining@;
        let ghost adj = self.adjacency();
        let mut queue: Vec<u32> = Vec::new();
        queue.push(start);
        remaining.remove(&start);
        let mut comp: BTreeSet<u32> = BTreeSet::new();
        let mut h: usize = 0;
        proof {
            lemma_walk_single(adj, owned, start);
            lemma_push_set(Seq::<u32>::empty(), start);
            assert(queue@ =~= Seq::<u32>::empty().push(start));
            assert(Seq::<u32>::empty().to_set() =~= Set::<u32>::empty());
            assert(queue@.to_set() =~= set![start]);
            assert(remaining@ =~= r0.difference(queue@.to_set()));
            assert(comp@ =~= queue@.take(0).to_set());
            assert(r0.finite());
            assert(remaining@.len() + queue@.len() == r0.len());
        }
        while h < queue.len()
            invariant
                self.wf(),
                adj == self.adjacency(),
                r0.subset_of(owned),
                r0.finite(),
                r0.contains(start),
                closed_outside(adj, owned, r0),
                h <= queue@.len(),
                queue@.to_set().subset_of(r0),
                queue@.contains(start),
                remaining@ == r0.difference(queue@.to_set()),
                remaining@.len() + queue@.len() == r0.len(),
                comp@ == queue@.take(h as int).to_set(),
                forall|v: u32| #[trigger] queue@.to_set().contains(v) ==> connected(adj, owned, start, v),
                forall|u: u32, x: u32|
                    comp@.contains(u) && owned.contains(x) && #[trigger] linked(adj, u, x) ==> queue@.to_set().contains(
                        x,
                    ) || !r0.contains(x),
            decreases remaining@.len() + queue@.len() - h,
        {
            let v = queue[h];
            comp.insert(v);
            let nbrs = neighbors_of(&self.neighbors, v);
            let ghost before = queue@;
            proof {
                assert(queue@.take(h + 1) =~= queue@.take(h as int).push(v));
                lemma_push_set(queue@.take(h as int), v);
                assert(comp@ =~= queue@.take(h + 1).to_set());
            }
            let mut j: usize = 0;
            while j < nbrs.len()
                invariant
                    self.wf(),
                    adj == self.adjacency(),
                    r0.subset_of(owned),
                    r0.finite(),
                    r0.contains(start),
                    h < queue@.len(),
                    j <= nbrs@.len(),
                    nbrs@.to_set() == neighbors_in(adj, v),
                    queue@[h as int] == v,
                    queue@.take(h + 1) == before.take(h + 1),
                    queue@.to_set().subset_of(r0),
                    queue@.contains(start),
                    remaining@ == r0.difference(queue@.to_set()),
                    remaining@.len() + queue@.len() == r0.len(),
                    comp@ == before.take(h + 1).to_set(),
                    forall|w: u32| #[trigger] queue@.to_set().contains(w) ==> connected(adj, owned, start, w),
                    forall|u: u32, x: u32|
                        comp@.contains(u) && u != v && owned.contains(x) && #[trigger] linked(adj, u, x)
                            ==> queue@.to_set().contains(x) || !r0.contains(x),
                    forall|k: int| 0 <= k < j ==> queue@.to_set().contains(#[trigger] nbrs@[k]) || !r0.contains(
                        nbrs@[k],
                    ),
                decreases nbrs.len() - j,
            {
                let n = nbrs[j];
                let ghost q0 = queue@;
                if remaining.remove(&n) {
                    queue.push(n);
                    proof {
                        assert(nbrs@.to_set().contains(n));
                        assert(queue@ =~= q0.push(n));
                        lemma_push_set(q0, n);
                        assert(queue@.to_set() =~= q0.to_set().insert(n));
                        assert(queue@.take(h + 1) =~= q0.take(h + 1));
                        assert(q0.to_set().contains(v)) by {
                            assert(q0[h as int] == v);
                        }
                        let pv = choose|p: Seq<u32>| #[trigger] is_walk(adj, owned, p) && p[0] == start && p.last() == v;
                        lemma_walk_push(adj, owned, pv, n);
                        assert(is_walk(adj, owned, pv.push(n)));
                        assert(remaining@ =~= r0.difference(queue@.to_set()));
                        assert(queue@.contains(start)) by {
                            let i0 = choose|i0: int| 0 <= i0 < q0.len() && q0[i0] == start;
                            assert(queue@[i0] == start);
                        }
                    }
                }
                j = j + 1;
            }
            proof {
                assert forall|x: u32| owned.contains(x) && #[trigger] linked(adj, v, x) implies queue@.to_set().contains(
                    x,
                ) || !r0.contains(x) by {
                    assert(nbrs@.to_set().contains(x));
                    let k = choose|k: int| 0 <= k < nbrs@.len() && nbrs@[k] == x;
                    assert(queue@.to_set().contains(nbrs@[k]) || !r0.contains(nbrs@[k]));
                }
                assert(comp@ == queue@.take(h + 1).to_set());
            }
            h = h + 1;
        }
        proof {
            assert(queue@.take(h as int) =~= queue@);
            let c = comp@;
            assert forall|u: u32, x: u32| c.contains(u) && owned.contains(x) && #[trigger] linked(adj, u, x) implies c.contains(
                x,
            ) by {
                if !r0.contains(x) {
                    assert(linked(adj, x, u));
                }
            }
            assert forall|b: u32| c.contains(b) == component(adj, owned, start).contains(b) by {
                if connected(adj, owned, start, b) {
                    let p = choose|p: Seq<u32>| #[trigger] is_walk(adj, owned, p) && p[0] == start && p.last() == b;
                    assert(c.contains(start));
                    lemma_walk_stays(adj, owned, p, c, p.len() - 1);
                }
            }
            assert(c =~= component(adj, owned, start));
            assert(remaining@ =~= r0.difference(c));
        }
        comp
    }
}

proof fn lemma_pixels_bound(provinces: Map<u32, TerritoryProvince>, ids: Seq<u32>)
    ensures
        0 <= pixels_of(provinces, ids) <= ids.len() * 0xffff_ffff_ffff_ffff,
    decreases ids.len(),
{
    if ids.len() > 0 {
        lemma_pixels_bound(provinces, ids.drop_last());
    }
}

proof fn lemma_ascending_of_is(s: Set<u32>, v: Seq<u32>)
    requires
        strictly_ascending(v),
        v.to_set() == s,
    ensures
        ascending_of(s) == v,
{
    let c = ascending_of(s);
    assert(strictly_ascending(c) && c.to_set() == s);
    lemma_ascending_unique(c, v);
}

/// Whether `c` is the connected part of `owned` with the most pixels, and
/// of parts with as many pixels the one holding the smallest id.
pub open spec fn is_largest_part(
    adj: Map<u32, Set<u32>>,
    provinces: Map<u32, TerritoryProvince>,
    owned: Set<u32>,
    c: Set<u32>,
) -> bool {
    &&& exists|s: u32| owned.contains(s) && c == component(adj, owned, s)
    &&& forall|x: u32| #[trigger] owned.contains(x) ==> set_pixels(provinces, component(adj, owned, x))
        <= set_pixels(provinces, c)
    &&& forall|x: u32| #[trigger] owned.contains(x) && set_pixels(provinces, component(adj, owned, x))
        == set_pixels(provinces, c) ==> exists|t: u32| c.contains(t) && t <= x
}

/// The land provinces of a set that the index knows.
pub open spec fn land_of(provinces: Map<u32, TerritoryProvince>, owned: Set<u32>) -> Set<u32> {
    owned.filter(|id: u32| provinces.contains_key(id) && provinces[id].is_land)
}

/// A largest part of a territory: its pixels and its provinces.
pub struct LargestPart {
    pub pixels: u128,
    pub provinces: BTreeSet<u32>,
}

impl TerritoryAnchorIndex {
    /// The pixels of the known provinces of a set.
    pub fn pixels_of_set(&self, ids: &BTreeSet<u32>) -> (r: u128)
        ensures
            r == set_pixels(self.provinces(), ids@),
    {
        let items = ascending_unique(&set_items(ids));
        proof {
            lemma_ascending_of_is(ids@, items@);
        }
        let mut total: u128 = 0;
        let mut i: usize = 0;
        proof {
            assert(items@.take(0) =~= Seq::<u32>::empty());
        }
        while i < items.len()
            invariant
                i <= items@.len(),
                total == pixels_of(self.provinces(), items@.take(i as int)),
            decreases items.len() - i,
        {
            let id = items[i];
            proof {
                assert(items@.take(i + 1).drop_last() =~= items@.take(i as int));
                lemma_pixels_bound(self.provinces(), items@.take(i + 1));
                assert((i + 1) * 0xffff_ffff_ffff_ffff <= 0xffff_ffff_ffff_ffff_ffff_ffff_ffff_ffff)
                    by (nonlinear_arith)
                    requires
                        i < 0x1_0000_0000_0000_0000,
                ;
            }
            match self.provinces_by_id.get(&id) {
                Some(p) => {
                    total = total + p.pixel_count as u128;
                },
                None => {},
            }
            i = i + 1;
        }
        proof {
            assert(items@.take(items@.len() as int) =~= items@);
        }
        total
    }

    /// The connected part of `owned` with the most pixels: of parts with
    /// equal pixels, the one holding the smallest province id; none for an
    /// empty set.
    pub fn largest_component(&self, owned: &BTreeSet<u32>) -> (r: Option<BTreeSet<u32>>)
        requires
            self.wf(),
        ensures
            r is None <==> owned@.is_empty(),
            r matches Some(c) ==> is_largest_part(self.adjacency(), self.provinces(), owned@, c@),
    {
        let ghost adj = self.adjacency();
        let ghost provs = self.provinces();
        let ghost own = owned@;
        let items = ascending_unique(&set_items(owned));
        let mut remaining = owned.clone();
        let mut best: Option<LargestPart> = None;
        let ghost mut best_start: u32 = 0;
        let ghost mut best_k: int = 0;
        let mut idx: usize = 0;
        proof {
            assert(own.finite()) by {
                assert(items@.to_set() == own);
            }
            assert(symmetric(adj));
        }
        while idx < items.len()
            invariant
                self.wf(),
                adj == self.adjacency(),
                provs == self.provinces(),
                own == owned@,
                own.finite(),
                strictly_ascending(items@),
                items@.to_set() == own,
                idx <= items@.len(),
                remaining@.subset_of(own),
                remaining@.finite(),
                closed_outside(adj, own, remaining@),
                forall|k: int| 0 <= k < idx ==> !remaining@.contains(#[trigger] items@[k]),
                best is None ==> forall|x: u32| #[trigger] own.contains(x) ==> remaining@.contains(x),
                best matches Some(b) ==> {
                    &&& b.provinces@ == component(adj, own, best_start)
                    &&& own.contains(best_start)
                    &&& b.pixels == set_pixels(provs, b.provinces@)
                    &&& 0 <= best_k < idx
                    &&& items@[best_k] == best_start
                    &&& forall|x: u32| #[trigger] own.contains(x) && !remaining@.contains(x) ==> set_pixels(
                        provs,
                        component(adj, own, x),
                    ) <= b.pixels && (set_pixels(provs, component(adj, own, x)) == b.pixels
                        ==> best_start <= x)
                },
            decreases items.len() - idx,
        {
            let s = items[idx];
            if remaining.contains(&s) {
                let ghost r0 = remaining@;
                let comp = self.component_from(s, &mut remaining, Ghost(own));
                let px = self.pixels_of_set(&comp);
                proof {
                    assert(own.contains(s));
                    lemma_walk_single(adj, own, s);
                    assert(comp@.contains(s));
                    // the start is the smallest province of its part
                    assert forall|t: u32| comp@.contains(t) implies s <= t by {
                        if t < s {
                            assert(own.contains(t));
                            assert(items@.to_set().contains(t));
                            let k = choose|k: int| 0 <= k < items@.len() && items@[k] == t;
                            if k >= idx {
                                assert(items@[idx as int] <= items@[k]);
                            }
                            assert(!r0.contains(items@[k]));
                        }
                    }
                    // every province of the part has the part as its component
                    assert forall|x: u32| comp@.contains(x) implies component(adj, own, x) == comp@ by {
                        lemma_same_component(adj, own, s, x);
                    }
                    // the part is closed within the owned provinces
                    assert forall|x: u32, y: u32|
                        own.contains(x) && !remaining@.contains(x) && own.contains(y) && #[trigger] linked(
                            adj,
                            x,
                            y,
                        ) implies !remaining@.contains(y) by {
                        if comp@.contains(x) {
                            let p = choose|p: Seq<u32>| #[trigger] is_walk(adj, own, p) && p[0] == s && p.last()
                                == x;
                            lemma_walk_push(adj, own, p, y);
                            assert(comp@.contains(y));
                        } else {
                            assert(!r0.contains(x));
                        }
                    }
                }
                let better = match &best {
                    None => true,
                    Some(b) => px > b.pixels,
                };
                if better {
                    best = Some(LargestPart { pixels: px, provinces: comp });
                    proof {
                        best_start = s;
                        best_k = idx as int;
                        lemma_walk_single(adj, own, s);
                    }
                }
            }
            idx = idx + 1;
        }
        proof {
            assert forall|x: u32| #[trigger] own.contains(x) implies !remaining@.contains(x) by {
                assert(items@.to_set().contains(x));
                let k = choose|k: int| 0 <= k < items@.len() && items@[k] == x;
            }
            if own.is_empty() {
            } else {
                let x = own.choose();
                assert(own.contains(x));
            }
        }
        match best {
            None => None,
            Some(b) => {
                proof {
                    assert(b.provinces@.contains(best_start)) by {
                        lemma_walk_single(adj, own, best_start);
                    }
                }
                Some(b.provinces)
            },
        }
    }
}

impl TerritoryAnchorIndex {
    /// The land provinces of a set that the index knows.
    pub fn land_only(&self, owned: &BTreeSet<u32>) -> (r: BTreeSet<u32>)
        ensures
            r@ == land_of(self.provinces(), owned@),
    {
        let items = set_items(owned);
        let mut land: BTreeSet<u32> = BTreeSet::new();
        let mut i: usize = 0;
        while i < items.len()
            invariant
                i <= items@.len(),
                items@.to_set() == owned@,
                land@ == land_of(self.provinces(), items@.take(i as int).to_set()),
            decreases items.len() - i,
        {
            let id = items[i];
            proof {
                assert(items@.take(i + 1) =~= items@.take(i as int).push(id));
                lemma_push_set(items@.take(i as int), id);
            }
            let keep = match self.provinces_by_id.get(&id) {
                Some(p) => p.is_land,
                None => false,
            };
            if keep {
                land.insert(id);
            }
            proof {
                assert(land@ =~= land_of(self.provinces(), items@.take(i + 1).to_set()));
            }
            i = i + 1;
        }
        proof {
            assert(items@.take(items@.len() as int) =~= items@);
            assert(land_of(self.provinces(), items@.take(0).to_set()) =~= Set::<u32>::empty()) by {
                assert(items@.take(0).to_set() =~= Set::<u32>::empty());
            }
        }
        land
    }

    /// The territory of a set of provinces: its largest connected part of
    /// land provinces, with the pixels of that part; none without land.
    pub fn territory(&self, owned: &BTreeSet<u32>) -> (r: Option<LargestPart>)
        requires
            self.wf(),
        ensures
            r is None <==> land_of(self.provinces(), owned@).is_empty(),
            r matches Some(t) ==> is_largest_part(
                self.adjacency(),
                self.provinces(),
                land_of(self.provinces(), owned@),
                t.provinces@,
            ) && t.pixels == set_pixels(self.provinces(), t.provinces@),
    {
        let land = self.land_only(owned);
        match self.largest_component(&land) {
            None => None,
            Some(part) => {
                let pixels = self.pixels_of_set(&part);
                Some(LargestPart { pixels, provinces: part })
            },
        }
    }
}

/// Provinces of one component have that component as theirs: the parts of
/// a territory do not overlap.
pub proof fn lemma_components_agree(adj: Map<u32, Set<u32>>, owned: Set<u32>, a: u32, b: u32)
    requires
        symmetric(adj),
        component(adj, owned, a).contains(b),
    ensures
        component(adj, owned, b) == component(adj, owned, a),
        component(adj, owned, b).contains(a),
{
    lemma_same_component(adj, owned, a, b);
    assert(owned.contains(a)) by {
        let p = choose|p: Seq<u32>| #[trigger] is_walk(adj, owned, p) && p[0] == a && p.last() == b;
        assert(owned.contains(p[0]));
    }
    lemma_walk_single(adj, owned, a);
}

} // verus!
