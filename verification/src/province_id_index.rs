//! Lookup of preserved province ids: each id has one color and each color
//! one id, so a province is found by either. Ids may be sparse; they are
//! kept in ascending order.
use vstd::prelude::*;
use ahash::AHashMap;
use std::collections::BTreeMap;
use crate::ascending::{ascending_of, ascending_unique, lemma_ascending_unique, strictly_ascending};
use crate::collections::map_keys;
use crate::map_layers::Color;
use crate::text::{decimal, push_decimal};

verus! {

broadcast use vstd::std_specs::btree::group_btree_axioms;

#[verifier::external_type_specification]
#[verifier::external_body]
pub struct ExRandomState(ahash::RandomState);

#[verifier::external_type_specification]
#[verifier::external_body]
#[verifier::reject_recursive_types(K)]
#[verifier::reject_recursive_types(V)]
#[verifier::reject_recursive_types(S)]
pub struct ExAHashMap<K, V, S>(AHashMap<K, V, S>);

/// A hash map from colors to ids.
pub type ColorIds = AHashMap<Color, u32>;

/// The entries of a map from colors to ids.
pub uninterp spec fn color_entries(m: ColorIds) -> Map<Color, u32>;

/// `AHashMap::new`: a map with no entries.
#[verifier::external_body]
fn new_color_map() -> (m: ColorIds)
    ensures
        color_entries(m).dom().is_empty(),
{
    AHashMap::new()
}

/// `AHashMap::get`: the id stored for the color, if any.
#[verifier::external_body]
fn color_map_get(m: &ColorIds, color: &Color) -> (r: Option<u32>)
    ensures
        r == color_entries(*m).index_opt(*color),
{
    m.get(color).copied()
}

/// `AHashMap::insert`: the color now maps to the id; what it mapped to
/// before is returned.
#[verifier::external_body]
fn color_map_insert(m: &mut ColorIds, color: Color, id: u32) -> (r: Option<u32>)
    ensures
        color_entries(*final(m)) == color_entries(*old(m)).insert(color, id),
        r == color_entries(*old(m)).index_opt(color),
{
    m.insert(color, id)
}

/// `AHashMap::remove`: the color no longer maps to anything; what it
/// mapped to before is returned.
#[verifier::external_body]
fn color_map_remove(m: &mut ColorIds, color: &Color) -> (r: Option<u32>)
    ensures
        color_entries(*final(m)) == color_entries(*old(m)).remove(*color),
        r == color_entries(*old(m)).index_opt(*color),
{
    m.remove(color)
}

/// Why a province id or color cannot be indexed or allocated.
#[derive(Debug, Clone, Copy, PartialEq, Eq)]
pub enum ProvinceIdIndexError {
    InvalidIdZero,
    DuplicateId(u32),
    DuplicateColor(Color),
    AllocationOverflow,
}

/// The decimal digits of a color's three channels, as a bracketed list.
pub open spec fn color_text(color: Color) -> Seq<char> {
    "["@ + decimal(color[0] as nat) + ", "@ + decimal(color[1] as nat) + ", "@ + decimal(
        color[2] as nat,
    ) + "]"@
}

pub open spec fn error_message(e: ProvinceIdIndexError) -> Seq<char> {
    match e {
        ProvinceIdIndexError::InvalidIdZero => "province ID 0 is reserved"@,
        ProvinceIdIndexError::DuplicateId(id) => "duplicate province ID "@ + decimal(id as nat),
        ProvinceIdIndexError::DuplicateColor(color) => "duplicate province color "@ + color_text(
            color,
        ),
        ProvinceIdIndexError::AllocationOverflow => "no province ID is available after u32::MAX"@,
    }
}

impl ProvinceIdIndexError {
    /// The error as a sentence.
    pub fn message(&self) -> (r: String)
        ensures
            r@ == error_message(*self),
    {
        match self {
            ProvinceIdIndexError::InvalidIdZero => String::from_str("province ID 0 is reserved"),
            ProvinceIdIndexError::DuplicateId(id) => {
                let mut s = String::from_str("duplicate province ID ");
                push_decimal(&mut s, *id as u64);
                s
            },
            ProvinceIdIndexError::DuplicateColor(color) => {
                let mut s = String::from_str("duplicate province color ");
                s.append("[");
                push_decimal(&mut s, color[0] as u64);
                s.append(", ");
                push_decimal(&mut s, color[1] as u64);
                s.append(", ");
                push_decimal(&mut s, color[2] as u64);
                s.append("]");
                proof {
                    let c = *color;
                    assert(s@ =~= error_message(*self));
                }
                s
            },
            ProvinceIdIndexError::AllocationOverflow => String::from_str(
                "no province ID is available after u32::MAX",
            ),
        }
    }
}

/// What adding `id` with `color` to an index holding `m` gives: id 0, an
/// id already present and a color already present are refused, in that
/// order.
pub open spec fn insert_outcome(m: Map<u32, Color>, id: u32, color: Color) -> Result<
    Map<u32, Color>,
    ProvinceIdIndexError,
> {
    if id == 0 {
        Err(ProvinceIdIndexError::InvalidIdZero)
    } else if m.contains_key(id) {
        Err(ProvinceIdIndexError::DuplicateId(id))
    } else if m.contains_value(color) {
        Err(ProvinceIdIndexError::DuplicateColor(color))
    } else {
        Ok(m.insert(id, color))
    }
}

/// What adding the pairs one after another to an empty index gives: the
/// first refusal, or the whole map.
pub open spec fn pairs_outcome(pairs: Seq<(u32, Color)>) -> Result<Map<u32, Color>, ProvinceIdIndexError>
    decreases pairs.len(),
{
    if pairs.len() == 0 {
        Ok(Map::empty())
    } else {
        match pairs_outcome(pairs.drop_last()) {
            Ok(m) => insert_outcome(m, pairs.last().0, pairs.last().1),
            Err(e) => Err(e),
        }
    }
}

/// Province ids and their colors, found in both directions.
#[derive(Debug, PartialEq, Eq)]
pub struct ProvinceIdIndex {
    by_id: BTreeMap<u32, Color>,
    by_color: ColorIds,
}

impl View for ProvinceIdIndex {
    type V = Map<u32, Color>;

    closed spec fn view(&self) -> Map<u32, Color> {
        self.by_id@
    }
}

impl ProvinceIdIndex {
    /// Id 0 is absent, and the color map is the exact inverse of the id map.
    pub closed spec fn wf(&self) -> bool {
        &&& !self.by_id@.contains_key(0)
        &&& forall|id: u32| #[trigger]
            self.by_id@.contains_key(id) ==> color_entries(self.by_color).index_opt(self.by_id@[id])
                == Some(id)
        &&& forall|c: Color| #[trigger]
            color_entries(self.by_color).contains_key(c) ==> self.by_id@.index_opt(
                color_entries(self.by_color)[c],
            ) == Some(c)
    }

    /// An index with no provinces.
    pub fn new() -> (r: Self)
        ensures
            r.wf(),
            r@.is_empty(),
    {
        let r = ProvinceIdIndex { by_id: BTreeMap::new(), by_color: new_color_map() };
        assert(r@ =~= Map::empty());
        r
    }

    /// Adds a province; on a refusal the index is unchanged.
    pub fn insert(&mut self, id: u32, color: Color) -> (r: Result<(), ProvinceIdIndexError>)
        requires
            old(self).wf(),
        ensures
            final(self).wf(),
            (match insert_outcome(old(self)@, id, color) {
                Ok(m) => r is Ok && final(self)@ == m,
                Err(e) => r == Err::<(), ProvinceIdIndexError>(e) && final(self)@ == old(self)@,
            }),
    {
        if id == 0 {
            return Err(ProvinceIdIndexError::InvalidIdZero);
        }
        if self.by_id.contains_key(&id) {
            return Err(ProvinceIdIndexError::DuplicateId(id));
        }
        let present = color_map_get(&self.by_color, &color);
        if present.is_some() {
            proof {
                let owner = color_entries(self.by_color)[color];
                assert(self.by_id@.contains_key(owner) && self.by_id@[owner] == color);
            }
            return Err(ProvinceIdIndexError::DuplicateColor(color));
        }
        proof {
            if self@.contains_value(color) {
                let owner = choose|i: u32| self@.dom().contains(i) && self@[i] == color;
                assert(self.by_id@.contains_key(owner));
            }
        }
        self.by_id.insert(id, color);
        color_map_insert(&mut self.by_color, color, id);
        proof {
            assert forall|c: Color| #[trigger]
                color_entries(self.by_color).contains_key(c) implies self.by_id@.index_opt(
                color_entries(self.by_color)[c],
            ) == Some(c) by {
                if c != color {
                    assert(color_entries(old(self).by_color).contains_key(c));
                }
            }
        }
        Ok(())
    }

    /// Builds an index from pairs of id and color, refusing at the first
    /// pair that cannot be added.
    pub fn from_pairs(pairs: Vec<(u32, Color)>) -> (r: Result<Self, ProvinceIdIndexError>)
        ensures
            (match pairs_outcome(pairs@) {
                Ok(m) => r matches Ok(index) && index.wf() && index@ == m,
                Err(e) => r matches Err(x) && x == e,
            }),
    {
        let mut index = ProvinceIdIndex::new();
        assert(index@ =~= Map::<u32, Color>::empty());
        let mut i: usize = 0;
        assert(pairs@.take(0) =~= Seq::<(u32, Color)>::empty());
        while i < pairs.len()
            invariant
                i <= pairs@.len(),
                index.wf(),
                pairs_outcome(pairs@.take(i as int)) == Ok::<Map<u32, Color>, ProvinceIdIndexError>(
                    index@,
                ),
            decreases pairs.len() - i,
        {
            let (id, color) = pairs[i];
            assert(pairs@.take(i + 1).drop_last() =~= pairs@.take(i as int));
            let step = index.insert(id, color);
            match step {
                Ok(()) => {},
                Err(e) => {
                    proof {
                        lemma_outcome_keeps_refusal(pairs@, i as int + 1);
                    }
                    return Err(e);
                },
            }
            i = i + 1;
        }
        assert(pairs@.take(pairs.len() as int) =~= pairs@);
        Ok(index)
    }

    /// The color of a province id, if it is indexed.
    pub fn color_for_id(&self, id: u32) -> (r: Option<Color>)
        ensures
            r == self@.index_opt(id),
    {
        match self.by_id.get(&id) {
            Some(c) => Some(*c),
            None => None,
        }
    }

    /// The id of the province with a color, if there is one.
    pub fn id_for_color(&self, color: Color) -> (r: Option<u32>)
        requires
            self.wf(),
        ensures
            r is None <==> !self@.contains_value(color),
            r matches Some(id) ==> self@.contains_key(id) && self@[id] == color,
    {
        let r = color_map_get(&self.by_color, &color);
        proof {
            if self@.contains_value(color) {
                let owner = choose|i: u32| self@.dom().contains(i) && self@[i] == color;
                assert(self.by_id@.contains_key(owner));
            }
        }
        r
    }

    /// Whether a province id is indexed.
    pub fn contains_id(&self, id: u32) -> (r: bool)
        ensures
            r == self@.contains_key(id),
    {
        self.by_id.contains_key(&id)
    }

    /// The ids in ascending order.
    pub fn ids(&self) -> (r: Vec<u32>)
        ensures
            r@ == ascending_of(self@.dom()),
            strictly_ascending(r@),
            r@.to_set() == self@.dom(),
    {
        let keys = map_keys(&self.by_id);
        let r = ascending_unique(&keys);
        proof {
            lemma_ascending_of_is(self@.dom(), r@);
        }
        r
    }

    /// The pairs of id and color in ascending order of id.
    pub fn iter(&self) -> (r: Vec<(u32, Color)>)
        ensures
            r@.len() == ascending_of(self@.dom()).len(),
            forall|k: int| 0 <= k < r@.len() ==> #[trigger] r@[k] == (
                ascending_of(self@.dom())[k],
                self@[ascending_of(self@.dom())[k]],
            ),
    {
        let ids = self.ids();
        let mut out: Vec<(u32, Color)> = Vec::new();
        let mut k: usize = 0;
        while k < ids.len()
            invariant
                k <= ids@.len(),
                ids@ == ascending_of(self@.dom()),
                ids@.to_set() == self@.dom(),
                out@.len() == k,
                forall|j: int| 0 <= j < k ==> #[trigger] out@[j] == (ids@[j], self@[ids@[j]]),
            decreases ids.len() - k,
        {
            let id = ids[k];
            assert(ids@.to_set().contains(id));
            let color = match self.by_id.get(&id) {
                Some(c) => *c,
                None => {
                    assert(false);
                    [0u8, 0u8, 0u8]
                },
            };
            out.push((id, color));
            k = k + 1;
        }
        out
    }

    /// The number of provinces.
    pub fn len(&self) -> (r: usize)
        ensures
            r == self@.len(),
    {
        self.by_id.len()
    }

    /// The number of provinces.
    pub fn province_count(&self) -> (r: usize)
        ensures
            r == self@.len(),
    {
        self.len()
    }

    /// Whether no province is indexed.
    pub fn is_empty(&self) -> (r: bool)
        ensures
            r == self@.is_empty(),
    {
        self.by_id.is_empty()
    }

    /// The smallest id, if any.
    pub fn min_id(&self) -> (r: Option<u32>)
        ensures
            r is None <==> self@.is_empty(),
            r matches Some(m) ==> self@.contains_key(m) && forall|k: u32| #[trigger]
                self@.contains_key(k) ==> m <= k,
    {
        let ids = self.ids();
        if ids.len() == 0 {
            proof {
                lemma_empty_keys(self@, ids@);
            }
            None
        } else {
            let m = ids[0];
            proof {
                assert(ids@.to_set().contains(m));
                assert forall|k: u32| #[trigger] self@.contains_key(k) implies m <= k by {
                    assert(ids@.to_set().contains(k));
                    let j = choose|j: int| 0 <= j < ids@.len() && ids@[j] == k;
                    if j > 0 {
                        assert(ids@[0] < ids@[j]);
                    }
                }
            }
            Some(m)
        }
    }

    /// The smallest id, if any.
    pub fn min_province_id(&self) -> (r: Option<u32>)
        ensures
            r is None <==> self@.is_empty(),
            r matches Some(m) ==> self@.contains_key(m) && forall|k: u32| #[trigger]
                self@.contains_key(k) ==> m <= k,
    {
        self.min_id()
    }

    /// The largest id, if any.
    pub fn max_id(&self) -> (r: Option<u32>)
        ensures
            r is None <==> self@.is_empty(),
            r matches Some(m) ==> self@.contains_key(m) && forall|k: u32| #[trigger]
                self@.contains_key(k) ==> k <= m,
    {
        let ids = self.ids();
        if ids.len() == 0 {
            proof {
                lemma_empty_keys(self@, ids@);
            }
            None
        } else {
            let last = ids.len() - 1;
            let m = ids[last];
            proof {
                assert(ids@.to_set().contains(m));
                assert forall|k: u32| #[trigger] self@.contains_key(k) implies k <= m by {
                    assert(ids@.to_set().contains(k));
                    let j = choose|j: int| 0 <= j < ids@.len() && ids@[j] == k;
                    if j < last {
                        assert(ids@[j] < ids@[last as int]);
                    }
                }
            }
            Some(m)
        }
    }

    /// The largest id, if any.
    pub fn max_province_id(&self) -> (r: Option<u32>)
        ensures
            r is None <==> self@.is_empty(),
            r matches Some(m) ==> self@.contains_key(m) && forall|k: u32| #[trigger]
                self@.contains_key(k) ==> k <= m,
    {
        self.max_id()
    }

    /// Whether the ids are exactly 1, 2, ... up to their count.
    pub fn is_contiguous_from_one(&self) -> (r: bool)
        ensures
            r == (forall|k: int| 0 <= k < ascending_of(self@.dom()).len() ==> #[trigger]
                ascending_of(self@.dom())[k] == k + 1),
            r && !self@.is_empty() ==> self@.contains_key(1),
            r ==> forall|x: u32| #[trigger] self@.contains_key(x) ==> 1 <= x <= ascending_of(self@.dom()).len(),
            !self@.is_empty() && !self@.contains_key(1) ==> !r,
    {
        let ids = self.ids();
        proof {
            if !self@.is_empty() {
                let x = choose|x: u32| self@.contains_key(x);
                assert(ids@.to_set().contains(x));
                assert(ids@.len() > 0);
                assert(ids@.to_set().contains(ids@[0]));
            }
            assert forall|x: u32| #[trigger] self@.contains_key(x) implies exists|k: int| 0 <= k < ids@.len() && ids@[k] == x by {
                assert(ids@.to_set().contains(x));
            }
        }
        let mut k: usize = 0;
        while k < ids.len()
            invariant
                k <= ids@.len(),
                ids@ == ascending_of(self@.dom()),
                forall|j: int| 0 <= j < k ==> #[trigger] ids@[j] == j + 1,
            decreases ids.len() - k,
        {
            if k >= u32::MAX as usize || ids[k] != k as u32 + 1 {
                proof {
                    if k >= u32::MAX as usize {
                        assert(ids@[k as int] != k + 1);
                    }
                }
                return false;
            }
            k = k + 1;
        }
        true
    }

    /// The id a new province would get: one past the largest, or 1 for an
    /// empty index; no id follows `u32::MAX`.
    pub fn next_allocatable_id(&self) -> (r: Result<u32, ProvinceIdIndexError>)
        ensures
            self@.is_empty() ==> r == Ok::<u32, ProvinceIdIndexError>(1),
            !self@.is_empty() ==> (match r {
                Ok(n) => n >= 1 && self@.contains_key((n - 1) as u32) && forall|k: u32| #[trigger]
                    self@.contains_key(k) ==> k < n,
                Err(e) => e == ProvinceIdIndexError::AllocationOverflow && self@.contains_key(
                    u32::MAX,
                ),
            }),
    {
        match self.max_id() {
            None => Ok(1),
            Some(m) => {
                if m == u32::MAX {
                    Err(ProvinceIdIndexError::AllocationOverflow)
                } else {
                    Ok(m + 1)
                }
            },
        }
    }

    /// Drops the province with a color, if there is one.
    pub fn remove_color(&mut self, color: Color)
        requires
            old(self).wf(),
        ensures
            final(self).wf(),
            !old(self)@.contains_value(color) ==> final(self)@ == old(self)@,
            forall|id: u32| #[trigger]
                old(self)@.contains_key(id) && old(self)@[id] == color ==> final(self)@
                    == old(self)@.remove(id),
    {
        let removed = color_map_remove(&mut self.by_color, &color);
        match removed {
            Some(id) => {
                self.by_id.remove(&id);
                proof {
                    assert forall|i: u32| #[trigger] self.by_id@.contains_key(i) implies color_entries(
                        self.by_color,
                    ).index_opt(self.by_id@[i]) == Some(i) by {
                        assert(old(self).by_id@.contains_key(i));
                    }
                    assert forall|i: u32| #[trigger]
                        old(self)@.contains_key(i) && old(self)@[i] == color implies i == id by {
                        assert(color_entries(old(self).by_color).index_opt(old(self).by_id@[i])
                            == Some(i));
                    }
                }
            },
            None => {
                proof {
                    if old(self)@.contains_value(color) {
                        let owner = choose|i: u32| old(self)@.dom().contains(i) && old(self)@[i]
                            == color;
                        assert(old(self).by_id@.contains_key(owner));
                    }
                    assert(color_entries(self.by_color) =~= color_entries(old(self).by_color));
                }
            },
        }
    }

    /// Gives the province with color `previous` the color `replacement`,
    /// if there is such a province.
    pub fn rekey_color(&mut self, previous: Color, replacement: Color)
        requires
            old(self).wf(),
            old(self)@.contains_value(previous) && replacement != previous
                ==> !old(self)@.contains_value(replacement),
        ensures
            final(self).wf(),
            !old(self)@.contains_value(previous) ==> final(self)@ == old(self)@,
            forall|id: u32| #[trigger]
                old(self)@.contains_key(id) && old(self)@[id] == previous ==> final(self)@
                    == old(self)@.insert(id, replacement),
    {
        let removed = color_map_remove(&mut self.by_color, &previous);
        match removed {
            Some(id) => {
                proof {
                    if replacement != previous {
                        if color_entries(self.by_color).contains_key(replacement) {
                            let owner = color_entries(self.by_color)[replacement];
                            assert(color_entries(old(self).by_color).contains_key(replacement));
                            assert(old(self).by_id@.contains_key(owner));
                        }
                    }
                }
                color_map_insert(&mut self.by_color, replacement, id);
                self.by_id.insert(id, replacement);
                proof {
                    assert forall|i: u32| #[trigger]
                        old(self)@.contains_key(i) && old(self)@[i] == previous implies i == id by {
                        assert(color_entries(old(self).by_color).index_opt(old(self).by_id@[i])
                            == Some(i));
                    }
                    assert forall|i: u32| #[trigger] self.by_id@.contains_key(i) implies color_entries(
                        self.by_color,
                    ).index_opt(self.by_id@[i]) == Some(i) by {
                        if i != id {
                            assert(old(self).by_id@.contains_key(i));
                            assert(old(self).by_id@[i] != previous);
                            assert(old(self).by_id@[i] != replacement);
                        }
                    }
                    assert forall|c: Color| #[trigger]
                        color_entries(self.by_color).contains_key(c) implies self.by_id@.index_opt(
                        color_entries(self.by_color)[c],
                    ) == Some(c) by {
                        if c != replacement {
                            assert(color_entries(old(self).by_color).contains_key(c));
                        }
                    }
                }
            },
            None => {
                proof {
                    if old(self)@.contains_value(previous) {
                        let owner = choose|i: u32| old(self)@.dom().contains(i) && old(self)@[i]
                            == previous;
                        assert(old(self).by_id@.contains_key(owner));
                    }
                    assert(color_entries(self.by_color) =~= color_entries(old(self).by_color));
                }
            },
        }
    }
}

impl Default for ProvinceIdIndex {
    fn default() -> (r: Self)
        ensures
            r.wf(),
            r@.is_empty(),
    {
        ProvinceIdIndex::new()
    }
}

/// Pairs that can all be indexed: no id is 0, and no two pairs share an
/// id or a color.
pub open spec fn pairs_acceptable(pairs: Seq<(u32, Color)>) -> bool {
    &&& forall|i: int| 0 <= i < pairs.len() ==> #[trigger] pairs[i].0 != 0
    &&& forall|i: int, j: int|
        #![trigger pairs[i], pairs[j]]
        0 <= i < j < pairs.len() ==> pairs[i].0 != pairs[j].0 && pairs[i].1 != pairs[j].1
}

/// Building an index from pairs succeeds exactly when the pairs are
/// acceptable, and then the index holds each pair and nothing else.
pub proof fn lemma_pairs_outcome(pairs: Seq<(u32, Color)>)
    ensures
        pairs_outcome(pairs) is Ok <==> pairs_acceptable(pairs),
        pairs_outcome(pairs) matches Ok(m) ==> {
            &&& forall|i: int| 0 <= i < pairs.len() ==> m.index_opt(#[trigger] pairs[i].0) == Some(
                pairs[i].1,
            )
            &&& forall|id: u32| #[trigger]
                m.contains_key(id) ==> exists|i: int| 0 <= i < pairs.len() && pairs[i].0 == id
        },
    decreases pairs.len(),
{
    if pairs.len() > 0 {
        let p = pairs.drop_last();
        let n = pairs.len() - 1;
        let (id, c) = pairs.last();
        lemma_pairs_outcome(p);
        assert(forall|i: int| 0 <= i < n ==> #[trigger] pairs[i] == p[i]);
        match pairs_outcome(p) {
            Err(_) => {
                if pairs_acceptable(pairs) {
                    assert(pairs_acceptable(p));
                }
            },
            Ok(m) => {
                if id == 0 {
                    assert(pairs[n].0 == 0);
                } else if m.contains_key(id) {
                    let i = choose|i: int| 0 <= i < p.len() && p[i].0 == id;
                    assert(pairs[i].0 == pairs[n].0);
                } else if m.contains_value(c) {
                    let k = choose|k: u32| m.dom().contains(k) && m[k] == c;
                    let i = choose|i: int| 0 <= i < p.len() && p[i].0 == k;
                    assert(m.index_opt(p[i].0) == Some(p[i].1));
                    assert(pairs[i].1 == pairs[n].1);
                } else {
                    assert forall|i: int, j: int|
                        #![trigger pairs[i], pairs[j]]
                        0 <= i < j < pairs.len() implies pairs[i].0 != pairs[j].0 && pairs[i].1
                        != pairs[j].1 by {
                        if j == n {
                            assert(m.index_opt(p[i].0) == Some(p[i].1));
                            assert(m.contains_key(p[i].0));
                        } else {
                            assert(p[i] == pairs[i] && p[j] == pairs[j]);
                        }
                    }
                    let m2 = m.insert(id, c);
                    assert forall|i: int| 0 <= i < pairs.len() implies m2.index_opt(
                        #[trigger] pairs[i].0,
                    ) == Some(pairs[i].1) by {
                        if i < n {
                            assert(m.index_opt(p[i].0) == Some(p[i].1));
                        }
                    }
                    assert forall|k: u32| #[trigger] m2.contains_key(k) implies exists|i: int|
                        0 <= i < pairs.len() && pairs[i].0 == k by {
                        if k == id {
                            assert(pairs[n].0 == k);
                        } else {
                            let i = choose|i: int| 0 <= i < p.len() && p[i].0 == k;
                            assert(pairs[i].0 == k);
                        }
                    }
                }
            },
        }
    }
}

/// Two provinces of an index never share a color, so the color of an id
/// leads back to that id.
pub proof fn lemma_colors_identify_ids(index: ProvinceIdIndex, a: u32, b: u32)
    requires
        index.wf(),
        index@.contains_key(a),
        index@.contains_key(b),
        index@[a] == index@[b],
    ensures
        a == b,
{
}

/// Giving a province another color and then its old color back leaves the
/// index as it was.
pub proof fn lemma_rekey_round_trip(m: Map<u32, Color>, id: u32, previous: Color, replacement: Color)
    requires
        m.contains_key(id),
        m[id] == previous,
    ensures
        m.insert(id, replacement).insert(id, previous) == m,
{
    assert(m.insert(id, replacement).insert(id, previous) =~= m);
}

proof fn lemma_outcome_keeps_refusal(pairs: Seq<(u32, Color)>, n: int)
    requires
        0 < n <= pairs.len(),
        pairs_outcome(pairs.take(n)) is Err,
    ensures
        pairs_outcome(pairs) == pairs_outcome(pairs.take(n)),
    decreases pairs.len() - n,
{
    if n < pairs.len() {
        assert(pairs.take(n + 1).drop_last() =~= pairs.take(n));
        lemma_outcome_keeps_refusal(pairs, n + 1);
    } else {
        assert(pairs.take(n) =~= pairs);
    }
}

proof fn lemma_ascending_of_is(s: Set<u32>, v: Seq<u32>)
    requires
        strictly_ascending(v),
        v.to_set() == s,
    ensures
        ascending_of(s) == v,
{
    let c = ascending_of(s);
    assert(strictly_ascending(c) && c.to_set() == s);
    lemma_ascending_unique(c, v);
}

proof fn lemma_empty_keys(m: Map<u32, Color>, v: Seq<u32>)
    requires
        v.to_set() == m.dom(),
        v.len() == 0,
    ensures
        m.is_empty(),
{
    assert(m.dom() =~= Set::<u32>::empty());
}

} // verus!
