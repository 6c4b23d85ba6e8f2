//! Building the province table of a map from its definition records and
//! the pixels of `provinces.bmp`: the records are checked and indexed, the
//! pixels are counted by color, the records whose color is on the map are
//! kept, and adjacency records are resolved through them.
use vstd::prelude::*;
use ahash::AHashMap;
use crate::map_layers::Color;
use crate::province_id_index::{
    ProvinceIdIndex, ProvinceIdIndexError, error_message, lemma_pairs_outcome, pairs_acceptable, pairs_outcome,
};

verus! {


/// Why a map cannot be built from its tables.
#[derive(Debug, Clone, Copy, PartialEq, Eq)]
pub enum MapLoadError {
    TooManyRecords,
    NoRecords,
    Definitions(ProvinceIdIndexError),
}

pub open spec fn map_load_message(e: MapLoadError) -> Seq<char> {
    match e {
        MapLoadError::TooManyRecords => "definition.csv contains too many province records"@,
        MapLoadError::NoRecords => "definition.csv contains no province records"@,
        MapLoadError::Definitions(inner) => "definition.csv "@ + error_message(inner),
    }
}

impl MapLoadError {
    pub fn message(&self) -> (r: String)
        ensures
            r@ == map_load_message(*self),
    {
        match self {
            MapLoadError::TooManyRecords => String::from_str("definition.csv contains too many province records"),
            MapLoadError::NoRecords => String::from_str("definition.csv contains no province records"),
            MapLoadError::Definitions(inner) => {
                let mut out = String::from_str("definition.csv ");
                let text = inner.message();
                out.append(text.as_str());
                out
            },
        }
    }
}

/// Pixel counts by color.
pub type PixelCounts = AHashMap<Color, u64>;

/// The entries of a map of pixel counts.
pub uninterp spec fn count_entries(m: PixelCounts) -> Map<Color, u64>;

/// `AHashMap::new`: a map with no entries.
#[verifier::external_body]
fn new_count_map() -> (m: PixelCounts)
    ensures
        count_entries(m).dom().is_empty(),
{
    AHashMap::new()
}

/// `AHashMap::get`: the count stored for the color, if any.
#[verifier::external_body]
fn count_map_get(m: &PixelCounts, color: &Color) -> (r: Option<u64>)
    ensures
        r == count_entries(*m).index_opt(*color),
{
    m.get(color).copied()
}

/// `AHashMap::insert`: the color now maps to the count.
#[verifier::external_body]
fn count_map_insert(m: &mut PixelCounts, color: Color, count: u64)
    ensures
        count_entries(*final(m)) == count_entries(*old(m)).insert(color, count),
{
    m.insert(color, count);
}

/// How many pixels have the color `c`.
pub open spec fn count_color(pixels: Seq<Color>, c: Color) -> nat
    decreases pixels.len(),
{
    if pixels.len() == 0 {
        0
    } else {
        count_color(pixels.drop_last(), c) + (if pixels.last() == c { 1nat } else { 0nat })
    }
}

/// The pixel count of each color on the map.
pub open spec fn pixel_counts_spec(pixels: Seq<Color>) -> Map<Color, u64> {
    Map::new(|c: Color| count_color(pixels, c) > 0, |c: Color| count_color(pixels, c) as u64)
}

/// A color is on the map: some pixel has it.
pub open spec fn on_map(pixels: Seq<Color>, c: Color) -> bool {
    count_color(pixels, c) > 0
}

/// The definitions whose color is on the map.
pub open spec fn loaded_definitions(defs: Map<u32, Color>, pixels: Seq<Color>) -> Map<u32, Color> {
    Map::new(|id: u32| defs.contains_key(id) && on_map(pixels, defs[id]), |id: u32| defs[id])
}

/// What the tables give: the first refusal of the records, checked in this
/// order (their count must fit in a `u32` and be positive, then they must
/// index), or the definitions by id and the pixel counts.
pub open spec fn table_outcome(defs: Seq<(u32, Color)>) -> Result<Map<u32, Color>, MapLoadError> {
    if defs.len() > u32::MAX {
        Err(MapLoadError::TooManyRecords)
    } else if defs.len() == 0 {
        Err(MapLoadError::NoRecords)
    } else {
        match pairs_outcome(defs) {
            Ok(m) => Ok(m),
            Err(e) => Err(MapLoadError::Definitions(e)),
        }
    }
}

/// The province table of a map.
pub struct ProvinceTable {
    /// Every definition record, by id.
    pub definitions: ProvinceIdIndex,
    /// The definition records whose color is on the map, by id.
    pub loaded: ProvinceIdIndex,
    /// The number of pixels of each color on the map.
    pub pixel_counts: PixelCounts,
}

fn count_pixels(pixels: &Vec<Color>) -> (r: PixelCounts)
    ensures
        count_entries(r) == pixel_counts_spec(pixels@),
{
    let mut counts = new_count_map();
    let mut i: usize = 0;
    proof {
        assert(count_entries(counts) =~= pixel_counts_spec(pixels@.take(0)));
    }
    while i < pixels.len()
        invariant
            i <= pixels@.len(),
            count_entries(counts) == pixel_counts_spec(pixels@.take(i as int)),
            forall|c: Color| count_color(pixels@.take(i as int), c) <= i,
        decreases pixels@.len() - i,
    {
        let color = pixels[i];
        let ghost before = pixels@.take(i as int);
        let ghost after = pixels@.take(i + 1);
        proof {
            assert(after.drop_last() =~= before);
            assert(after.last() == pixels@[i as int]);
        }
        let current: u64 = match count_map_get(&counts, &color) {
            Some(c) => c,
            None => 0,
        };
        proof {
            assert(count_color(before, color) <= i);
            assert(current as nat == count_color(before, color));
        }
        count_map_insert(&mut counts, color, current + 1);
        i = i + 1;
        proof {
            assert forall|c: Color| count_color(after, c) <= i by {
                assert(count_color(before, c) <= i - 1);
            }
            assert(count_entries(counts) =~= pixel_counts_spec(after));
        }
    }
    proof {
        assert(pixels@.take(pixels@.len() as int) =~= pixels@);
    }
    counts
}

/// Builds the province table: the definition records (pairs of id and
/// color) are indexed, the pixels are counted by color, and the records
/// whose color is on the map are kept as the loaded provinces.
pub fn construct_province_table(definitions: &Vec<(u32, Color)>, pixels: &Vec<Color>) -> (r: Result<
    ProvinceTable,
    MapLoadError,
>)
    ensures
        match table_outcome(definitions@) {
            Err(e) => r matches Err(x) && x == e,
            Ok(m) => r matches Ok(t) && {
                &&& t.definitions.wf()
                &&& t.definitions@ == m
                &&& t.loaded.wf()
                &&& t.loaded@ == loaded_definitions(m, pixels@)
                &&& count_entries(t.pixel_counts) == pixel_counts_spec(pixels@)
            },
        },
{
    if definitions.len() as u64 > 0xFFFF_FFFFu64 {
        return Err(MapLoadError::TooManyRecords);
    }
    if definitions.len() == 0 {
        return Err(MapLoadError::NoRecords);
    }
    let index = match ProvinceIdIndex::from_pairs(copy_pairs(definitions)) {
        Ok(index) => index,
        Err(e) => {
            return Err(MapLoadError::Definitions(e));
        },
    };
    let counts = count_pixels(pixels);
    let ghost m = index@;
    proof {
        lemma_pairs_outcome(definitions@);
    }
    let mut kept: Vec<(u32, Color)> = Vec::new();
    let ghost mut origin: Seq<int> = Seq::empty();
    let mut i: usize = 0;
    while i < definitions.len()
        invariant
            i <= definitions@.len(),
            pairs_outcome(definitions@) == Ok::<Map<u32, Color>, ProvinceIdIndexError>(m),
            pairs_acceptable(definitions@),
            forall|k: int| 0 <= k < definitions@.len() ==> m.index_opt(#[trigger] definitions@[k].0) == Some(
                definitions@[k].1,
            ),
            count_entries(counts) == pixel_counts_spec(pixels@),
            origin.len() == kept@.len(),
            forall|a: int| 0 <= a < origin.len() ==> 0 <= #[trigger] origin[a] < i && kept@[a] == definitions@[origin[a]],
            forall|a: int, b: int| 0 <= a < b < origin.len() ==> #[trigger] origin[a] < #[trigger] origin[b],
            forall|k: int| 0 <= k < i && on_map(pixels@, #[trigger] definitions@[k].1) ==> exists|a: int|
                0 <= a < origin.len() && origin[a] == k,
            forall|a: int| 0 <= a < kept@.len() ==> on_map(pixels@, #[trigger] kept@[a].1),
        decreases definitions@.len() - i,
    {
        let (id, color) = definitions[i];
        if count_map_get(&counts, &color).is_some() {
            let ghost o0 = origin;
            proof {
                origin = origin.push(i as int);
            }
            kept.push((id, color));
            proof {
                assert forall|k: int| 0 <= k < i + 1 && on_map(pixels@, #[trigger] definitions@[k].1) implies exists|a: int|
                    0 <= a < origin.len() && origin[a] == k by {
                    if k == i {
                        assert(origin[origin.len() - 1] == k);
                    } else {
                        let a = choose|a: int| 0 <= a < o0.len() && o0[a] == k;
                        assert(origin[a] == o0[a]);
                    }
                }
            }
        }
        i = i + 1;
    }
    proof {
        assert(pairs_acceptable(kept@)) by {
            assert forall|a: int| 0 <= a < kept@.len() implies #[trigger] kept@[a].0 != 0 by {
                assert(definitions@[origin[a]].0 != 0);
            }
            assert forall|a: int, b: int| #![trigger kept@[a], kept@[b]] 0 <= a < b < kept@.len() implies kept@[a].0
                != kept@[b].0 && kept@[a].1 != kept@[b].1 by {
                let x = origin[a];
                let y = origin[b];
                assert(x < y);
                assert(definitions@[x] == kept@[a]);
                assert(definitions@[y] == kept@[b]);
            }
        }
        lemma_pairs_outcome(kept@);
    }
    let loaded = match ProvinceIdIndex::from_pairs(kept) {
        Ok(l) => l,
        Err(_) => {
            proof {
                assert(false);
            }
            return Err(MapLoadError::NoRecords);
        },
    };
    proof {
        let want = loaded_definitions(m, pixels@);
        assert forall|id: u32| #[trigger] loaded@.contains_key(id) <==> want.contains_key(id) by {
            if loaded@.contains_key(id) {
                let a = choose|a: int| 0 <= a < kept@.len() && kept@[a].0 == id;
                assert(kept@[a] == definitions@[origin[a]]);
                assert(m.index_opt(definitions@[origin[a]].0) == Some(definitions@[origin[a]].1));
            }
            if want.contains_key(id) {
                assert(m.contains_key(id));
                let k = choose|k: int| 0 <= k < definitions@.len() && definitions@[k].0 == id;
                assert(m.index_opt(definitions@[k].0) == Some(definitions@[k].1));
                assert(on_map(pixels@, definitions@[k].1));
                let a = choose|a: int| 0 <= a < origin.len() && origin[a] == k;
                assert(loaded@.index_opt(kept@[a].0) == Some(kept@[a].1));
            }
        }
        assert forall|id: u32| #[trigger] loaded@.contains_key(id) implies loaded@[id] == want[id] by {
            let a = choose|a: int| 0 <= a < kept@.len() && kept@[a].0 == id;
            assert(loaded@.index_opt(kept@[a].0) == Some(kept@[a].1));
            assert(kept@[a] == definitions@[origin[a]]);
            assert(m.index_opt(definitions@[origin[a]].0) == Some(definitions@[origin[a]].1));
        }
        assert(loaded@ =~= want);
    }
    Ok(ProvinceTable { definitions: index, loaded, pixel_counts: counts })
}

fn copy_pairs(pairs: &Vec<(u32, Color)>) -> (r: Vec<(u32, Color)>)
    ensures
        r@ == pairs@,
{
    let mut out: Vec<(u32, Color)> = Vec::new();
    let mut i: usize = 0;
    while i < pairs.len()
        invariant
            i <= pairs@.len(),
            out@ == pairs@.take(i as int),
        decreases pairs@.len() - i,
    {
        out.push(pairs[i]);
        i = i + 1;
        proof {
            assert(out@ =~= pairs@.take(i as int));
        }
    }
    proof {
        assert(out@ =~= pairs@);
    }
    out
}

/// The colors of both ends of an adjacency record, where both ids are
/// loaded provinces.
pub fn adjacency_endpoints(loaded: &ProvinceIdIndex, from_id: u32, to_id: u32) -> (r: Option<(Color, Color)>)
    ensures
        r == (match (loaded@.index_opt(from_id), loaded@.index_opt(to_id)) {
            (Some(a), Some(b)) => Some((a, b)),
            _ => None,
        }),
{
    match (loaded.color_for_id(from_id), loaded.color_for_id(to_id)) {
        (Some(a), Some(b)) => Some((a, b)),
        _ => None,
    }
}

} // verus!
