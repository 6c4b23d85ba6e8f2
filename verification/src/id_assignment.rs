//! Province ids for the definition table of a saved map when ids are
//! preserved: every indexed province keeps its id, and each color on the map
//! that has none gets the next free id, the colors taken in increasing
//! order.
use vstd::prelude::*;
use crate::ascending::{ascending_of, ascending_set, ascending_unique, strictly_ascending};
use crate::map_layers::Color;
use crate::province_id_index::{error_message, ProvinceIdIndex, ProvinceIdIndexError};
use crate::text::{decimal, push_decimal};

verus! {

/// Why ids cannot be given to the colors of a map.
#[derive(Debug, Clone, Copy, PartialEq, Eq)]
pub enum IdAssignmentError {
    /// An indexed province's color is not on the map.
    ColorMissingFromMap(u32),
    /// No id is free for a new color.
    Allocation(ProvinceIdIndexError),
}

pub open spec fn id_assignment_message(e: IdAssignmentError) -> Seq<char> {
    match e {
        IdAssignmentError::ColorMissingFromMap(id) => "province ID "@ + decimal(id as nat)
            + " refers to a color missing from the map"@,
        IdAssignmentError::Allocation(inner) => error_message(inner),
    }
}

impl IdAssignmentError {
    pub fn message(&self) -> (r: String)
        ensures
            r@ == id_assignment_message(*self),
    {
        match self {
            IdAssignmentError::ColorMissingFromMap(id) => {
                let mut out = String::from_str("province ID ");
                push_decimal(&mut out, *id as u64);
                out.append(" refers to a color missing from the map");
                out
            },
            IdAssignmentError::Allocation(inner) => inner.message(),
        }
    }
}

/// The number that orders colors: red, then green, then blue.
pub open spec fn color_code(c: Color) -> u32 {
    (c[0] as int * 65536 + c[1] as int * 256 + c[2] as int) as u32
}

/// The color of a number made by `color_code`.
pub open spec fn code_color(k: u32) -> Color {
    [(k / 65536) as u8, ((k / 256) % 256) as u8, (k % 256) as u8]
}

/// The indexed ids whose color is not on the map.
pub open spec fn missing_ids(m: Map<u32, Color>, colors: Seq<Color>) -> Set<u32> {
    Set::new(|id: u32| m.contains_key(id) && !colors.contains(m[id]))
}

/// The codes of the map's colors that no province id has, with repeats.
pub open spec fn fresh_codes(m: Map<u32, Color>, colors: Seq<Color>) -> Seq<u32> {
    colors.filter(|c: Color| !m.contains_value(c)).map_values(|c: Color| color_code(c))
}

/// `n` is the first id after every indexed id (1 for an empty index).
pub open spec fn next_free(m: Map<u32, Color>, n: u32) -> bool {
    if m.is_empty() {
        n == 1
    } else {
        n >= 1 && m.contains_key((n - 1) as u32) && forall|k: u32| #[trigger] m.contains_key(k) ==> k < n
    }
}

/// The indexed provinces, by increasing id.
pub open spec fn index_pairs(m: Map<u32, Color>) -> Seq<(u32, Color)> {
    Seq::new(ascending_of(m.dom()).len(), |k: int| (ascending_of(m.dom())[k], m[ascending_of(m.dom())[k]]))
}

/// The new provinces: the fresh colors in increasing order, with the ids
/// from `n` on.
pub open spec fn new_pairs(codes: Seq<u32>, n: u32) -> Seq<(u32, Color)> {
    Seq::new(codes.len(), |i: int| ((n + i) as u32, code_color(codes[i])))
}

proof fn lemma_filter_step(s: Seq<Color>, f: spec_fn(Color) -> bool, i: int)
    requires
        0 <= i < s.len(),
    ensures
        s.take(i + 1).filter(f) == (if f(s[i]) { s.take(i).filter(f).push(s[i]) } else { s.take(i).filter(f) }),
{
    reveal(Seq::filter);
    assert(s.take(i + 1).drop_last() =~= s.take(i));
}

fn code_of(c: Color) -> (r: u32)
    ensures
        r == color_code(c),
{
    c[0] as u32 * 65536 + c[1] as u32 * 256 + c[2] as u32
}

fn color_of(k: u32) -> (r: Color)
    ensures
        r == code_color(k),
{
    [(k / 65536) as u8, ((k / 256) % 256) as u8, (k % 256) as u8]
}

fn has_color(colors: &Vec<Color>, c: Color) -> (r: bool)
    ensures
        r == colors@.contains(c),
{
    let mut i: usize = 0;
    while i < colors.len()
        invariant
            i <= colors@.len(),
            forall|k: int| 0 <= k < i ==> colors@[k] != c,
        decreases colors@.len() - i,
    {
        let x = colors[i];
        if x[0] == c[0] && x[1] == c[1] && x[2] == c[2] {
            proof {
                assert(x =~= c);
            }
            return true;
        }
        proof {
            if x == c {
                assert(x[0] == c[0]);
            }
        }
        i = i + 1;
    }
    false
}

/// The ids of a saved map's definition table. Every indexed province keeps
/// its id, in increasing order of id; the first indexed id whose color is no
/// longer on the map refuses the table. Each color on the map that no id has
/// then gets an id, in increasing order of color, from the first id after
/// every indexed one; the table is refused where those ids would pass
/// `u32::MAX`, or where `u32::MAX` is indexed already. The new ids are also
/// returned as the table's id changes.
pub fn assign_province_ids(index: &ProvinceIdIndex, map_colors: &Vec<Color>) -> (r: Result<
    (Vec<(u32, Color)>, Vec<u32>),
    IdAssignmentError,
>)
    requires
        index.wf(),
    ensures
        ({
            let m = index@;
            let missing = missing_ids(m, map_colors@);
            let codes = ascending_set(fresh_codes(m, map_colors@));
            &&& missing != Set::<u32>::empty() ==> (r matches Err(IdAssignmentError::ColorMissingFromMap(id))
                && missing.contains(id) && forall|o: u32| #[trigger] missing.contains(o) ==> id <= o)
            &&& missing == Set::<u32>::empty() && m.contains_key(u32::MAX) ==> r == Err::<
                (Vec<(u32, Color)>, Vec<u32>),
                IdAssignmentError,
            >(IdAssignmentError::Allocation(ProvinceIdIndexError::AllocationOverflow))
            &&& missing == Set::<u32>::empty() && !m.contains_key(u32::MAX) ==> forall|n: u32| #[trigger]
                next_free(m, n) ==> (if codes.len() > 0 && n + codes.len() - 1 > u32::MAX {
                r == Err::<(Vec<(u32, Color)>, Vec<u32>), IdAssignmentError>(
                    IdAssignmentError::Allocation(ProvinceIdIndexError::AllocationOverflow),
                )
            } else {
                r matches Ok((table, changes)) && table@ == index_pairs(m) + new_pairs(codes, n) && changes@
                    == Seq::new(codes.len(), |i: int| (n + i) as u32)
            })
        }),
{
    let ghost m = index@;
    let ids = index.ids();
    let pairs = index.iter();
    let mut k: usize = 0;
    while k < pairs.len()
        invariant
            k <= pairs@.len(),
            m == index@,
            ids@ == ascending_of(m.dom()),
            strictly_ascending(ids@),
            ids@.to_set() == m.dom(),
            pairs@.len() == ids@.len(),
            forall|j: int| 0 <= j < pairs@.len() ==> #[trigger] pairs@[j] == (ids@[j], m[ids@[j]]),
            forall|j: int| 0 <= j < k ==> map_colors@.contains(m[#[trigger] ids@[j]]),
        decreases pairs@.len() - k,
    {
        let (id, color) = pairs[k];
        if !has_color(map_colors, color) {
            proof {
                let missing = missing_ids(m, map_colors@);
                assert(ids@.to_set().contains(id));
                assert forall|o: u32| #[trigger] missing.contains(o) implies id <= o by {
                    assert(ids@.to_set().contains(o));
                    let j = choose|j: int| 0 <= j < ids@.len() && ids@[j] == o;
                    if j < k {
                        assert(map_colors@.contains(m[ids@[j]]));
                    }
                }
                assert(missing.contains(id));
            }
            return Err(IdAssignmentError::ColorMissingFromMap(id));
        }
        k = k + 1;
    }
    proof {
        let missing = missing_ids(m, map_colors@);
        assert forall|o: u32| !missing.contains(o) by {
            if missing.contains(o) {
                assert(ids@.to_set().contains(o));
                let j = choose|j: int| 0 <= j < ids@.len() && ids@[j] == o;
                assert(map_colors@.contains(m[ids@[j]]));
            }
        }
        assert(missing =~= Set::<u32>::empty());
    }
    let mut fresh: Vec<u32> = Vec::new();
    let mut i: usize = 0;
    let ghost pred = |c: Color| !m.contains_value(c);
    proof {
        assert(map_colors@.take(0).filter(pred) =~= Seq::<Color>::empty());
    }
    while i < map_colors.len()
        invariant
            i <= map_colors@.len(),
            m == index@,
            index.wf(),
            pred == |c: Color| !m.contains_value(c),
            fresh@ == map_colors@.take(i as int).filter(pred).map_values(|c: Color| color_code(c)),
        decreases map_colors@.len() - i,
    {
        let c = map_colors[i];
        let known = index.id_for_color(c);
        proof {
            lemma_filter_step(map_colors@, pred, i as int);
        }
        if known.is_none() {
            fresh.push(code_of(c));
        }
        i = i + 1;
        proof {
            assert(fresh@ =~= map_colors@.take(i as int).filter(pred).map_values(|c: Color| color_code(c)));
        }
    }
    proof {
        assert(map_colors@.take(map_colors@.len() as int) =~= map_colors@);
        assert(fresh@ == fresh_codes(m, map_colors@));
    }
    let codes = ascending_unique(&fresh);
    let n = match index.next_allocatable_id() {
        Ok(n) => n,
        Err(e) => {
            return Err(IdAssignmentError::Allocation(e));
        },
    };
    proof {
        assert(next_free(m, n));
        assert forall|x: u32| #[trigger] next_free(m, x) implies x == n by {
            if !m.is_empty() {
                assert(m.contains_key((x - 1) as u32));
                assert(m.contains_key((n - 1) as u32));
            }
        }
    }
    if codes.len() > 0 && (codes.len() - 1) as u64 > (u32::MAX - n) as u64 {
        return Err(IdAssignmentError::Allocation(ProvinceIdIndexError::AllocationOverflow));
    }
    let mut table = pairs;
    let mut changes: Vec<u32> = Vec::new();
    let ghost base = table@;
    let mut j: usize = 0;
    while j < codes.len()
        invariant
            j <= codes@.len(),
            codes@.len() > 0 ==> n + codes@.len() - 1 <= u32::MAX,
            table@ == base + new_pairs(codes@, n).take(j as int),
            changes@ == Seq::new(j as nat, |i: int| (n + i) as u32),
        decreases codes@.len() - j,
    {
        let id = n + j as u32;
        table.push((id, color_of(codes[j])));
        changes.push(id);
        j = j + 1;
        proof {
            assert(table@ =~= base + new_pairs(codes@, n).take(j as int));
            assert(changes@ =~= Seq::new(j as nat, |i: int| (n + i) as u32));
        }
    }
    proof {
        assert(new_pairs(codes@, n).take(codes@.len() as int) =~= new_pairs(codes@, n));
        assert(base =~= index_pairs(m));
    }
    Ok((table, changes))
}

} // verus!
