//! What the state map views draw, gathered once per project and edit
//! revision: each state's category color, manpower and demilitarised flag,
//! the category legend, the bounds of the manpower scale and the victory
//! point markers.
use vstd::prelude::*;
use std::collections::BTreeMap;
use crate::ascending::{ascending_of, ascending_unique, lemma_ascending_unique, strictly_ascending};
use crate::collections::map_keys;
use vstd::relations::sorted_by;
use crate::lexicographic::{
    key_injective_on, key_le, lemma_lex_irreflexive, lemma_lex_total, lemma_lex_transitive, lemma_lex_asymmetric,
    lemma_text_code, lex_less, lex_less_exec, text_code, text_code_vec, valid_text, views,
};
use crate::map_layers::Color;
use crate::presentation::{category_palette, category_palette_spec, UNCATEGORIZED_COLOR};
use crate::state::{clone_opt_str, opt_str_view, VictoryPoint};
use crate::text::same_text;

verus! {

broadcast use vstd::std_specs::btree::group_btree_axioms;

/// What the presentation reads of a state.
#[derive(Debug, Clone, Default)]
pub struct PresentationState {
    pub id: Option<u32>,
    pub state_category: Option<String>,
    pub manpower: Option<u64>,
    pub demilitarized_zone: Option<bool>,
    pub victory_points: Vec<VictoryPoint>,
}

/// For each state id, the position of the last of the first `n` states
/// with that id: a later state with an id replaces an earlier one.
pub open spec fn last_index(s: Seq<PresentationState>, n: int) -> Map<u32, usize>
    decreases n,
{
    if n <= 0 {
        Map::empty()
    } else {
        let m = last_index(s, n - 1);
        match s[n - 1].id {
            Some(id) => m.insert(id, (n - 1) as usize),
            None => m,
        }
    }
}

/// The states by id.
pub open spec fn state_positions(s: Seq<PresentationState>) -> Map<u32, usize> {
    last_index(s, s.len() as int)
}

proof fn lemma_last_index(s: Seq<PresentationState>, n: int)
    requires
        0 <= n <= s.len(),
        s.len() <= usize::MAX,
    ensures
        forall|id: u32| #[trigger] last_index(s, n).contains_key(id) ==> last_index(s, n)[id] < n
            && s[last_index(s, n)[id] as int].id == Some(id),
    decreases n,
{
    if n > 0 {
        lemma_last_index(s, n - 1);
    }
}

/// A category that a state names; an empty one counts as none.
pub open spec fn category_of(st: PresentationState) -> Option<Seq<char>> {
    match st.state_category {
        Some(c) => if c@.len() > 0 {
            Some(c@)
        } else {
            None
        },
        None => None,
    }
}

/// The categories that the states of a project use.
pub open spec fn used_categories(s: Seq<PresentationState>) -> Set<Seq<char>> {
    Set::new(
        |c: Seq<char>|
            exists|id: u32|
                #[trigger] state_positions(s).contains_key(id) && category_of(
                    s[state_positions(s)[id] as int],
                ) == Some(c),
    )
}

/// An entry of the category legend.
#[derive(Debug, Clone, PartialEq, Eq)]
pub struct CategoryLegendEntry {
    pub category: String,
    pub color: Color,
}

/// The category names of a legend.
pub open spec fn legend_names(l: Seq<CategoryLegendEntry>) -> Seq<Seq<char>> {
    l.map_values(|e: CategoryLegendEntry| e.category@)
}

/// The legend of a set of categories: each once, in text order, colored
/// by its position in the palette.
pub open spec fn is_legend_of(l: Seq<CategoryLegendEntry>, used: Set<Seq<char>>) -> bool {
    &&& forall|i: int, j: int|
        0 <= i < j < l.len() ==> lex_less(
            text_code(#[trigger] l[i].category@),
            text_code(#[trigger] l[j].category@),
        )
    &&& legend_names(l).to_set() == used
    &&& forall|k: int| 0 <= k < l.len() ==> (#[trigger] l[k]).color == category_palette_spec(k % 12)
}

fn index_states(states: &Vec<PresentationState>) -> (r: BTreeMap<u32, usize>)
    ensures
        r@ == state_positions(states@),
{
    let mut m: BTreeMap<u32, usize> = BTreeMap::new();
    let mut i: usize = 0;
    while i < states.len()
        invariant
            i <= states@.len(),
            m@ == last_index(states@, i as int),
        decreases states.len() - i,
    {
        match states[i].id {
            Some(id) => {
                m.insert(id, i);
            },
            None => {},
        }
        i = i + 1;
    }
    m
}

/// The non-empty category of a state, if any.
fn category_exec(st: &PresentationState) -> (r: Option<String>)
    ensures
        opt_str_view(r) == category_of(*st),
{
    match &st.state_category {
        Some(c) => if c.as_str().unicode_len() > 0 {
            Some(c.clone())
        } else {
            None
        },
        None => None,
    }
}

/// Adds a category to names kept in text order, each once.
fn insert_category(names: &mut Vec<String>, codes: &mut Vec<Vec<u64>>, name: String)
    requires
        old(names)@.len() == old(codes)@.len(),
        forall|k: int| 0 <= k < old(names)@.len() ==> (#[trigger] old(codes)@[k])@ == text_code(old(names)@[k]@),
        forall|k: int| 0 <= k < old(names)@.len() ==> valid_text(#[trigger] old(names)@[k]@),
        forall|i: int, j: int| 0 <= i < j < old(names)@.len() ==> lex_less(
            text_code(#[trigger] old(names)@[i]@),
            text_code(#[trigger] old(names)@[j]@),
        ),
    ensures
        final(names)@.len() == final(codes)@.len(),
        forall|k: int| 0 <= k < final(names)@.len() ==> (#[trigger] final(codes)@[k])@ == text_code(final(names)@[k]@),
        forall|k: int| 0 <= k < final(names)@.len() ==> valid_text(#[trigger] final(names)@[k]@),
        forall|i: int, j: int| 0 <= i < j < final(names)@.len() ==> lex_less(
            text_code(#[trigger] final(names)@[i]@),
            text_code(#[trigger] final(names)@[j]@),
        ),
        views(final(names)@).to_set() == views(old(names)@).to_set().insert(name@),
{
    let code = text_code_vec(name.as_str());
    let mut p: usize = 0;
    while p < codes.len() && lex_less_exec(&codes[p], &code)
        invariant
            p <= codes@.len(),
            names@.len() == codes@.len(),
            code@ == text_code(name@),
            forall|k: int| 0 <= k < names@.len() ==> (#[trigger] codes@[k])@ == text_code(names@[k]@),
            forall|k: int| 0 <= k < p ==> lex_less(text_code(#[trigger] names@[k]@), code@),
        decreases codes.len() - p,
    {
        p = p + 1;
    }
    let ghost before = views(names@);
    if p < codes.len() && !lex_less_exec(&code, &codes[p]) {
        proof {
            lemma_lex_total(codes@[p as int]@, code@);
            lemma_text_code(names@[p as int]@, name@);
            assert(names@[p as int]@ == name@);
            assert(before[p as int] == name@);
            assert(views(names@).to_set() =~= before.to_set().insert(name@));
        }
        return;
    }
    proof {
        assert forall|k: int| p <= k < names@.len() implies lex_less(code@, text_code(#[trigger] names@[k]@)) by {
            if k > p {
                assert(lex_less(text_code(names@[p as int]@), text_code(names@[k]@)));
                if p < codes@.len() {
                    lemma_lex_total(code@, text_code(names@[p as int]@));
                    if code@ == text_code(names@[p as int]@) {
                    } else if lex_less(text_code(names@[p as int]@), code@) {
                    }
                    lemma_lex_transitive(code@, text_code(names@[p as int]@), text_code(names@[k]@));
                }
            } else {
                lemma_lex_total(code@, codes@[p as int]@);
                lemma_lex_irreflexive(code@);
            }
        }
    }
    names.insert(p, name);
    codes.insert(p, code);
    proof {
        let n = names@;
        assert forall|k: int| 0 <= k < n.len() implies (#[trigger] codes@[k])@ == text_code(n[k]@) by {
            if k < p {
                assert(n[k] == old(names)@[k]);
            } else if k > p {
                assert(n[k] == old(names)@[k - 1]);
            }
        }
        assert forall|k: int| 0 <= k < n.len() implies valid_text(#[trigger] n[k]@) by {
            if k < p {
                assert(n[k] == old(names)@[k]);
            } else if k > p {
                assert(n[k] == old(names)@[k - 1]);
            }
        }
        assert forall|i: int, j: int| 0 <= i < j < n.len() implies lex_less(
            text_code(#[trigger] n[i]@),
            text_code(#[trigger] n[j]@),
        ) by {
            if j < p {
                assert(n[i] == old(names)@[i] && n[j] == old(names)@[j]);
            } else if j == p {
                assert(n[i] == old(names)@[i]);
            } else if i == p {
                assert(n[j] == old(names)@[j - 1]);
            } else if i < p {
                assert(n[i] == old(names)@[i] && n[j] == old(names)@[j - 1]);
                lemma_lex_transitive(text_code(n[i]@), code@, text_code(n[j]@));
            } else {
                assert(n[i] == old(names)@[i - 1] && n[j] == old(names)@[j - 1]);
            }
        }
        assert(views(n) =~= before.insert(p as int, name@));
        assert forall|x: Seq<char>| views(n).to_set().contains(x) == before.to_set().insert(name@).contains(x) by {
            if views(n).contains(x) {
                let k = choose|k: int| 0 <= k < views(n).len() && views(n)[k] == x;
                if k < p {
                    assert(before[k] == x);
                } else if k > p {
                    assert(before[k - 1] == x);
                }
            }
            if before.contains(x) {
                let k = choose|k: int| 0 <= k < before.len() && before[k] == x;
                if k < p {
                    assert(views(n)[k] == x);
                } else {
                    assert(views(n)[k + 1] == x);
                }
            }
            if x == name@ {
                assert(views(n)[p as int] == x);
            }
        }
        assert(views(n).to_set() =~= before.to_set().insert(name@));
    }
}

/// The legend of the categories the states use.
fn category_legend(states: &Vec<PresentationState>, index: &BTreeMap<u32, usize>) -> (r: Vec<
    CategoryLegendEntry,
>)
    requires
        index@ == state_positions(states@),
    ensures
        is_legend_of(r@, used_categories(states@)),
{
    proof {
        assert(states@.len() == states.len());
        lemma_last_index(states@, states@.len() as int);
    }
    let ids = map_keys(index);
    let mut names: Vec<String> = Vec::new();
    let mut codes: Vec<Vec<u64>> = Vec::new();
    let mut k: usize = 0;
    let ghost pos = index@;
    proof {
        assert(views(names@).to_set() =~= Set::<Seq<char>>::empty());
    }
    while k < ids.len()
        invariant
            k <= ids@.len(),
            ids@.to_set() == pos.dom(),
            pos == index@,
            pos == state_positions(states@),
            forall|id: u32| #[trigger] pos.contains_key(id) ==> pos[id] < states@.len(),
            names@.len() == codes@.len(),
            forall|m: int| 0 <= m < names@.len() ==> (#[trigger] codes@[m])@ == text_code(names@[m]@),
            forall|m: int| 0 <= m < names@.len() ==> valid_text(#[trigger] names@[m]@),
            forall|i: int, j: int| 0 <= i < j < names@.len() ==> lex_less(
                text_code(#[trigger] names@[i]@),
                text_code(#[trigger] names@[j]@),
            ),
            views(names@).to_set() == Set::new(
                |c: Seq<char>|
                    exists|j: int|
                        0 <= j < k && category_of(states@[pos[#[trigger] ids@[j]] as int]) == Some(c),
            ),
        decreases ids.len() - k,
    {
        let id = ids[k];
        assert(ids@.to_set().contains(id));
        let p = *index.get(&id).unwrap();
        let ghost before = views(names@).to_set();
        match category_exec(&states[p]) {
            Some(c) => {
                insert_category(&mut names, &mut codes, c);
            },
            None => {},
        }
        proof {
            assert(views(names@).to_set() =~= Set::new(
                |c: Seq<char>|
                    exists|j: int|
                        0 <= j < k + 1 && category_of(states@[pos[#[trigger] ids@[j]] as int]) == Some(c),
            )) by {
                assert forall|c: Seq<char>| views(names@).to_set().contains(c) == (exists|j: int|
                    0 <= j < k + 1 && category_of(states@[pos[#[trigger] ids@[j]] as int]) == Some(c)) by {
                    if exists|j: int| 0 <= j < k + 1 && category_of(states@[pos[#[trigger] ids@[j]] as int]) == Some(c) {
                        let j = choose|j: int| 0 <= j < k + 1 && category_of(states@[pos[#[trigger] ids@[j]] as int]) == Some(c);
                        if j < k {
                            assert(before.contains(c));
                        }
                    }
                    if before.contains(c) {
                        let j = choose|j: int| 0 <= j < k && category_of(states@[pos[#[trigger] ids@[j]] as int]) == Some(c);
                        assert(0 <= j < k + 1);
                    }
                    if category_of(states@[p as int]) == Some(c) {
                        assert(category_of(states@[pos[ids@[k as int]] as int]) == Some(c));
                    }
                }
            }
        }
        k = k + 1;
    }
    proof {
        assert(views(names@).to_set() =~= used_categories(states@)) by {
            assert forall|c: Seq<char>| views(names@).to_set().contains(c) == used_categories(states@).contains(c) by {
                if views(names@).to_set().contains(c) {
                    let j = choose|j: int| 0 <= j < ids@.len() && category_of(states@[pos[#[trigger] ids@[j]] as int]) == Some(c);
                    assert(ids@.to_set().contains(ids@[j]));
                    assert(state_positions(states@).contains_key(ids@[j]));
                }
                if used_categories(states@).contains(c) {
                    let id = choose|id: u32| #[trigger] state_positions(states@).contains_key(id) && category_of(
                        states@[state_positions(states@)[id] as int],
                    ) == Some(c);
                    assert(ids@.to_set().contains(id));
                    let j = choose|j: int| 0 <= j < ids@.len() && ids@[j] == id;
                    assert(category_of(states@[pos[ids@[j]] as int]) == Some(c));
                }
            }
        }
    }
    let mut legend: Vec<CategoryLegendEntry> = Vec::new();
    let mut i: usize = 0;
    let n = names.len();
    let mut rest = names;
    let ghost all = rest@;
    proof {
        assert(rest@.skip(0) =~= all);
    }
    while i < n
        invariant
            n == all.len(),
            i <= n,
            rest@ == all.skip(i as int),
            legend@.len() == i,
            forall|m: int| 0 <= m < i ==> (#[trigger] legend@[m]).category@ == all[m]@ && legend@[m].color
                == category_palette_spec(m % 12),
        decreases n - i,
    {
        let name = rest.remove(0);
        assert(all.skip(i as int)[0] == name);
        assert(rest@ =~= all.skip(i + 1));
        let color = category_palette((i % 12) as u32);
        legend.push(CategoryLegendEntry { category: name, color });
        i = i + 1;
    }
    proof {
        assert(legend_names(legend@) =~= views(all));
    }
    legend
}

/// The legend color of a category: the color of its legend entry; grey
/// for a state without a category or with one the legend lacks.
pub open spec fn legend_color(l: Seq<CategoryLegendEntry>, c: Option<Seq<char>>) -> Color {
    match c {
        Some(x) => if exists|k: int| 0 <= k < l.len() && (#[trigger] l[k]).category@ == x {
            l[choose|k: int| 0 <= k < l.len() && (#[trigger] l[k]).category@ == x].color
        } else {
            UNCATEGORIZED_COLOR
        },
        None => UNCATEGORIZED_COLOR,
    }
}

fn legend_color_exec(legend: &Vec<CategoryLegendEntry>, c: &Option<String>) -> (r: Color)
    requires
        forall|i: int, j: int|
            0 <= i < j < legend@.len() ==> lex_less(
                text_code(#[trigger] legend@[i].category@),
                text_code(#[trigger] legend@[j].category@),
            ),
    ensures
        r == legend_color(legend@, opt_str_view(*c)),
{
    let name = match c {
        Some(name) => name,
        None => {
            return UNCATEGORIZED_COLOR;
        },
    };
    let mut k: usize = 0;
    while k < legend.len()
        invariant
            k <= legend@.len(),
            opt_str_view(*c) == Some(name@),
            forall|i: int, j: int|
                0 <= i < j < legend@.len() ==> lex_less(
                    text_code(#[trigger] legend@[i].category@),
                    text_code(#[trigger] legend@[j].category@),
                ),
            forall|m: int| 0 <= m < k ==> (#[trigger] legend@[m]).category@ != name@,
        decreases legend.len() - k,
    {
        if same_text(legend[k].category.as_str(), name.as_str()) {
            proof {
                assert forall|j: int| 0 <= j < legend@.len() && (#[trigger] legend@[j]).category@ == name@ implies j
                    == k by {
                    if j > k {
                        assert(lex_less(text_code(legend@[k as int].category@), text_code(legend@[j].category@)));
                        lemma_lex_irreflexive(text_code(name@));
                    }
                }
                assert(legend@[k as int].category@ == name@);
                let w = choose|j: int| 0 <= j < legend@.len() && (#[trigger] legend@[j]).category@ == name@;
                assert(w == k);
                assert(opt_str_view(*c) == Some(name@));
            }
            return legend[k].color;
        }
        k = k + 1;
    }
    UNCATEGORIZED_COLOR
}

// ---------------------------------------------------------------------------
// Victory points and manpower
// ---------------------------------------------------------------------------

/// The victory points of the states of `ids`, state after state.
pub open spec fn vp_sequence(s: Seq<PresentationState>, pos: Map<u32, usize>, ids: Seq<u32>) -> Seq<
    VictoryPoint,
>
    decreases ids.len(),
{
    if ids.len() == 0 {
        Seq::empty()
    } else {
        vp_sequence(s, pos, ids.drop_last()) + s[pos[ids.last()] as int].victory_points@
    }
}

/// The value of each province's first victory point.
pub open spec fn first_values(v: Seq<VictoryPoint>) -> Map<u32, i64>
    decreases v.len(),
{
    if v.len() == 0 {
        Map::empty()
    } else {
        let m = first_values(v.drop_last());
        if m.contains_key(v.last().province_id) {
            m
        } else {
            m.insert(v.last().province_id, v.last().value)
        }
    }
}

/// The victory point markers: for each province, the first victory point
/// of the states taken in id order.
pub open spec fn marker_values(s: Seq<PresentationState>) -> Map<u32, i64> {
    first_values(vp_sequence(s, state_positions(s), ascending_of(state_positions(s).dom())))
}

/// The positive manpower of the states of `ids`, in that order.
pub open spec fn manpower_values(s: Seq<PresentationState>, pos: Map<u32, usize>, ids: Seq<u32>) -> Seq<
    u64,
>
    decreases ids.len(),
{
    if ids.len() == 0 {
        Seq::empty()
    } else {
        let rest = manpower_values(s, pos, ids.drop_last());
        match s[pos[ids.last()] as int].manpower {
            Some(v) => if v > 0 {
                rest.push(v)
            } else {
                rest
            },
            None => rest,
        }
    }
}

pub open spec fn single_key() -> spec_fn(u64) -> Seq<u64> {
    |v: u64| seq![v]
}

/// Values in increasing order.
pub open spec fn sorted_values(v: Seq<u64>) -> Seq<u64> {
    choose|r: Seq<u64>| sorted_by(r, key_le(single_key())) && r.to_multiset() == v.to_multiset()
}

/// The low and high ends of the manpower scale: the smallest positive
/// manpower, and the value at nine tenths of the way through them in
/// increasing order (rounded down), so that a lone outlier does not become
/// the whole scale; both 0 without positive manpower.
pub open spec fn manpower_bounds(values: Seq<u64>) -> (u64, u64) {
    let sorted = sorted_values(values);
    if values.len() == 0 {
        (0, 0)
    } else {
        (sorted[0], sorted[(values.len() - 1) * 9 / 10])
    }
}

proof fn lemma_sorted_values_is(v: Seq<u64>, r: Seq<u64>)
    requires
        sorted_by(r, key_le(single_key())),
        r.to_multiset() == v.to_multiset(),
    ensures
        sorted_values(v) == r,
{
    let c = sorted_values(v);
    assert(sorted_by(c, key_le(single_key())) && c.to_multiset() == v.to_multiset());
    assert(key_injective_on(r, single_key())) by {
        assert forall|a: u64, b: u64| r.contains(a) && r.contains(b) && single_key()(a) == single_key()(b) implies a == b by {
            assert(single_key()(a)[0] == a);
            assert(single_key()(b)[0] == b);
        }
    }
    crate::lexicographic::lemma_sorted_by_key_unique(r, c, single_key());
}

// ---------------------------------------------------------------------------
// The presentation
// ---------------------------------------------------------------------------

/// What the map shows of one state.
#[derive(Debug, Clone, PartialEq, Eq)]
pub struct StatePresentation {
    pub state_id: u32,
    pub category: Option<String>,
    pub category_color: Color,
    pub manpower: Option<u64>,
    pub demilitarized_zone: bool,
}

/// What the map views draw, for one project generation and state revision.
#[derive(Debug, Clone)]
pub struct MapPresentationModel {
    pub generation: u64,
    pub state_revision: u64,
    pub states: BTreeMap<u32, StatePresentation>,
    pub victory_points: Vec<VictoryPoint>,
    pub category_legend: Vec<CategoryLegendEntry>,
    pub manpower_low: u64,
    pub manpower_high: u64,
}

/// Whether `p` shows the state `st` with id `id` under the legend.
pub open spec fn presents(
    p: StatePresentation,
    id: u32,
    st: PresentationState,
    legend: Seq<CategoryLegendEntry>,
) -> bool {
    &&& p.state_id == id
    &&& opt_str_view(p.category) == opt_str_view(st.state_category)
    &&& p.category_color == legend_color(legend, category_of(st))
    &&& p.manpower == st.manpower
    &&& p.demilitarized_zone == (st.demilitarized_zone == Some(true))
}

proof fn lemma_ascending_of_is(s: Set<u32>, v: Seq<u32>)
    requires
        strictly_ascending(v),
        v.to_set() == s,
    ensures
        ascending_of(s) == v,
{
    let c = ascending_of(s);
    assert(strictly_ascending(c) && c.to_set() == s);
    lemma_ascending_unique(c, v);
}

fn push_victory_points(
    markers: &mut BTreeMap<u32, i64>,
    vps: &Vec<VictoryPoint>,
    Ghost(before): Ghost<Seq<VictoryPoint>>,
)
    requires
        old(markers)@ == first_values(before),
    ensures
        final(markers)@ == first_values(before + vps@),
{
    let mut j: usize = 0;
    proof {
        assert(before + vps@.take(0) =~= before);
    }
    while j < vps.len()
        invariant
            j <= vps@.len(),
            markers@ == first_values(before + vps@.take(j as int)),
        decreases vps.len() - j,
    {
        let vp = vps[j];
        proof {
            assert((before + vps@.take(j + 1)).drop_last() =~= before + vps@.take(j as int));
            assert((before + vps@.take(j + 1)).last() == vp);
        }
        if !markers.contains_key(&vp.province_id) {
            markers.insert(vp.province_id, vp.value);
        }
        j = j + 1;
    }
    proof {
        assert(vps@.take(vps@.len() as int) =~= vps@);
    }
}

/// Gathers what the map views draw from the states of a project: states
/// by id (a later state with an id replaces an earlier one), the legend of
/// the categories they use, the bounds of the manpower scale and, for each
/// province, its first victory point with the states taken in id order.
pub fn build_map_presentation(generation: u64, state_revision: u64, states: &Vec<PresentationState>) -> (r:
    MapPresentationModel)
    ensures
        r.generation == generation,
        r.state_revision == state_revision,
        is_legend_of(r.category_legend@, used_categories(states@)),
        r.states@.dom() == state_positions(states@).dom(),
        forall|id: u32| #[trigger]
            r.states@.contains_key(id) ==> presents(
                r.states@[id],
                id,
                states@[state_positions(states@)[id] as int],
                r.category_legend@,
            ),
        r.victory_points@.map_values(|v: VictoryPoint| v.province_id) == ascending_of(
            marker_values(states@).dom(),
        ),
        forall|k: int| 0 <= k < r.victory_points@.len() ==> (#[trigger] r.victory_points@[k]).value
            == marker_values(states@)[r.victory_points@[k].province_id],
        (r.manpower_low, r.manpower_high) == manpower_bounds(
            manpower_values(states@, state_positions(states@), ascending_of(state_positions(states@).dom())),
        ),
{
    let index = index_states(states);
    proof {
        assert(states@.len() == states.len());
        lemma_last_index(states@, states@.len() as int);
    }
    let legend = category_legend(states, &index);
    let ids = ascending_unique(&map_keys(&index));
    let ghost pos = index@;
    proof {
        lemma_ascending_of_is(pos.dom(), ids@);
    }
    let mut shown: BTreeMap<u32, StatePresentation> = BTreeMap::new();
    let mut markers: BTreeMap<u32, i64> = BTreeMap::new();
    let mut values: Vec<u64> = Vec::new();
    let mut k: usize = 0;
    proof {
        assert(ids@.take(0) =~= Seq::<u32>::empty());
        assert(shown@.dom() =~= ids@.take(0).to_set());
    }
    while k < ids.len()
        invariant
            k <= ids@.len(),
            pos == index@,
            pos == state_positions(states@),
            strictly_ascending(ids@),
            ids@.to_set() == pos.dom(),
            forall|id: u32| #[trigger] pos.contains_key(id) ==> pos[id] < states@.len(),
            forall|i: int, j: int|
                0 <= i < j < legend@.len() ==> lex_less(
                    text_code(#[trigger] legend@[i].category@),
                    text_code(#[trigger] legend@[j].category@),
                ),
            shown@.dom() == ids@.take(k as int).to_set(),
            forall|id: u32| #[trigger]
                shown@.contains_key(id) ==> presents(shown@[id], id, states@[pos[id] as int], legend@),
            markers@ == first_values(vp_sequence(states@, pos, ids@.take(k as int))),
            values@ == manpower_values(states@, pos, ids@.take(k as int)),
        decreases ids.len() - k,
    {
        let id = ids[k];
        assert(ids@.to_set().contains(id));
        let p = *index.get(&id).unwrap();
        let st = &states[p];
        let color = legend_color_exec(&legend, &category_exec(st));
        let dmz = match st.demilitarized_zone {
            Some(true) => true,
            _ => false,
        };
        let shown_state = StatePresentation {
            state_id: id,
            category: clone_opt_str(&st.state_category),
            category_color: color,
            manpower: st.manpower,
            demilitarized_zone: dmz,
        };
        let ghost shown_before = shown@;
        shown.insert(id, shown_state);
        proof {
            let t1 = ids@.take(k + 1);
            assert(t1.drop_last() =~= ids@.take(k as int));
            assert(t1.last() == id);
            assert(t1 =~= ids@.take(k as int).push(id));
            crate::facts::lemma_push_to_set(ids@.take(k as int), id);
            assert(shown@.dom() =~= t1.to_set());
            assert forall|x: u32| #[trigger] shown@.contains_key(x) implies presents(
                shown@[x],
                x,
                states@[pos[x] as int],
                legend@,
            ) by {
                if x != id {
                    assert(shown_before.contains_key(x));
                }
            }
        }
        push_victory_points(&mut markers, &st.victory_points, Ghost(vp_sequence(states@, pos, ids@.take(k as int))));
        match st.manpower {
            Some(v) => if v > 0 {
                values.push(v);
            },
            None => {},
        }
        k = k + 1;
    }
    proof {
        assert(ids@.take(ids@.len() as int) =~= ids@);
    }
    let keys = ascending_unique(&map_keys(&markers));
    proof {
        lemma_ascending_of_is(markers@.dom(), keys@);
    }
    let mut points: Vec<VictoryPoint> = Vec::new();
    let mut i: usize = 0;
    while i < keys.len()
        invariant
            i <= keys@.len(),
            keys@.to_set() == markers@.dom(),
            points@.len() == i,
            forall|m: int| 0 <= m < i ==> (#[trigger] points@[m]).province_id == keys@[m]
                && points@[m].value == markers@[keys@[m]],
        decreases keys.len() - i,
    {
        let province_id = keys[i];
        assert(keys@.to_set().contains(province_id));
        let value = *markers.get(&province_id).unwrap();
        points.push(VictoryPoint { province_id, value });
        i = i + 1;
    }
    proof {
        assert(points@.map_values(|v: VictoryPoint| v.province_id) =~= keys@);
    }
    let (low, high) = manpower_scale(values);
    MapPresentationModel {
        generation,
        state_revision,
        states: shown,
        victory_points: points,
        category_legend: legend,
        manpower_low: low,
        manpower_high: high,
    }
}

/// The bounds of the manpower scale of some positive manpower values.
fn manpower_scale(values: Vec<u64>) -> (r: (u64, u64))
    ensures
        r == manpower_bounds(values@),
{
    let n = values.len();
    let ghost original = values@;
    let mut keys: Vec<Vec<u64>> = Vec::new();
    let mut i: usize = 0;
    while i < n
        invariant
            n == values@.len(),
            i <= n,
            keys@.len() == i,
            forall|m: int| 0 <= m < i ==> (#[trigger] keys@[m])@ == single_key()(values@[m]@),
        decreases n - i,
    {
        let mut key: Vec<u64> = Vec::new();
        key.push(values[i]);
        proof {
            assert(key@ =~= single_key()(values@[i as int]@));
        }
        keys.push(key);
        i = i + 1;
    }
    let sorted = crate::lexicographic::sort_by_keys(values, keys, Ghost(single_key()));
    proof {
        assert(views(sorted@) =~= sorted@);
        assert(views(original) =~= original);
        lemma_sorted_values_is(original, sorted@);
        vstd::seq_lib::to_multiset_len(sorted@);
        vstd::seq_lib::to_multiset_len(original);
        assert(sorted@.len() == original.len());
    }
    if n == 0 {
        (0, 0)
    } else {
        let hi = (n - 1) / 10 * 9 + (n - 1) % 10 * 9 / 10;
        proof {
            assert(hi == (n - 1) * 9 / 10) by (nonlinear_arith)
                requires
                    hi == (n - 1) / 10 * 9 + (n - 1) % 10 * 9 / 10,
                    n >= 1,
            ;
            assert((n - 1) * 9 / 10 < n) by (nonlinear_arith)
                requires
                    n >= 1,
            ;
        }
        (sorted[0], sorted[hi])
    }
}

} // verus!
