//! Indexes of loaded state documents: the document of each state id, the
//! state of each province, provinces claimed by several states, and land
//! without a state.
use vstd::prelude::*;
use std::collections::BTreeMap;
use std::collections::BTreeSet;
use std::collections::HashMap;
use crate::ascending::{
    ascending_of, ascending_unique, insert_ascending, lemma_ascending_unique, strictly_ascending,
};
use crate::collections::{map_keys, set_items};
use crate::diagnostics::{
    new_diagnostic_view, DiagnosticSeverity, DiagnosticView, ProjectDiagnostic,
    ProjectDiagnosticKind,
};
use crate::lexicographic::views;
use crate::text::{decimal, push_decimal};

verus! {

broadcast use {vstd::std_specs::btree::group_btree_axioms, vstd::std_specs::hash::group_hash_axioms};

/// What parsing a state file gave: its id, if any, and its provinces in order.
#[derive(Debug, Clone, PartialEq, Eq)]
pub struct ParsedState {
    pub id: Option<u32>,
    pub provinces: Vec<u32>,
}

/// A loaded state file: its path, what it held, and what parsing it found.
#[derive(Debug, Clone, PartialEq, Eq)]
pub struct StateDocument {
    pub path: String,
    pub data: Option<ParsedState>,
    pub diagnostics: Vec<ProjectDiagnostic>,
}

/// The indexes of a set of state documents.
#[derive(Debug, Clone)]
pub struct StateIndexes {
    pub states_by_id: BTreeMap<u32, usize>,
    pub state_by_province: HashMap<u32, u32>,
    pub ambiguous_provinces: BTreeMap<u32, Vec<u32>>,
    pub unassigned_land_provinces: BTreeSet<u32>,
    pub diagnostics: Vec<ProjectDiagnostic>,
    pub document_count: usize,
    pub parsed_state_count: usize,
    pub indexed_state_count: usize,
    pub indexed_province_count: usize,
    pub ambiguous_province_count: usize,
    pub land_without_state_count: usize,
}

/// What indexing has gathered after some documents.
pub struct IndexFold {
    pub by_id: Map<u32, usize>,
    pub by_province: Map<u32, u32>,
    pub province_states: Map<u32, Set<u32>>,
    pub diagnostics: Seq<DiagnosticView>,
    pub parsed: nat,
    pub indexed: nat,
}

pub open spec fn empty_fold() -> IndexFold {
    IndexFold {
        by_id: Map::empty(),
        by_province: Map::empty(),
        province_states: Map::empty(),
        diagnostics: Seq::empty(),
        parsed: 0,
        indexed: 0,
    }
}

/// An error about a document.
pub open spec fn document_error(
    kind: ProjectDiagnosticKind,
    path: Seq<char>,
    message: Seq<char>,
) -> DiagnosticView {
    new_diagnostic_view(kind, DiagnosticSeverity::Error, Some(path), None, message)
}

/// Indexing one province of a state: province 0 and provinces outside the
/// map are errors; otherwise the state is recorded for the province, the
/// first state keeps it, and a later state is an error.
pub open spec fn province_step(
    f: IndexFold,
    path: Seq<char>,
    state_id: u32,
    p: u32,
    valid: Set<u32>,
) -> IndexFold {
    if p == 0 {
        IndexFold {
            diagnostics: f.diagnostics.push(
                document_error(
                    ProjectDiagnosticKind::UnknownProvince,
                    path,
                    "state "@ + decimal(state_id as nat) + " references province 0"@,
                ),
            ),
            ..f
        }
    } else if !valid.contains(p) {
        IndexFold {
            diagnostics: f.diagnostics.push(
                document_error(
                    ProjectDiagnosticKind::UnknownProvince,
                    path,
                    "state "@ + decimal(state_id as nat) + " references unknown province "@
                        + decimal(p as nat),
                ),
            ),
            ..f
        }
    } else {
        let states = if f.province_states.contains_key(p) {
            f.province_states[p]
        } else {
            Set::empty()
        };
        let by_province = if f.by_province.contains_key(p) {
            f.by_province
        } else {
            f.by_province.insert(p, state_id)
        };
        IndexFold {
            province_states: f.province_states.insert(p, states.insert(state_id)),
            by_province,
            diagnostics: if by_province[p] != state_id {
                f.diagnostics.push(
                    document_error(
                        ProjectDiagnosticKind::ProvinceInMultipleStates,
                        path,
                        "province "@ + decimal(p as nat) + " is assigned to multiple states"@,
                    ),
                )
            } else {
                f.diagnostics
            },
            ..f
        }
    }
}

pub open spec fn provinces_fold(
    f: IndexFold,
    path: Seq<char>,
    state_id: u32,
    ps: Seq<u32>,
    valid: Set<u32>,
) -> IndexFold
    decreases ps.len(),
{
    if ps.len() == 0 {
        f
    } else {
        province_step(provinces_fold(f, path, state_id, ps.drop_last(), valid), path, state_id, ps.last(), valid)
    }
}

proof fn lemma_provinces_fold_keeps(
    f: IndexFold,
    path: Seq<char>,
    state_id: u32,
    ps: Seq<u32>,
    valid: Set<u32>,
)
    ensures
        provinces_fold(f, path, state_id, ps, valid).by_id == f.by_id,
        provinces_fold(f, path, state_id, ps, valid).parsed == f.parsed,
        provinces_fold(f, path, state_id, ps, valid).indexed == f.indexed,
    decreases ps.len(),
{
    if ps.len() > 0 {
        lemma_provinces_fold_keeps(f, path, state_id, ps.drop_last(), valid);
    }
}

/// Indexing one document: its own diagnostics, then, for a parsed state,
/// its id (missing, 0, or already used are errors) and its provinces.
pub open spec fn document_step(f: IndexFold, docs: Seq<StateDocument>, di: int, valid: Set<u32>) -> IndexFold {
    let d = docs[di];
    let f1 = IndexFold { diagnostics: f.diagnostics + views(d.diagnostics@), ..f };
    match d.data {
        None => f1,
        Some(data) => {
            let f2 = IndexFold { parsed: f1.parsed + 1, ..f1 };
            match data.id {
                None => IndexFold {
                    diagnostics: f2.diagnostics.push(
                        document_error(
                            ProjectDiagnosticKind::MissingStateId,
                            d.path@,
                            "state is missing an id"@,
                        ),
                    ),
                    ..f2
                },
                Some(id) => if id == 0 {
                    IndexFold {
                        diagnostics: f2.diagnostics.push(
                            document_error(
                                ProjectDiagnosticKind::ZeroStateId,
                                d.path@,
                                "state id must not be 0"@,
                            ),
                        ),
                        ..f2
                    }
                } else if f2.by_id.contains_key(id) {
                    IndexFold {
                        diagnostics: f2.diagnostics.push(
                            DiagnosticView {
                                related_path: Some(docs[f2.by_id[id] as int].path@),
                                ..document_error(
                                    ProjectDiagnosticKind::DuplicateStateId,
                                    d.path@,
                                    "state id "@ + decimal(id as nat) + " is already used"@,
                                )
                            },
                        ),
                        ..f2
                    }
                } else {
                    provinces_fold(
                        IndexFold {
                            by_id: f2.by_id.insert(id, di as usize),
                            indexed: f2.indexed + 1,
                            ..f2
                        },
                        d.path@,
                        id,
                        data.provinces@,
                        valid,
                    )
                },
            }
        },
    }
}

pub open spec fn documents_fold(docs: Seq<StateDocument>, n: int, valid: Set<u32>) -> IndexFold
    decreases n,
{
    if n <= 0 {
        empty_fold()
    } else {
        document_step(documents_fold(docs, n - 1, valid), docs, n - 1, valid)
    }
}

/// The maps and lists that indexing fills.
struct IndexWork {
    by_id: BTreeMap<u32, usize>,
    by_province: HashMap<u32, u32>,
    province_states: BTreeMap<u32, Vec<u32>>,
    diagnostics: Vec<ProjectDiagnostic>,
    parsed: usize,
    indexed: usize,
}

spec fn work_matches(w: IndexWork, f: IndexFold) -> bool {
    &&& w.by_id@ == f.by_id
    &&& w.by_province@ == f.by_province
    &&& forall|p: u32| #[trigger] w.province_states@.contains_key(p) == f.province_states.contains_key(p)
    &&& forall|p: u32| #[trigger] w.province_states@.contains_key(p) ==> strictly_ascending(
        w.province_states@[p]@,
    ) && w.province_states@[p]@.to_set() == f.province_states[p]
    &&& views(w.diagnostics@) == f.diagnostics
    &&& w.parsed == f.parsed
    &&& w.indexed == f.indexed
}

fn document_error_exec(kind: ProjectDiagnosticKind, path: &String, message: String) -> (r:
    ProjectDiagnostic)
    ensures
        r@ == document_error(kind, path@, message@),
{
    ProjectDiagnostic::new(kind, DiagnosticSeverity::Error, Some(path.clone()), None, message)
}

fn push_diagnostic(w: &mut IndexWork, d: ProjectDiagnostic)
    ensures
        views(final(w).diagnostics@) == views(old(w).diagnostics@).push(d@),
        final(w).by_id == old(w).by_id,
        final(w).by_province == old(w).by_province,
        final(w).province_states == old(w).province_states,
        final(w).parsed == old(w).parsed,
        final(w).indexed == old(w).indexed,
{
    w.diagnostics.push(d);
    assert(views(w.diagnostics@) =~= views(old(w).diagnostics@).push(d@));
}

fn index_province(
    w: &mut IndexWork,
    path: &String,
    state_id: u32,
    p: u32,
    valid: &BTreeSet<u32>,
    Ghost(f): Ghost<IndexFold>,
)
    requires
        work_matches(*old(w), f),
    ensures
        work_matches(*final(w), province_step(f, path@, state_id, p, valid@)),
{
    if p == 0 {
        let mut message = String::from_str("state ");
        push_decimal(&mut message, state_id as u64);
        message.append(" references province 0");
        let d = document_error_exec(ProjectDiagnosticKind::UnknownProvince, path, message);
        push_diagnostic(w, d);
        return;
    }
    if !valid.contains(&p) {
        let mut message = String::from_str("state ");
        push_decimal(&mut message, state_id as u64);
        message.append(" references unknown province ");
        push_decimal(&mut message, p as u64);
        let d = document_error_exec(ProjectDiagnosticKind::UnknownProvince, path, message);
        push_diagnostic(w, d);
        return;
    }
    let mut states = match w.province_states.remove(&p) {
        Some(v) => v,
        None => Vec::new(),
    };
    assert(strictly_ascending(states@) && states@.to_set() == (if f.province_states.contains_key(p) {
        f.province_states[p]
    } else {
        Set::empty()
    })) by {
        if !f.province_states.contains_key(p) {
            assert(states@.to_set() =~= Set::<u32>::empty());
        }
    }
    insert_ascending(&mut states, state_id);
    w.province_states.insert(p, states);
    if !w.by_province.contains_key(&p) {
        w.by_province.insert(p, state_id);
    }
    let owner = match w.by_province.get(&p) {
        Some(o) => *o,
        None => state_id,
    };
    if owner != state_id {
        let mut message = String::from_str("province ");
        push_decimal(&mut message, p as u64);
        message.append(" is assigned to multiple states");
        let d = document_error_exec(ProjectDiagnosticKind::ProvinceInMultipleStates, path, message);
        push_diagnostic(w, d);
    }
    proof {
        let g = province_step(f, path@, state_id, p, valid@);
        assert forall|q: u32| #[trigger] w.province_states@.contains_key(q)
            == g.province_states.contains_key(q) by {}
        assert forall|q: u32| #[trigger] w.province_states@.contains_key(q) implies strictly_ascending(
            w.province_states@[q]@,
        ) && w.province_states@[q]@.to_set() == g.province_states[q] by {
            if q != p {
                assert(old(w).province_states@.contains_key(q));
            }
        }
    }
}

fn index_provinces(
    w: &mut IndexWork,
    path: &String,
    state_id: u32,
    ps: &Vec<u32>,
    valid: &BTreeSet<u32>,
    Ghost(f): Ghost<IndexFold>,
)
    requires
        work_matches(*old(w), f),
    ensures
        work_matches(*final(w), provinces_fold(f, path@, state_id, ps@, valid@)),
{
    let mut i: usize = 0;
    assert(ps@.take(0) =~= Seq::<u32>::empty());
    while i < ps.len()
        invariant
            i <= ps@.len(),
            work_matches(*w, provinces_fold(f, path@, state_id, ps@.take(i as int), valid@)),
        decreases ps.len() - i,
    {
        let ghost g = provinces_fold(f, path@, state_id, ps@.take(i as int), valid@);
        index_province(w, path, state_id, ps[i], valid, Ghost(g));
        assert(ps@.take(i + 1).drop_last() =~= ps@.take(i as int));
        i = i + 1;
    }
    assert(ps@.take(ps.len() as int) =~= ps@);
}

fn index_document(
    w: &mut IndexWork,
    docs: &Vec<StateDocument>,
    di: usize,
    valid: &BTreeSet<u32>,
    Ghost(f): Ghost<IndexFold>,
)
    requires
        di < docs@.len(),
        work_matches(*old(w), f),
        old(w).parsed <= di,
        old(w).indexed <= di,
        forall|id: u32| #[trigger] f.by_id.contains_key(id) ==> f.by_id[id] < di,
    ensures
        work_matches(*final(w), document_step(f, docs@, di as int, valid@)),
        final(w).parsed <= di + 1,
        final(w).indexed <= di + 1,
        forall|id: u32| #[trigger] document_step(f, docs@, di as int, valid@).by_id.contains_key(id)
            ==> document_step(f, docs@, di as int, valid@).by_id[id] < di + 1,
{
    let d = &docs[di];
    let mut k: usize = 0;
    let ghost start = views(w.diagnostics@);
    while k < d.diagnostics.len()
        invariant
            k <= d.diagnostics@.len(),
            w.by_id@ == f.by_id,
            w.by_province@ == f.by_province,
            w.province_states == old(w).province_states,
            w.parsed == f.parsed,
            w.indexed == f.indexed,
            w.parsed <= di,
            w.indexed <= di,
            di < docs@.len(),
            views(w.diagnostics@) == start + views(d.diagnostics@).take(k as int),
        decreases d.diagnostics.len() - k,
    {
        let copy = d.diagnostics[k].duplicate();
        push_diagnostic(w, copy);
        assert(views(d.diagnostics@).take(k + 1) =~= views(d.diagnostics@).take(k as int).push(
            d.diagnostics@[k as int]@,
        ));
        k = k + 1;
    }
    assert(views(d.diagnostics@).take(d.diagnostics.len() as int) =~= views(d.diagnostics@));
    let data = match &d.data {
        None => {
            return;
        },
        Some(data) => data,
    };
    assert(w.parsed <= di);
    let count = docs.len();
    assert(di < count);
    w.parsed = w.parsed + 1;
    let id = match data.id {
        None => {
            let d2 = document_error_exec(
                ProjectDiagnosticKind::MissingStateId,
                &d.path,
                String::from_str("state is missing an id"),
            );
            push_diagnostic(w, d2);
            return;
        },
        Some(id) => id,
    };
    if id == 0 {
        let d2 = document_error_exec(
            ProjectDiagnosticKind::ZeroStateId,
            &d.path,
            String::from_str("state id must not be 0"),
        );
        push_diagnostic(w, d2);
        return;
    }
    match w.by_id.get(&id) {
        Some(first) => {
            let first = *first;
            let mut message = String::from_str("state id ");
            push_decimal(&mut message, id as u64);
            message.append(" is already used");
            let mut d2 = document_error_exec(ProjectDiagnosticKind::DuplicateStateId, &d.path, message);
            d2.related_path = Some(docs[first].path.clone());
            push_diagnostic(w, d2);
            return;
        },
        None => {},
    }
    w.by_id.insert(id, di);
    w.indexed = w.indexed + 1;
    let ghost f3 = IndexFold {
        by_id: f.by_id.insert(id, di),
        indexed: f.indexed + 1,
        parsed: f.parsed + 1,
        diagnostics: f.diagnostics + views(d.diagnostics@),
        ..f
    };
    index_provinces(w, &d.path, id, &data.provinces, valid, Ghost(f3));
    proof {
        lemma_provinces_fold_keeps(f3, d.path@, id, data.provinces@, valid@);
    }
}

/// Land provinces on the map that no indexed state holds.
pub open spec fn unassigned_land(f: IndexFold, valid: Set<u32>, land: Set<u32>) -> Set<u32> {
    land.filter(|p: u32| valid.contains(p) && !f.by_province.contains_key(p))
}

/// The warnings for land provinces without a state, in id order.
pub open spec fn land_warnings(f: IndexFold, valid: Set<u32>, land: Seq<u32>) -> Seq<DiagnosticView>
    decreases land.len(),
{
    if land.len() == 0 {
        Seq::empty()
    } else {
        let rest = land_warnings(f, valid, land.drop_last());
        let p = land.last();
        if valid.contains(p) && !f.by_province.contains_key(p) {
            rest.push(
                new_diagnostic_view(
                    ProjectDiagnosticKind::LandProvinceWithoutState,
                    DiagnosticSeverity::Warning,
                    None,
                    None,
                    "land province "@ + decimal(p as nat) + " is not assigned to any state"@,
                ),
            )
        } else {
            rest
        }
    }
}

proof fn lemma_ascending_of_witness(st: Set<u32>, v: Seq<u32>)
    requires
        strictly_ascending(v),
        v.to_set() == st,
    ensures
        ascending_of(st) == v,
{
    let c = ascending_of(st);
    assert(strictly_ascending(c) && c.to_set() == st);
    lemma_ascending_unique(c, v);
}

fn copy_ids(v: &Vec<u32>) -> (r: Vec<u32>)
    ensures
        r@ == v@,
{
    let mut out: Vec<u32> = Vec::new();
    let mut i: usize = 0;
    while i < v.len()
        invariant
            i <= v@.len(),
            out@ == v@.take(i as int),
        decreases v.len() - i,
    {
        out.push(v[i]);
        i = i + 1;
        assert(out@ =~= v@.take(i as int));
    }
    assert(v@.take(v.len() as int) =~= v@);
    out
}

/// Indexes state documents against the provinces of the map and its land
/// provinces. Each state id belongs to the first parsed document that
/// gives it; each province to the first indexed state that lists it; a
/// province listed by several states is ambiguous. Every problem is a
/// diagnostic, after each document's own diagnostics, and land provinces
/// of the map without a state are warned about last, in id order.
pub fn index_state_documents(
    documents: &Vec<StateDocument>,
    valid_province_ids: &BTreeSet<u32>,
    land_province_ids: &BTreeSet<u32>,
) -> (r: StateIndexes)
    ensures
        ({
            let f = documents_fold(documents@, documents@.len() as int, valid_province_ids@);
            &&& r.states_by_id@ == f.by_id
            &&& r.state_by_province@ == f.by_province
            &&& forall|p: u32| #[trigger] r.ambiguous_provinces@.contains_key(p) == (
                f.province_states.contains_key(p) && ascending_of(f.province_states[p]).len() > 1)
            &&& forall|p: u32| #[trigger] r.ambiguous_provinces@.contains_key(p)
                ==> r.ambiguous_provinces@[p]@ == ascending_of(f.province_states[p])
            &&& r.unassigned_land_provinces@ == unassigned_land(
                f,
                valid_province_ids@,
                land_province_ids@,
            )
            &&& views(r.diagnostics@) == f.diagnostics + land_warnings(
                f,
                valid_province_ids@,
                ascending_of(land_province_ids@),
            )
            &&& r.document_count == documents@.len()
            &&& r.parsed_state_count == f.parsed
            &&& r.indexed_state_count == f.indexed
            &&& r.indexed_province_count == r.state_by_province@.len()
            &&& r.ambiguous_province_count == r.ambiguous_provinces@.len()
            &&& r.land_without_state_count == land_warnings(
                f,
                valid_province_ids@,
                ascending_of(land_province_ids@),
            ).len()
        }),
{
    let mut w = IndexWork {
        by_id: BTreeMap::new(),
        by_province: HashMap::new(),
        province_states: BTreeMap::new(),
        diagnostics: Vec::new(),
        parsed: 0,
        indexed: 0,
    };
    assert(views(w.diagnostics@) =~= Seq::<DiagnosticView>::empty());
    let n = documents.len();
    let mut i: usize = 0;
    while i < n
        invariant
            n == documents@.len(),
            i <= n,
            work_matches(w, documents_fold(documents@, i as int, valid_province_ids@)),
            w.parsed <= i,
            w.indexed <= i,
            forall|id: u32| #[trigger] documents_fold(
                documents@,
                i as int,
                valid_province_ids@,
            ).by_id.contains_key(id) ==> documents_fold(
                documents@,
                i as int,
                valid_province_ids@,
            ).by_id[id] < i,
        decreases n - i,
    {
        let ghost f = documents_fold(documents@, i as int, valid_province_ids@);
        index_document(&mut w, documents, i, valid_province_ids, Ghost(f));
        i = i + 1;
    }
    let ghost f = documents_fold(documents@, n as int, valid_province_ids@);
    let keys = map_keys(&w.province_states);
    let mut ambiguous: BTreeMap<u32, Vec<u32>> = BTreeMap::new();
    let mut k: usize = 0;
    while k < keys.len()
        invariant
            k <= keys@.len(),
            keys@.to_set() == w.province_states@.dom(),
            keys@.no_duplicates(),
            work_matches(w, f),
            forall|p: u32| #[trigger] ambiguous@.contains_key(p) == (keys@.take(k as int).contains(p)
                && w.province_states@[p]@.len() > 1),
            forall|p: u32| #[trigger] ambiguous@.contains_key(p) ==> ambiguous@[p]@
                == w.province_states@[p]@,
        decreases keys.len() - k,
    {
        let p = keys[k];
        assert(keys@.to_set().contains(p));
        let states = w.province_states.get(&p).unwrap();
        let ghost before = ambiguous@;
        if states.len() > 1 {
            let copy = copy_ids(states);
            ambiguous.insert(p, copy);
        }
        assert forall|q: u32| #[trigger] ambiguous@.contains_key(q) == (keys@.take(k + 1).contains(q)
            && w.province_states@[q]@.len() > 1) by {
            assert(keys@.take(k + 1) =~= keys@.take(k as int).push(p));
            let t = keys@.take(k as int);
            let t1 = keys@.take(k + 1);
            if t1.contains(q) {
                let m = choose|m: int| 0 <= m < t1.len() && t1[m] == q;
                if m < k {
                    assert(t[m] == q);
                }
            }
            if t.contains(q) {
                let m = choose|m: int| 0 <= m < t.len() && t[m] == q;
                assert(t1[m] == q);
            }
            if q == p {
                assert(t1[k as int] == q);
            }
            if keys@.take(k as int).contains(p) {
                let m = choose|m: int| 0 <= m < k && keys@.take(k as int)[m] == p;
                assert(keys@[m] == keys@[k as int]);
            }
        }
        k = k + 1;
    }
    proof {
        assert(keys@.take(keys@.len() as int) =~= keys@);
        assert forall|p: u32| #[trigger] w.province_states@.contains_key(p) implies w.province_states@[p]@
            == ascending_of(f.province_states[p]) by {
            lemma_ascending_of_witness(f.province_states[p], w.province_states@[p]@);
        }
        assert forall|p: u32| #[trigger] ambiguous@.contains_key(p) == (
            f.province_states.contains_key(p) && ascending_of(f.province_states[p]).len() > 1) by {
            assert(keys@.contains(p) == keys@.to_set().contains(p));
            assert(keys@.take(k as int) == keys@);
            assert(w.province_states@.contains_key(p) == f.province_states.contains_key(p));
            if w.province_states@.contains_key(p) {
                assert(w.province_states@[p]@ == ascending_of(f.province_states[p]));
            }
        }
        assert forall|p: u32| #[trigger] ambiguous@.contains_key(p) implies ambiguous@[p]@
            == ascending_of(f.province_states[p]) by {
            assert(keys@.contains(p) == keys@.to_set().contains(p));
            assert(w.province_states@.contains_key(p));
        }
    }
    let land_items = set_items(land_province_ids);
    let land = ascending_unique(&land_items);
    proof {
        lemma_ascending_of_witness(land_province_ids@, land@);
    }
    let mut unassigned: BTreeSet<u32> = BTreeSet::new();
    let mut count: usize = 0;
    let mut j: usize = 0;
    let ghost start = views(w.diagnostics@);
    assert(land@.take(0) =~= Seq::<u32>::empty());
    while j < land.len()
        invariant
            j <= land@.len(),
            land@ == ascending_of(land_province_ids@),
            strictly_ascending(land@),
            land@.to_set() == land_province_ids@,
            work_matches(w, IndexFold { diagnostics: views(w.diagnostics@), ..f }),
            start == f.diagnostics,
            views(w.diagnostics@) == start + land_warnings(f, valid_province_ids@, land@.take(j as int)),
            count == land_warnings(f, valid_province_ids@, land@.take(j as int)).len(),
            count <= j,
            unassigned@ == land@.take(j as int).to_set().filter(
                |p: u32| valid_province_ids@.contains(p) && !f.by_province.contains_key(p),
            ),
        decreases land.len() - j,
    {
        let p = land[j];
        let ghost prefix = land@.take(j + 1);
        assert(prefix.drop_last() =~= land@.take(j as int));
        assert(prefix.last() == p);
        if valid_province_ids.contains(&p) && !w.by_province.contains_key(&p) {
            unassigned.insert(p);
            count = count + 1;
            let mut message = String::from_str("land province ");
            push_decimal(&mut message, p as u64);
            message.append(" is not assigned to any state");
            let d = ProjectDiagnostic::new(
                ProjectDiagnosticKind::LandProvinceWithoutState,
                DiagnosticSeverity::Warning,
                None,
                None,
                message,
            );
            let ghost before = views(w.diagnostics@);
            w.diagnostics.push(d);
            assert(views(w.diagnostics@) =~= before.push(d@));
        }
        assert(unassigned@ =~= prefix.to_set().filter(
            |q: u32| valid_province_ids@.contains(q) && !f.by_province.contains_key(q),
        )) by {
            assert forall|q: u32| prefix.to_set().contains(q) == (land@.take(j as int).to_set().contains(q)
                || q == p) by {
                if prefix.contains(q) {
                    let m = choose|m: int| 0 <= m < prefix.len() && prefix[m] == q;
                    if m < j {
                        assert(land@.take(j as int)[m] == q);
                    }
                }
                if land@.take(j as int).contains(q) {
                    let m = choose|m: int| 0 <= m < j && land@.take(j as int)[m] == q;
                    assert(prefix[m] == q);
                }
                if q == p {
                    assert(prefix[j as int] == q);
                }
            }
        }
        j = j + 1;
    }
    assert(land@.take(land@.len() as int) =~= land@);
    assert(unassigned@ =~= unassigned_land(f, valid_province_ids@, land_province_ids@));
    let indexed_province_count = w.by_province.len();
    let ambiguous_province_count = ambiguous.len();
    let r = StateIndexes {
        states_by_id: w.by_id,
        state_by_province: w.by_province,
        ambiguous_provinces: ambiguous,
        unassigned_land_provinces: unassigned,
        diagnostics: w.diagnostics,
        document_count: n,
        parsed_state_count: w.parsed,
        indexed_state_count: w.indexed,
        indexed_province_count,
        ambiguous_province_count,
        land_without_state_count: count,
    };
    r
}

} // verus!
