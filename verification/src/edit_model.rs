//! The commands of a state edit session and the mathematical model of what
//! they do to the province index: which state each province belongs to,
//! which states have a province list, and which states are active.
use vstd::prelude::*;
use std::collections::BTreeMap;
use std::collections::BTreeSet;
use crate::working_set::deltas_carry_own;
use crate::state::{Buildings, EditableProvinceData, EditableStateProperties, PropertiesView, VictoryPoint};

verus! {

/// Where a state of the session comes from.
#[derive(Debug, Clone, PartialEq, Eq)]
pub enum WorkingStateOrigin {
    Loaded { document_path: String },
    CreatedInSession,
}

/// What happens to the provinces of a removed state.
#[derive(Debug, Clone, Copy, PartialEq, Eq, Structural)]
pub enum StateRemovalPolicy {
    MoveToState(u32),
    Unassign,
}

impl StateRemovalPolicy {
    /// The state that receives the provinces, if any.
    pub open spec fn target_spec(self) -> Option<u32> {
        match self {
            StateRemovalPolicy::MoveToState(t) => Some(t),
            StateRemovalPolicy::Unassign => None,
        }
    }
}

/// One province moved by a command, with the provincial data that travels
/// with it.
#[derive(Debug, Clone)]
pub struct ProvinceEditDelta {
    pub province_id: u32,
    pub from_state_id: Option<u32>,
    pub to_state_id: Option<u32>,
    pub victory_points: Vec<VictoryPoint>,
    pub province_buildings: Option<Buildings>,
}

/// Everything needed to bring a state back.
#[derive(Debug, Clone)]
pub struct WorkingStateSnapshot {
    pub state_id: u32,
    pub properties: EditableStateProperties,
    pub provinces: BTreeSet<u32>,
    pub victory_points: Vec<VictoryPoint>,
    pub province_buildings: BTreeMap<u32, Buildings>,
    pub origin: WorkingStateOrigin,
    pub has_dated_history: bool,
}

/// One undoable edit.
#[derive(Debug, Clone)]
pub enum StateEditCommand {
    ReassignProvinces { deltas: Vec<ProvinceEditDelta> },
    UpdateStateProperties {
        state_id: u32,
        before: EditableStateProperties,
        after: EditableStateProperties,
    },
    UpdateProvinceData {
        province_id: u32,
        state_id: u32,
        before: EditableProvinceData,
        after: EditableProvinceData,
    },
    CreateState { state: WorkingStateSnapshot, deltas: Vec<ProvinceEditDelta> },
    RemoveState {
        state: WorkingStateSnapshot,
        policy: StateRemovalPolicy,
        deltas: Vec<ProvinceEditDelta>,
    },
}

/// The province index of a session: the state of each assigned province,
/// the states that have a province list, the active states, and the
/// properties of each state that has them.
pub struct IndexState {
    pub state_of: Map<u32, u32>,
    pub listed: Set<u32>,
    pub active: Set<u32>,
    pub properties: Map<u32, PropertiesView>,
}

/// State properties by state, by their views.
pub open spec fn properties_views(m: Map<u32, EditableStateProperties>) -> Map<u32, PropertiesView> {
    Map::new(|k: u32| m.contains_key(k), |k: u32| m[k]@)
}

pub open spec fn opt_get(m: Map<u32, u32>, k: u32) -> Option<u32> {
    if m.contains_key(k) {
        Some(m[k])
    } else {
        None
    }
}

/// The provinces that belong to state `s`.
pub open spec fn preimage(m: Map<u32, u32>, s: u32) -> Set<u32> {
    Set::new(|p: u32| m.contains_key(p) && m[p] == s)
}

/// Moves one province to `to`, or unassigns it.
pub open spec fn move_one(m: Map<u32, u32>, p: u32, to: Option<u32>) -> Map<u32, u32> {
    match to {
        Some(t) => m.insert(p, t),
        None => m.remove(p),
    }
}

/// The assignment after the deltas have been applied in order.
pub open spec fn moved_forward(m: Map<u32, u32>, d: Seq<ProvinceEditDelta>) -> Map<u32, u32>
    decreases d.len(),
{
    if d.len() == 0 {
        m
    } else {
        move_one(moved_forward(m, d.drop_last()), d.last().province_id, d.last().to_state_id)
    }
}

/// The assignment after the deltas have been taken back in order.
pub open spec fn moved_backward(m: Map<u32, u32>, d: Seq<ProvinceEditDelta>) -> Map<u32, u32>
    decreases d.len(),
{
    if d.len() == 0 {
        m
    } else {
        move_one(moved_backward(m, d.drop_last()), d.last().province_id, d.last().from_state_id)
    }
}

/// The destination of the last delta for `p`, if there is one.
pub open spec fn last_target(d: Seq<ProvinceEditDelta>, p: u32) -> Option<Option<u32>>
    decreases d.len(),
{
    if d.len() == 0 {
        None
    } else if d.last().province_id == p {
        Some(d.last().to_state_id)
    } else {
        last_target(d.drop_last(), p)
    }
}

/// The source of the last delta for `p`, if there is one.
pub open spec fn last_source(d: Seq<ProvinceEditDelta>, p: u32) -> Option<Option<u32>>
    decreases d.len(),
{
    if d.len() == 0 {
        None
    } else if d.last().province_id == p {
        Some(d.last().from_state_id)
    } else {
        last_source(d.drop_last(), p)
    }
}

/// The provinces the deltas move.
pub open spec fn delta_provinces(d: Seq<ProvinceEditDelta>) -> Set<u32> {
    Set::new(|p: u32| exists|i: int| 0 <= i < d.len() && d[i].province_id == p)
}

pub open spec fn distinct_provinces(d: Seq<ProvinceEditDelta>) -> bool {
    forall|i: int, j: int|
        0 <= i < j < d.len() ==> d[i].province_id != d[j].province_id
}

/// Every delta starts where its province is in `m`.
pub open spec fn deltas_start_at(m: Map<u32, u32>, d: Seq<ProvinceEditDelta>) -> bool {
    forall|i: int| 0 <= i < d.len() ==> d[i].from_state_id == opt_get(m, #[trigger] d[i].province_id)
}

/// A well-formed index: every assigned province's state is listed, active
/// states are listed, listed states are known or active (or the reserved
/// id 0), and 0 is never active.
pub open spec fn index_wf(v: IndexState, known: Set<u32>) -> bool {
    &&& forall|p: u32| v.state_of.contains_key(p) ==> v.listed.contains(#[trigger] v.state_of[p])
    &&& forall|s: u32| v.active.contains(s) ==> v.listed.contains(s)
    &&& forall|s: u32| #[trigger] v.listed.contains(s) ==> s == 0 || known.contains(s) || v.active.contains(s)
    &&& !v.active.contains(0)
    &&& forall|s: u32| #[trigger] v.properties.contains_key(s) ==> v.listed.contains(s)
}

/// When a command can be applied to the index `v`.
pub open spec fn command_ok(v: IndexState, c: StateEditCommand, known: Set<u32>, loaded: Set<u32>) -> bool {
    match c {
        StateEditCommand::ReassignProvinces { deltas } => {
            &&& deltas_carry_own(deltas@)
            &&& distinct_provinces(deltas@)
            &&& deltas_start_at(v.state_of, deltas@)
            &&& forall|i: int| 0 <= i < deltas@.len() ==> {
                let d = #[trigger] deltas@[i];
                &&& d.from_state_id != d.to_state_id
                &&& (d.to_state_id matches Some(t) ==> v.active.contains(t))
            }
        },
        StateEditCommand::CreateState { state, deltas } => {
            &&& state.state_id != 0
            &&& !known.contains(state.state_id)
            &&& !v.active.contains(state.state_id)
            &&& state.origin == WorkingStateOrigin::CreatedInSession
            &&& state.provinces@ == Set::<u32>::empty()
            &&& !v.properties.contains_key(state.state_id)
            &&& deltas_carry_own(deltas@)
            &&& distinct_provinces(deltas@)
            &&& deltas_start_at(v.state_of, deltas@)
            &&& forall|i: int| 0 <= i < deltas@.len() ==> (#[trigger] deltas@[i]).to_state_id == Some(state.state_id)
        },
        StateEditCommand::RemoveState { state, policy, deltas } => {
            &&& v.active.contains(state.state_id)
            &&& (policy.target_spec() matches Some(t) ==> t != state.state_id && v.active.contains(t))
            &&& (state.origin is Loaded <==> loaded.contains(state.state_id))
            &&& state.provinces@ == preimage(v.state_of, state.state_id)
            &&& v.properties.contains_key(state.state_id)
            &&& v.properties[state.state_id] == state.properties@
            &&& deltas_carry_own(deltas@)
            &&& distinct_provinces(deltas@)
            &&& deltas_start_at(v.state_of, deltas@)
            &&& delta_provinces(deltas@) == preimage(v.state_of, state.state_id)
            &&& forall|i: int| 0 <= i < deltas@.len() ==> (#[trigger] deltas@[i]).to_state_id == policy.target_spec()
        },
        StateEditCommand::UpdateStateProperties { state_id, before, .. } => {
            &&& v.properties.contains_key(state_id)
            &&& v.properties[state_id] == before@
        },
        _ => true,
    }
}

/// The index after a command.
pub open spec fn command_forward(v: IndexState, c: StateEditCommand) -> IndexState {
    match c {
        StateEditCommand::ReassignProvinces { deltas } => IndexState {
            state_of: moved_forward(v.state_of, deltas@),
            listed: v.listed,
            active: v.active,
            properties: v.properties,
        },
        StateEditCommand::CreateState { state, deltas } => IndexState {
            state_of: moved_forward(v.state_of, deltas@),
            listed: v.listed.insert(state.state_id),
            active: v.active.insert(state.state_id),
            properties: v.properties.insert(state.state_id, state.properties@),
        },
        StateEditCommand::RemoveState { state, deltas, .. } => IndexState {
            state_of: moved_forward(v.state_of, deltas@),
            listed: v.listed.remove(state.state_id),
            active: v.active.remove(state.state_id),
            properties: v.properties.remove(state.state_id),
        },
        StateEditCommand::UpdateStateProperties { state_id, before, after } => IndexState {
            properties: v.properties.insert(state_id, after@),
            ..v
        },
        _ => v,
    }
}

/// The index after a command has been taken back.
pub open spec fn command_backward(v: IndexState, c: StateEditCommand) -> IndexState {
    match c {
        StateEditCommand::ReassignProvinces { deltas } => IndexState {
            state_of: moved_backward(v.state_of, deltas@),
            listed: v.listed,
            active: v.active,
            properties: v.properties,
        },
        StateEditCommand::CreateState { state, deltas } => IndexState {
            state_of: moved_backward(v.state_of, deltas@),
            listed: v.listed.remove(state.state_id),
            active: v.active.remove(state.state_id),
            properties: v.properties.remove(state.state_id),
        },
        StateEditCommand::RemoveState { state, deltas, .. } => IndexState {
            state_of: moved_backward(v.state_of, deltas@),
            listed: v.listed.insert(state.state_id),
            active: v.active.insert(state.state_id),
            properties: v.properties.insert(state.state_id, state.properties@),
        },
        StateEditCommand::UpdateStateProperties { state_id, before, after } => IndexState {
            properties: v.properties.insert(state_id, before@),
            ..v
        },
        _ => v,
    }
}

pub proof fn lemma_last_target_some(d: Seq<ProvinceEditDelta>, p: u32)
    ensures
        last_target(d, p) is Some <==> delta_provinces(d).contains(p),
        last_source(d, p) is Some <==> delta_provinces(d).contains(p),
        last_target(d, p) matches Some(t) ==> exists|i: int| 0 <= i < d.len() && d[i].province_id == p && d[i].to_state_id == t,
        last_source(d, p) matches Some(f) ==> exists|i: int| 0 <= i < d.len() && d[i].province_id == p && d[i].from_state_id == f,
    decreases d.len(),
{
    if d.len() > 0 {
        let e = d.drop_last();
        lemma_last_target_some(e, p);
        if delta_provinces(d).contains(p) && d.last().province_id != p {
            let i = choose|i: int| 0 <= i < d.len() && d[i].province_id == p;
            assert(e[i].province_id == p);
        }
        if delta_provinces(e).contains(p) {
            let i = choose|i: int| 0 <= i < e.len() && e[i].province_id == p;
            assert(d[i].province_id == p);
        }
        assert(d[d.len() - 1] == d.last());
        if d.last().province_id != p {
            if let Some(t) = last_target(e, p) {
                let i = choose|i: int| 0 <= i < e.len() && e[i].province_id == p && e[i].to_state_id == t;
                assert(d[i] == e[i]);
            }
            if let Some(f) = last_source(e, p) {
                let i = choose|i: int| 0 <= i < e.len() && e[i].province_id == p && e[i].from_state_id == f;
                assert(d[i] == e[i]);
            }
        }
    } else {
        assert(!delta_provinces(d).contains(p));
    }
}

/// Closed form of applying deltas: a moved province ends where its last
/// delta sends it, every other province stays.
pub proof fn lemma_moved_forward_closed(m: Map<u32, u32>, d: Seq<ProvinceEditDelta>, p: u32)
    ensures
        opt_get(moved_forward(m, d), p) == (match last_target(d, p) {
            Some(t) => t,
            None => opt_get(m, p),
        }),
    decreases d.len(),
{
    if d.len() > 0 {
        lemma_moved_forward_closed(m, d.drop_last(), p);
    }
}

/// Closed form of taking deltas back.
pub proof fn lemma_moved_backward_closed(m: Map<u32, u32>, d: Seq<ProvinceEditDelta>, p: u32)
    ensures
        opt_get(moved_backward(m, d), p) == (match last_source(d, p) {
            Some(f) => f,
            None => opt_get(m, p),
        }),
    decreases d.len(),
{
    if d.len() > 0 {
        lemma_moved_backward_closed(m, d.drop_last(), p);
    }
}

pub proof fn lemma_maps_eq_by_get(a: Map<u32, u32>, b: Map<u32, u32>)
    requires
        forall|p: u32| opt_get(a, p) == opt_get(b, p),
    ensures
        a == b,
{
    assert forall|p: u32| a.contains_key(p) <==> b.contains_key(p) by {
        assert(opt_get(a, p) == opt_get(b, p));
    }
    assert forall|p: u32| a.contains_key(p) implies a[p] == b[p] by {
        assert(opt_get(a, p) == opt_get(b, p));
    }
    assert(a =~= b);
}

/// Taking deltas back after applying them restores the assignment, when
/// every delta started where its province was.
pub proof fn lemma_backward_undoes_forward(m: Map<u32, u32>, d: Seq<ProvinceEditDelta>)
    requires
        deltas_start_at(m, d),
    ensures
        moved_backward(moved_forward(m, d), d) == m,
{
    assert forall|p: u32| opt_get(moved_backward(moved_forward(m, d), d), p) == opt_get(m, p) by {
        lemma_moved_backward_closed(moved_forward(m, d), d, p);
        lemma_moved_forward_closed(m, d, p);
        lemma_last_target_some(d, p);
        if let Some(f) = last_source(d, p) {
            let i = choose|i: int| 0 <= i < d.len() && d[i].province_id == p && d[i].from_state_id == f;
            assert(d[i].from_state_id == opt_get(m, d[i].province_id));
        }
    }
    lemma_maps_eq_by_get(moved_backward(moved_forward(m, d), d), m);
}

/// After distinct deltas, each moved province is at its delta's target.
pub proof fn lemma_forward_lands(m: Map<u32, u32>, d: Seq<ProvinceEditDelta>, i: int)
    requires
        distinct_provinces(d),
        0 <= i < d.len(),
    ensures
        opt_get(moved_forward(m, d), d[i].province_id) == d[i].to_state_id,
    decreases d.len(),
{
    if i == d.len() - 1 {
        assert(d[i] == d.last());
    } else {
        lemma_forward_lands(m, d.drop_last(), i);
        assert(d.drop_last()[i] == d[i]);
    }
}

/// Applying a command again after it has been taken back restores the
/// index, when the command was valid on the index it was taken back to.
pub proof fn lemma_command_round_trip(b: IndexState, c: StateEditCommand, known: Set<u32>, loaded: Set<u32>)
    requires
        index_wf(b, known),
        command_ok(b, c, known, loaded),
    ensures
        command_backward(command_forward(b, c), c) == b,
{
    match c {
        StateEditCommand::ReassignProvinces { deltas } => {
            lemma_backward_undoes_forward(b.state_of, deltas@);
        },
        StateEditCommand::CreateState { state, deltas } => {
            lemma_backward_undoes_forward(b.state_of, deltas@);
            assert(!b.listed.contains(state.state_id));
            assert(b.listed.insert(state.state_id).remove(state.state_id) =~= b.listed);
            assert(b.active.insert(state.state_id).remove(state.state_id) =~= b.active);
            assert(b.properties.insert(state.state_id, state.properties@).remove(state.state_id) =~= b.properties);
        },
        StateEditCommand::RemoveState { state, deltas, .. } => {
            lemma_backward_undoes_forward(b.state_of, deltas@);
            assert(b.listed.remove(state.state_id).insert(state.state_id) =~= b.listed);
            assert(b.active.remove(state.state_id).insert(state.state_id) =~= b.active);
            assert(b.properties.remove(state.state_id).insert(state.state_id, state.properties@) =~= b.properties);
        },
        StateEditCommand::UpdateStateProperties { state_id, before, after } => {
            assert(b.properties.insert(state_id, after@).insert(state_id, before@) =~= b.properties);
        },
        _ => {},
    }
}

/// A valid command keeps the index well formed.
pub proof fn lemma_forward_keeps_wf(b: IndexState, c: StateEditCommand, known: Set<u32>, loaded: Set<u32>)
    requires
        index_wf(b, known),
        command_ok(b, c, known, loaded),
    ensures
        index_wf(command_forward(b, c), known),
{
    let a = command_forward(b, c);
    match c {
        StateEditCommand::ReassignProvinces { deltas } => {
            assert forall|p: u32| a.state_of.contains_key(p) implies a.listed.contains(#[trigger] a.state_of[p]) by {
                lemma_moved_forward_closed(b.state_of, deltas@, p);
                lemma_last_target_some(deltas@, p);
                assert(opt_get(a.state_of, p) == Some(a.state_of[p]));
            }
        },
        StateEditCommand::CreateState { state, deltas } => {
            assert forall|p: u32| a.state_of.contains_key(p) implies a.listed.contains(#[trigger] a.state_of[p]) by {
                lemma_moved_forward_closed(b.state_of, deltas@, p);
                lemma_last_target_some(deltas@, p);
                assert(opt_get(a.state_of, p) == Some(a.state_of[p]));
            }
        },
        StateEditCommand::RemoveState { state, policy, deltas } => {
            assert forall|p: u32| a.state_of.contains_key(p) implies a.listed.contains(#[trigger] a.state_of[p]) by {
                lemma_moved_forward_closed(b.state_of, deltas@, p);
                lemma_last_target_some(deltas@, p);
                assert(opt_get(a.state_of, p) == Some(a.state_of[p]));
                if !delta_provinces(deltas@).contains(p) {
                    assert(!preimage(b.state_of, state.state_id).contains(p));
                }
            }
        },
        _ => {},
    }
}

pub proof fn lemma_delta_provinces_step(d: Seq<ProvinceEditDelta>, i: int)
    requires
        0 <= i < d.len(),
    ensures
        delta_provinces(d.take(i + 1)) == delta_provinces(d.take(i)).insert(d[i].province_id),
{
    let a = d.take(i);
    let b = d.take(i + 1);
    assert forall|p: u32| delta_provinces(b).contains(p) <==> delta_provinces(a).insert(d[i].province_id).contains(p) by {
        if delta_provinces(b).contains(p) {
            let k = choose|k: int| 0 <= k < b.len() && b[k].province_id == p;
            if k < i {
                assert(a[k] == b[k]);
            }
        }
        if delta_provinces(a).contains(p) {
            let k = choose|k: int| 0 <= k < a.len() && a[k].province_id == p;
            assert(b[k] == a[k]);
        }
        if p == d[i].province_id {
            assert(b[i] == d[i]);
        }
    }
    assert(delta_provinces(b) =~= delta_provinces(a).insert(d[i].province_id));
}

} // verus!
