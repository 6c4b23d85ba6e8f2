//! The state edit session: an in-memory, undoable editing layer over the
//! states of a project.  Provinces move between states atomically, states
//! are created and removed, state properties and provincial data change, and
//! every edit can be undone, redone or discarded.
use vstd::prelude::*;
use std::collections::BTreeMap;
use std::collections::BTreeSet;
use crate::collections::{map_keys, set_items};
use crate::diagnostics::{
    DiagnosticSeverity, DiagnosticView, ProjectDiagnostic, ProjectDiagnosticKind, count_severity, new_diagnostic_view,
};
use crate::ascending::{ascending_of, ascending_unique, lemma_ascending_unique, strictly_ascending};
use crate::edit_model::{
    properties_views,
    IndexState, ProvinceEditDelta, StateEditCommand, StateRemovalPolicy, WorkingStateOrigin,
    WorkingStateSnapshot, command_backward, command_forward, command_ok, delta_provinces,
    deltas_start_at, distinct_provinces, index_wf, lemma_command_round_trip, lemma_forward_keeps_wf,
    lemma_forward_lands, lemma_last_target_some, lemma_maps_eq_by_get, lemma_moved_forward_closed,
    moved_forward, opt_get, preimage,
};
use crate::state::{
    Buildings, EditableProvinceData, EditableStateProperties, PropertiesView, ProvinceKind, StateData,
    VictoryPoint,
};
use crate::tools::{BrushProvinceClassification, LassoSelectionMode, StateBrushMode};
use crate::working_set::{
    first_value_of, points_of, all_of, deltas_carry_own, detached_own, lemma_points_owned_all_of, point_lists, points_carried, delta_of,
    lemma_delta_of_some, lemma_delta_of_ends, arrived, buildings_carried, opt_buildings_view,
    StateWorkingSet, copy_points, delta_sources, delta_targets, unassigned_land,
};
use crate::edit_compare::{changed_states, state_differs};
use crate::text::{decimal, push_decimal};

verus! {

broadcast use vstd::std_specs::btree::group_btree_axioms;

/// Whether a state is active or was removed in this session.
#[derive(Debug, Clone, Copy, PartialEq, Eq, Structural)]
pub enum WorkingStateLifecycle {
    Active,
    RemovedInSession,
}

/// Durations of the last edit, in microseconds.
#[derive(Debug, Clone, Copy, PartialEq, Eq, Structural)]
pub struct StateEditTimings {
    pub command_preflight_micros: u64,
    pub command_apply_micros: u64,
    pub index_update_micros: u64,
    pub state_texture_update_micros: u64,
    pub state_boundary_update_micros: u64,
    pub undo_micros: u64,
    pub redo_micros: u64,
    pub discard_micros: u64,
}

impl StateEditTimings {
    pub fn zero() -> (r: Self)
        ensures
            r.command_preflight_micros == 0 && r.command_apply_micros == 0 && r.index_update_micros == 0
                && r.state_texture_update_micros == 0 && r.state_boundary_update_micros == 0
                && r.undo_micros == 0 && r.redo_micros == 0 && r.discard_micros == 0,
    {
        StateEditTimings {
            command_preflight_micros: 0,
            command_apply_micros: 0,
            index_update_micros: 0,
            state_texture_update_micros: 0,
            state_boundary_update_micros: 0,
            undo_micros: 0,
            redo_micros: 0,
            discard_micros: 0,
        }
    }
}

/// Counts that describe a session.
#[derive(Debug, Clone, Copy, PartialEq, Eq, Structural)]
pub struct StateEditSummary {
    pub assigned_provinces: usize,
    pub unassigned_land_provinces: usize,
    pub commands: usize,
    pub redo_commands: usize,
    pub modified_states: usize,
    pub selected_provinces: usize,
    pub target_state_id: Option<u32>,
    pub session_errors: usize,
    pub session_warnings: usize,
    pub active_states: usize,
    pub created_states: usize,
    pub removed_states: usize,
    pub reserved_state_ids: usize,
}

/// Why an edit was refused.
#[derive(Debug, Clone, PartialEq, Eq)]
pub enum StateEditError {
    EmptySelection,
    ProvinceNotFound(u32),
    ProvinceIsNotLand(u32),
    AmbiguousProvince(u32),
    ProvinceInInvalidState { province_id: u32, state_id: u32 },
    ProvinceUnassigned(u32),
    ProvinceStateChanged { province_id: u32, expected_state_id: u32, actual_state_id: Option<u32> },
    InvalidProvinceData(String),
    InvalidStateProperties(String),
    StateIdInvalid(u32),
    StateIdReserved(u32),
    StateAlreadyRemoved(u32),
    StateRemovalTargetMatches(u32),
    TargetStateNotFound(u32),
    TargetStateInvalid(u32),
    ProvincialDataConflict { province_id: u32, target_state_id: u32 },
    InvariantViolation(String),
}

/// One state as loaded from the project.
#[derive(Debug, Clone)]
pub struct LoadedState {
    pub state_id: u32,
    pub document_path: String,
    pub properties: EditableStateProperties,
    pub victory_points: Vec<VictoryPoint>,
    pub province_buildings: BTreeMap<u32, Buildings>,
    pub has_dated_history: bool,
    /// The document parsed and carries no error.
    pub structurally_valid: bool,
}

/// What a session starts from: the map's provinces, the project's province
/// assignment and its states.
#[derive(Debug, Clone)]
pub struct StateEditSource {
    pub province_kinds: BTreeMap<u32, ProvinceKind>,
    pub state_by_province: BTreeMap<u32, u32>,
    pub states: Vec<LoadedState>,
    /// State ids taken by documents, from their contents or their file names.
    pub known_state_ids: BTreeSet<u32>,
    pub ambiguous_provinces: BTreeSet<u32>,
}

/// The undoable editing session over the states of a project.
pub struct StateEditSession {
    baseline: StateWorkingSet,
    working: StateWorkingSet,
    known_state_ids: BTreeSet<u32>,
    valid_state_ids: BTreeSet<u32>,
    origins_by_state: BTreeMap<u32, WorkingStateOrigin>,
    removed_state_ids: BTreeSet<u32>,
    province_kinds: BTreeMap<u32, ProvinceKind>,
    ambiguous_provinces: BTreeSet<u32>,
    selected_provinces: BTreeSet<u32>,
    target_state_id: Option<u32>,
    undo_stack: Vec<StateEditCommand>,
    redo_stack: Vec<StateEditCommand>,
    dirty_state_ids: BTreeSet<u32>,
    session_diagnostics: Vec<ProjectDiagnostic>,
    last_timings: StateEditTimings,
    last_changed_provinces: BTreeSet<u32>,
    revision: u64,
    loaded_state_ids: Ghost<Set<u32>>,
    undo_before: Ghost<Seq<IndexState>>,
    redo_after: Ghost<Seq<IndexState>>,
}

/// The assignment after moving every listed province to `target`, or
/// unassigning it when there is no target.
pub open spec fn reassigned(m: Map<u32, u32>, ids: Set<u32>, target: Option<u32>) -> Map<u32, u32> {
    Map::new(
        |p: u32| if ids.contains(p) { target is Some } else { m.contains_key(p) },
        |p: u32| if ids.contains(p) { target.unwrap() } else { m[p] },
    )
}

impl StateEditSession {
    /// The state each assigned province belongs to.
    pub closed spec fn state_of(&self) -> Map<u32, u32> {
        self.working.state_by_province@
    }

    /// The provinces listed for each state.
    pub closed spec fn provinces_of(&self) -> Map<u32, Set<u32>> {
        crate::working_set::set_map_view(self.working.provinces_by_state@)
    }

    /// The active states.
    pub closed spec fn active(&self) -> Set<u32> {
        self.valid_state_ids@
    }

    /// State ids taken by documents.
    pub closed spec fn known(&self) -> Set<u32> {
        self.known_state_ids@
    }

    pub closed spec fn removed(&self) -> Set<u32> {
        self.removed_state_ids@
    }

    pub closed spec fn kinds(&self) -> Map<u32, ProvinceKind> {
        self.province_kinds@
    }

    pub closed spec fn ambiguous(&self) -> Set<u32> {
        self.ambiguous_provinces@
    }

    pub closed spec fn selection(&self) -> Set<u32> {
        self.selected_provinces@
    }

    pub closed spec fn target(&self) -> Option<u32> {
        self.target_state_id
    }

    pub closed spec fn undo_len(&self) -> nat {
        self.undo_stack@.len()
    }

    pub closed spec fn redo_len(&self) -> nat {
        self.redo_stack@.len()
    }

    /// The command that an undo would take back.
    pub closed spec fn last_command(&self) -> StateEditCommand {
        self.undo_stack@.last()
    }

    /// The command that a redo would apply again.
    pub closed spec fn next_redo(&self) -> StateEditCommand {
        self.redo_stack@.last()
    }

    pub closed spec fn revision_spec(&self) -> u64 {
        self.revision
    }

    pub closed spec fn dirty(&self) -> Set<u32> {
        self.dirty_state_ids@
    }

    pub closed spec fn changed(&self) -> Set<u32> {
        self.last_changed_provinces@
    }

    pub closed spec fn properties_of(&self) -> Map<u32, EditableStateProperties> {
        self.working.properties_by_state@
    }

    pub closed spec fn unassigned(&self) -> Set<u32> {
        self.working.unassigned_land_provinces@
    }

    pub closed spec fn diagnostics_spec(&self) -> Seq<ProjectDiagnostic> {
        self.session_diagnostics@
    }

    pub closed spec fn timings(&self) -> StateEditTimings {
        self.last_timings
    }

    /// The victory point value of province `p` where it is assigned now.
    pub closed spec fn victory_point_at(&self, p: u32) -> Option<i64> {
        self.working.victory_point_of(opt_get(self.working.state_by_province@, p), p)
    }

    /// The buildings of province `p` where it is assigned now.
    pub closed spec fn buildings_at(&self, p: u32) -> Option<Buildings> {
        self.working.buildings_of(opt_get(self.working.state_by_province@, p), p)
    }

    /// The victory points that province `p` owns where it is assigned now.
    pub closed spec fn points_at(&self, p: u32) -> Seq<VictoryPoint> {
        self.working.points_owned(opt_get(self.working.state_by_province@, p), p)
    }

    /// The victory point value that state `state` (or, for none, the
    /// detached list) holds for province `p`.
    pub closed spec fn victory_point_in(&self, state: Option<u32>, p: u32) -> Option<i64> {
        self.working.victory_point_of(state, p)
    }

    /// The buildings that state `state` (or, for none, the detached
    /// buildings) holds for province `p`.
    pub closed spec fn buildings_in(&self, state: Option<u32>, p: u32) -> Option<Buildings> {
        self.working.buildings_of(state, p)
    }

    /// The victory points that state `state` (or, for none, the detached
    /// list) holds for province `p`.
    pub closed spec fn points_in(&self, state: Option<u32>, p: u32) -> Seq<VictoryPoint> {
        self.working.points_owned(state, p)
    }

    /// The victory point value of province `p` where the loaded states put it.
    pub closed spec fn loaded_victory_point_at(&self, p: u32) -> Option<i64> {
        self.baseline.victory_point_of(opt_get(self.baseline.state_by_province@, p), p)
    }

    /// The buildings of province `p` where the loaded states put it.
    pub closed spec fn loaded_buildings_at(&self, p: u32) -> Option<Buildings> {
        self.baseline.buildings_of(opt_get(self.baseline.state_by_province@, p), p)
    }

    /// The state of each assigned province as loaded.
    pub closed spec fn loaded_state_of(&self) -> Map<u32, u32> {
        self.baseline.state_by_province@
    }

    /// The states that had a province list as loaded.
    pub closed spec fn loaded_listed(&self) -> Set<u32> {
        self.baseline.provinces_by_state@.dom()
    }

    /// The states that were active as loaded.
    pub closed spec fn loaded_active(&self) -> Set<u32> {
        self.loaded_state_ids@
    }

    /// The victory points that state `state` (or, for none, the detached
    /// list) held for province `p` as loaded.
    pub closed spec fn loaded_points_in(&self, state: Option<u32>, p: u32) -> Seq<VictoryPoint> {
        self.baseline.points_owned(state, p)
    }

    /// The buildings that state `state` (or, for none, the detached
    /// buildings) held for province `p` as loaded.
    pub closed spec fn loaded_buildings_in(&self, state: Option<u32>, p: u32) -> Option<Buildings> {
        self.baseline.buildings_of(state, p)
    }

    /// The state properties as loaded.
    pub closed spec fn loaded_properties(&self) -> Map<u32, EditableStateProperties> {
        self.baseline.properties_by_state@
    }

    /// The states whose working copy differs from the loaded one.
    pub closed spec fn differing(&self) -> Set<u32> {
        Set::new(|s: u32| state_differs(self.baseline, self.working, s))
    }

    proof fn lemma_province_count(&self, s: u32)
        requires
            self.wf(),
        ensures
            (if self.provinces_of().contains_key(s) { self.provinces_of()[s].len() } else { 0 }) == preimage(
                self.state_of(),
                s,
            ).len(),
    {
        if !self.working.provinces_by_state@.contains_key(s) {
            assert(preimage(self.state_of(), s) =~= Set::<u32>::empty());
        }
    }

    /// The province index of the session.
    pub closed spec fn index_view(&self) -> IndexState {
        self.working.index(self.valid_state_ids@)
    }

    /// The province index the session was loaded with.
    pub closed spec fn baseline_view(&self) -> IndexState {
        self.baseline.index(self.loaded_state_ids@)
    }

    closed spec fn after_undo(&self, k: int) -> IndexState {
        if k + 1 < self.undo_stack@.len() {
            self.undo_before@[k + 1]
        } else {
            self.index_view()
        }
    }

    closed spec fn before_redo(&self, j: int) -> IndexState {
        if j + 1 < self.redo_stack@.len() {
            self.redo_after@[j + 1]
        } else {
            self.index_view()
        }
    }

    /// The session's invariant: both province indexes agree, the index is
    /// well formed, loaded states keep their loaded origin, and every
    /// command on the undo and redo stacks can be taken back or applied
    /// again from where it stands.
    pub closed spec fn wf(&self) -> bool {
        &&& self.working.lists_consistent()
        &&& self.baseline.lists_consistent()
        &&& detached_own(point_lists(self.working.detached_victory_points@))
        &&& detached_own(point_lists(self.baseline.detached_victory_points@))
        &&& self.created_unique()
        &&& index_wf(self.index_view(), self.known_state_ids@)
        &&& index_wf(self.baseline_view(), self.known_state_ids@)
        &&& self.loaded_state_ids@.subset_of(self.known_state_ids@)
        &&& forall|s: u32| (self.origins_by_state@.contains_key(s) && self.origins_by_state@[s] is Loaded)
            <==> #[trigger] self.loaded_state_ids@.contains(s)
        &&& self.working.unassigned_land_provinces@ == unassigned_land(self.province_kinds@, self.working.state_by_province@)
        &&& self.baseline.unassigned_land_provinces@ == unassigned_land(self.province_kinds@, self.baseline.state_by_province@)
        &&& self.undo_before@.len() == self.undo_stack@.len()
        &&& self.redo_after@.len() == self.redo_stack@.len()
        &&& forall|k: int| 0 <= k < self.undo_stack@.len() ==> {
            &&& index_wf(#[trigger] self.undo_before@[k], self.known_state_ids@)
            &&& command_ok(self.undo_before@[k], self.undo_stack@[k], self.known_state_ids@, self.loaded_state_ids@)
            &&& command_forward(self.undo_before@[k], self.undo_stack@[k]) == self.after_undo(k)
        }
        &&& forall|j: int| 0 <= j < self.redo_stack@.len() ==> {
            &&& index_wf(#[trigger] self.before_redo(j), self.known_state_ids@)
            &&& command_ok(self.before_redo(j), self.redo_stack@[j], self.known_state_ids@, self.loaded_state_ids@)
            &&& command_forward(self.before_redo(j), self.redo_stack@[j]) == self.redo_after@[j]
        }
    }

    /// The index left by taking back the last command.
    pub closed spec fn undo_target(&self) -> IndexState {
        self.undo_before@[self.undo_stack@.len() - 1]
    }

    /// The index reached by applying the next command again.
    pub closed spec fn redo_target(&self) -> IndexState {
        self.redo_after@[self.redo_stack@.len() - 1]
    }

    /// Why `s` cannot be an edit target, if it cannot.
    pub closed spec fn target_state_error(&self, s: u32) -> Option<StateEditError> {
        if s == 0 {
            Some(StateEditError::TargetStateInvalid(s))
        } else if self.known_state_ids@.contains(s) && !self.valid_state_ids@.contains(s) {
            Some(StateEditError::TargetStateInvalid(s))
        } else if !self.valid_state_ids@.contains(s) {
            Some(StateEditError::TargetStateNotFound(s))
        } else {
            None
        }
    }

    /// Why province `p` cannot be selected or moved, if it cannot.
    pub closed spec fn province_error(&self, p: u32) -> Option<StateEditError> {
        if !self.province_kinds@.contains_key(p) {
            Some(StateEditError::ProvinceNotFound(p))
        } else if self.province_kinds@[p] != ProvinceKind::Land {
            Some(StateEditError::ProvinceIsNotLand(p))
        } else if self.ambiguous_provinces@.contains(p) {
            Some(StateEditError::AmbiguousProvince(p))
        } else if self.working.state_by_province@.contains_key(p)
            && !self.valid_state_ids@.contains(self.working.state_by_province@[p]) {
            Some(StateEditError::ProvinceInInvalidState { province_id: p, state_id: self.working.state_by_province@[p] })
        } else {
            None
        }
    }

    /// Province `p` would bring victory points or buildings into state `t`
    /// that already has its own for `p`.
    pub closed spec fn data_conflict(&self, p: u32, t: u32) -> bool {
        let from = opt_get(self.working.state_by_province@, p);
        from != Some(t) && (
            (self.working.points_owned(from, p).len() > 0 && self.working.points_owned(Some(t), p).len() > 0)
            || (self.working.buildings_of(from, p) is Some && self.working.buildings_of(Some(t), p) is Some)
        )
    }

    /// Why moving province `p` to `target` is refused, if it is.
    pub closed spec fn move_error(&self, p: u32, target: Option<u32>) -> Option<StateEditError> {
        match self.province_error(p) {
            Some(e) => Some(e),
            None => match target {
                Some(t) => if opt_get(self.working.state_by_province@, p) != target && self.data_conflict(p, t) {
                    Some(StateEditError::ProvincialDataConflict { province_id: p, target_state_id: t })
                } else {
                    None
                },
                None => None,
            },
        }
    }

    /// The first refusal among the provinces, in order.
    pub closed spec fn first_move_error(&self, ids: Seq<u32>, target: Option<u32>) -> Option<StateEditError>
        decreases ids.len(),
    {
        if ids.len() == 0 {
            None
        } else {
            match self.first_move_error(ids.drop_last(), target) {
                Some(e) => Some(e),
                None => self.move_error(ids.last(), target),
            }
        }
    }

    /// The provinces of `ids` that would actually move to `target`.
    pub closed spec fn moving(&self, ids: Set<u32>, target: Option<u32>) -> Set<u32> {
        Set::new(|p: u32| ids.contains(p) && opt_get(self.working.state_by_province@, p) != target)
    }

    /// Why reassigning `ids` to `target` is refused, if it is.
    pub closed spec fn reassign_error(&self, ids: Seq<u32>, target: Option<u32>) -> Option<StateEditError> {
        if ids.len() == 0 {
            Some(StateEditError::EmptySelection)
        } else {
            match target {
                Some(t) => match self.target_state_error(t) {
                    Some(e) => Some(e),
                    None => self.first_move_error(ids, target),
                },
                None => self.first_move_error(ids, target),
            }
        }
    }

    /// The state ids that a new state cannot take: those of documents,
    /// active states, and states created by commands on either stack.
    pub closed spec fn reserved(&self) -> Set<u32> {
        self.known_state_ids@.union(self.valid_state_ids@).union(
            Set::new(|s: u32| exists|k: int| 0 <= k < self.undo_stack@.len() && created_id(self.undo_stack@[k]) == Some(s)),
        ).union(
            Set::new(|s: u32| exists|k: int| 0 <= k < self.redo_stack@.len() && created_id(self.redo_stack@[k]) == Some(s)),
        )
    }

    /// The states created by the commands that an undo can take back.
    pub closed spec fn created_in_history(&self) -> Set<u32> {
        created_set(self.undo_stack@)
    }

    /// The states created by the commands that a redo can apply again.
    pub closed spec fn created_in_redo(&self) -> Set<u32> {
        created_set(self.redo_stack@)
    }

    /// No two commands on the undo and redo stacks create the same state.
    closed spec fn created_unique(&self) -> bool {
        &&& forall|i: int, j: int| 0 <= i < j < self.undo_stack@.len() && created_id(self.undo_stack@[i]) is Some
            ==> #[trigger] created_id(self.undo_stack@[i]) != #[trigger] created_id(self.undo_stack@[j])
        &&& forall|i: int, j: int| 0 <= i < j < self.redo_stack@.len() && created_id(self.redo_stack@[i]) is Some
            ==> #[trigger] created_id(self.redo_stack@[i]) != #[trigger] created_id(self.redo_stack@[j])
        &&& forall|i: int, j: int| 0 <= i < self.undo_stack@.len() && 0 <= j < self.redo_stack@.len() && created_id(
            self.undo_stack@[i],
        ) is Some ==> #[trigger] created_id(self.undo_stack@[i]) != #[trigger] created_id(self.redo_stack@[j])
    }
}

/// The view of a province's buildings, empty where it has none listed.
pub open spec fn buildings_or_empty(b: Option<Buildings>) -> Seq<(Seq<char>, i64)> {
    match b {
        Some(x) => x@,
        None => Seq::empty(),
    }
}

/// Two sessions hold the same edits: the same history lengths, modified
/// states, revision, state properties and province data.
pub open spec fn same_edits(a: StateEditSession, b: StateEditSession) -> bool {
    &&& a.undo_len() == b.undo_len()
    &&& a.redo_len() == b.redo_len()
    &&& a.dirty() == b.dirty()
    &&& a.revision_spec() == b.revision_spec()
    &&& a.properties_of() == b.properties_of()
    &&& forall|p: u32| #[trigger] a.victory_point_at(p) == b.victory_point_at(p)
    &&& forall|p: u32| #[trigger] a.buildings_at(p) == b.buildings_at(p)
}

/// Taking back an edit gives back the state assignment, the active states
/// and the state properties that the session had before the edit: the edit
/// left the session's index as the target of an undo, and the undo reached it.
pub proof fn lemma_undo_restores_edit(before: StateEditSession, edited: StateEditSession, undone: StateEditSession)
    requires
        edited.undo_target() == before.index_view(),
        undone.index_view() == edited.undo_target(),
    ensures
        undone.state_of() == before.state_of(),
        undone.active() == before.active(),
        properties_views(undone.properties_of()) == properties_views(before.properties_of()),
{
}

/// Applying an undone edit again gives back the state assignment, the active
/// states and the state properties that the edit had left: the undo left
/// that index as the target of a redo, and the redo reached it.
pub proof fn lemma_redo_restores_edit(edited: StateEditSession, undone: StateEditSession, redone: StateEditSession)
    requires
        undone.redo_target() == edited.index_view(),
        redone.index_view() == undone.redo_target(),
    ensures
        redone.state_of() == edited.state_of(),
        redone.active() == edited.active(),
        properties_views(redone.properties_of()) == properties_views(edited.properties_of()),
{
}

/// Taking back a reassignment gives a moved province back the victory
/// points it had before: the reassignment's delta carried them and left
/// none behind where the province came from, and the undo brings the
/// delta's points back there.
pub proof fn lemma_undo_gives_points_back(
    before: StateEditSession,
    edited: StateEditSession,
    undone: StateEditSession,
    deltas: Seq<ProvinceEditDelta>,
    p: u32,
)
    requires
        delta_of(deltas, p) matches Some(x) && {
            &&& x.victory_points@ == before.points_at(p)
            &&& edited.points_in(x.from_state_id, p) == Seq::<VictoryPoint>::empty()
            &&& undone.points_at(p) == arrived(edited.points_in(x.from_state_id, p), x.from_state_id, x.victory_points@)
        },
    ensures
        undone.points_at(p) == before.points_at(p),
        undone.victory_point_at(p) == before.victory_point_at(p),
{
    let x = delta_of(deltas, p).unwrap();
    if x.from_state_id is Some {
        assert(Seq::<VictoryPoint>::empty() + x.victory_points@ =~= x.victory_points@);
    }
}

/// A state's province count, as `state_province_count` gives it, is the
/// number of provinces that the province map assigns to the state.
pub proof fn lemma_province_count_matches_map(session: StateEditSession, s: u32)
    requires
        session.wf(),
    ensures
        (if session.provinces_of().contains_key(s) { session.provinces_of()[s].len() } else { 0 }) == preimage(
            session.state_of(),
            s,
        ).len(),
{
    session.lemma_province_count(s);
}

/// The state ids that a new state cannot take are those of documents, the
/// active states, and the states created by commands on the undo and redo
/// stacks; a new id is refused when it is 0 or one of them.
pub proof fn lemma_reserved_parts(s: StateEditSession, id: u32)
    ensures
        s.reserved() == s.known().union(s.active()).union(s.created_in_history()).union(s.created_in_redo()),
        s.new_id_error(id) == (if id == 0 {
            Some(StateEditError::StateIdInvalid(id))
        } else if s.reserved().contains(id) {
            Some(StateEditError::StateIdReserved(id))
        } else {
            None
        }),
{
    assert(s.reserved() =~= s.known().union(s.active()).union(s.created_in_history()).union(s.created_in_redo()));
}

/// What the session's derived values are, in terms of its public ones: a
/// province's victory point value and buildings are those of the state that
/// holds it (or of the detached lists), and likewise as loaded.
pub proof fn lemma_province_data_views(s: StateEditSession, p: u32, st: Option<u32>)
    ensures
        s.points_at(p) == s.points_in(opt_get(s.state_of(), p), p),
        s.victory_point_at(p) == first_value_of(s.points_at(p), p),
        s.victory_point_in(st, p) == first_value_of(s.points_in(st, p), p),
        s.buildings_at(p) == s.buildings_in(opt_get(s.state_of(), p), p),
        s.loaded_victory_point_at(p) == first_value_of(s.loaded_points_in(opt_get(s.loaded_state_of(), p), p), p),
        s.loaded_buildings_at(p) == s.loaded_buildings_in(opt_get(s.loaded_state_of(), p), p),
{
}

/// The province index and the loaded index, in terms of the session's public
/// values.
pub proof fn lemma_index_views(s: StateEditSession)
    ensures
        s.index_view() == (IndexState {
            state_of: s.state_of(),
            listed: s.provinces_of().dom(),
            active: s.active(),
            properties: properties_views(s.properties_of()),
        }),
        s.baseline_view() == (IndexState {
            state_of: s.loaded_state_of(),
            listed: s.loaded_listed(),
            active: s.loaded_active(),
            properties: properties_views(s.loaded_properties()),
        }),
{
    assert(s.provinces_of().dom() =~= s.working.provinces_by_state@.dom());
}

/// Why a state or a province is refused, in terms of the session's public
/// values: a target must be a nonzero active state (a known state that is
/// not active is invalid); a province must be known, land, unambiguous and
/// not held by an inactive state; moving it into a target is refused where
/// both its present state and the target hold victory points or both hold
/// buildings for it; a reassignment refuses an empty list, then a bad target,
/// then the first province in order that cannot move.
pub proof fn lemma_refusal_views(s: StateEditSession, p: u32, t: u32, target: Option<u32>, ids: Seq<u32>)
    ensures
        s.target_state_error(t) == (if t == 0 {
            Some(StateEditError::TargetStateInvalid(t))
        } else if s.known().contains(t) && !s.active().contains(t) {
            Some(StateEditError::TargetStateInvalid(t))
        } else if !s.active().contains(t) {
            Some(StateEditError::TargetStateNotFound(t))
        } else {
            None
        }),
        s.province_error(p) == (if !s.kinds().contains_key(p) {
            Some(StateEditError::ProvinceNotFound(p))
        } else if s.kinds()[p] != ProvinceKind::Land {
            Some(StateEditError::ProvinceIsNotLand(p))
        } else if s.ambiguous().contains(p) {
            Some(StateEditError::AmbiguousProvince(p))
        } else if s.state_of().contains_key(p) && !s.active().contains(s.state_of()[p]) {
            Some(StateEditError::ProvinceInInvalidState { province_id: p, state_id: s.state_of()[p] })
        } else {
            None
        }),
        s.data_conflict(p, t) == (opt_get(s.state_of(), p) != Some(t) && ((s.points_in(opt_get(s.state_of(), p), p).len()
            > 0 && s.points_in(Some(t), p).len() > 0) || (s.buildings_in(opt_get(s.state_of(), p), p) is Some
            && s.buildings_in(Some(t), p) is Some))),
        s.move_error(p, target) == (match s.province_error(p) {
            Some(e) => Some(e),
            None => match target {
                Some(t2) => if opt_get(s.state_of(), p) != target && s.data_conflict(p, t2) {
                    Some(StateEditError::ProvincialDataConflict { province_id: p, target_state_id: t2 })
                } else {
                    None
                },
                None => None,
            },
        }),
        s.first_move_error(ids, target) == (if ids.len() == 0 {
            None
        } else {
            match s.first_move_error(ids.drop_last(), target) {
                Some(e) => Some(e),
                None => s.move_error(ids.last(), target),
            }
        }),
        s.reassign_error(ids, target) == (if ids.len() == 0 {
            Some(StateEditError::EmptySelection)
        } else {
            match target {
                Some(t2) => match s.target_state_error(t2) {
                    Some(e) => Some(e),
                    None => s.first_move_error(ids, target),
                },
                None => s.first_move_error(ids, target),
            }
        }),
        s.moving(ids.to_set(), target) == Set::new(|q: u32| ids.to_set().contains(q) && opt_get(s.state_of(), q) != target),
        s.selection_refusal(target) == (if s.selection() == Set::<u32>::empty() {
            Some(StateEditError::EmptySelection)
        } else if target matches Some(t2) && s.target_state_error(t2) is Some {
            s.target_state_error(target.unwrap())
        } else if exists|q: u32| s.selection().contains(q) && s.move_error(q, target) is Some {
            s.move_error(choose|q: u32| s.selection().contains(q) && s.move_error(q, target) is Some, target)
        } else {
            None
        }),
{
    assert(s.moving(ids.to_set(), target) =~= Set::new(|q: u32| ids.to_set().contains(q) && opt_get(s.state_of(), q) != target));
}

/// The provinces a new state is created with: the selection in increasing
/// order, or none.
pub open spec fn creation_ids(selection: Set<u32>, use_selected: bool) -> Seq<u32> {
    if use_selected {
        ascending_of(selection)
    } else {
        Seq::empty()
    }
}

/// The states that a list of commands creates.
pub open spec fn created_set(cs: Seq<StateEditCommand>) -> Set<u32> {
    Set::new(|s: u32| exists|k: int| 0 <= k < cs.len() && created_id(cs[k]) == Some(s))
}

/// Moving the last command of one list onto another moves the state it
/// creates, if any, from the one set of created states to the other, when
/// no two commands of the first list create the same state.
proof fn lemma_move_created(a: Seq<StateEditCommand>, b: Seq<StateEditCommand>)
    requires
        a.len() > 0,
        forall|i: int, j: int| 0 <= i < j < a.len() && created_id(a[i]) is Some ==> #[trigger] created_id(a[i])
            != #[trigger] created_id(a[j]),
    ensures
        created_set(a.drop_last()) == (match created_id(a.last()) {
            Some(id) => created_set(a).remove(id),
            None => created_set(a),
        }),
        created_set(b.push(a.last())) == (match created_id(a.last()) {
            Some(id) => created_set(b).insert(id),
            None => created_set(b),
        }),
{
    let n = a.len() - 1;
    let c = a.last();
    assert(a[n] == c);
    assert forall|t: u32| #[trigger] created_set(a.drop_last()).contains(t) <==> (match created_id(c) {
        Some(id) => created_set(a).remove(id),
        None => created_set(a),
    }).contains(t) by {
        if created_set(a.drop_last()).contains(t) {
            let k = choose|k: int| 0 <= k < a.drop_last().len() && created_id(a.drop_last()[k]) == Some(t);
            assert(a.drop_last()[k] == a[k]);
            assert(created_id(a[k]) != created_id(a[n]));
        }
        if created_set(a).contains(t) && created_id(c) != Some(t) {
            let k = choose|k: int| 0 <= k < a.len() && created_id(a[k]) == Some(t);
            assert(k != n);
            assert(a.drop_last()[k] == a[k]);
        }
    }
    assert(created_set(a.drop_last()) =~= (match created_id(c) {
        Some(id) => created_set(a).remove(id),
        None => created_set(a),
    }));
    let b2 = b.push(c);
    assert forall|t: u32| #[trigger] created_set(b2).contains(t) <==> (match created_id(c) {
        Some(id) => created_set(b).insert(id),
        None => created_set(b),
    }).contains(t) by {
        if created_set(b2).contains(t) {
            let k = choose|k: int| 0 <= k < b2.len() && created_id(b2[k]) == Some(t);
            if k < b.len() {
                assert(b2[k] == b[k]);
            }
        }
        if created_set(b).contains(t) {
            let k = choose|k: int| 0 <= k < b.len() && created_id(b[k]) == Some(t);
            assert(b2[k] == b[k]);
        }
        if created_id(c) == Some(t) {
            assert(b2[b.len() as int] == c);
        }
    }
    assert(created_set(b2) =~= (match created_id(c) {
        Some(id) => created_set(b).insert(id),
        None => created_set(b),
    }));
}

/// The state a command creates, if it creates one.
pub open spec fn created_id(c: StateEditCommand) -> Option<u32> {
    match c {
        StateEditCommand::CreateState { state, .. } => Some(state.state_id),
        _ => None,
    }
}

impl StateEditSession {
    closed spec fn origins_track_loaded(&self) -> bool {
        forall|s: u32| (self.origins_by_state@.contains_key(s) && self.origins_by_state@[s] is Loaded)
            <==> #[trigger] self.loaded_state_ids@.contains(s)
    }

    /// Everything but the working set, the active and removed states and
    /// the origins is left alone.
    closed spec fn same_frame(&self, other: &Self) -> bool {
        &&& self.baseline == other.baseline
        &&& self.known_state_ids@ == other.known_state_ids@
        &&& self.province_kinds@ == other.province_kinds@
        &&& self.ambiguous_provinces@ == other.ambiguous_provinces@
        &&& self.selected_provinces@ == other.selected_provinces@
        &&& self.target_state_id == other.target_state_id
        &&& self.undo_stack@ == other.undo_stack@
        &&& self.redo_stack@ == other.redo_stack@
        &&& self.dirty_state_ids@ == other.dirty_state_ids@
        &&& self.session_diagnostics@ == other.session_diagnostics@
        &&& self.last_timings == other.last_timings
        &&& self.last_changed_provinces@ == other.last_changed_provinces@
        &&& self.revision == other.revision
        &&& self.loaded_state_ids == other.loaded_state_ids
        &&& self.undo_before == other.undo_before
        &&& self.redo_after == other.redo_after
    }

    /// Brings a state back from its snapshot.
    fn restore_state(&mut self, state: &WorkingStateSnapshot)
        requires
            old(self).working.lists_consistent(),
            old(self).origins_track_loaded(),
            state.provinces@ == preimage(old(self).working.state_by_province@, state.state_id),
            state.origin is Loaded <==> old(self).loaded_state_ids@.contains(state.state_id),
        ensures
            final(self).working.lists_consistent(),
            final(self).origins_track_loaded(),
            final(self).same_frame(old(self)),
            final(self).working.state_by_province@ == old(self).working.state_by_province@,
            final(self).working.provinces_by_state@.dom() == old(self).working.provinces_by_state@.dom().insert(state.state_id),
            final(self).valid_state_ids@ == old(self).valid_state_ids@.insert(state.state_id),
            final(self).working.unassigned_land_provinces@ == old(self).working.unassigned_land_provinces@,
            final(self).working.properties_by_state@ == old(self).working.properties_by_state@.insert(
                state.state_id,
                final(self).working.properties_by_state@[state.state_id],
            ),
            final(self).working.properties_by_state@[state.state_id]@ == state.properties@,
            final(self).removed_state_ids@ == old(self).removed_state_ids@.remove(state.state_id),
            final(self).origins_by_state@.contains_key(state.state_id),
            state.origin is CreatedInSession ==> final(self).origins_by_state@[state.state_id] is CreatedInSession,
            final(self).working.detached_victory_points@ == old(self).working.detached_victory_points@,
            final(self).working.victory_points_by_state@.contains_key(state.state_id),
            final(self).working.victory_points_by_state@[state.state_id]@ == state.victory_points@,
            final(self).working.province_buildings_by_state@.contains_key(state.state_id),
            final(self).working.province_buildings_by_state@[state.state_id]@ == state.province_buildings@,
    {
        let s = state.state_id;
        self.working.properties_by_state.insert(s, state.properties.duplicate());
        self.working.provinces_by_state.insert(s, state.provinces.clone());
        self.working.victory_points_by_state.insert(s, copy_points(&state.victory_points));
        self.working.province_buildings_by_state.insert(s, state.province_buildings.clone());
        if state.has_dated_history {
            self.working.dated_history_states.insert(s);
        } else {
            self.working.dated_history_states.remove(&s);
        }
        let origin = match &state.origin {
            WorkingStateOrigin::Loaded { document_path } => WorkingStateOrigin::Loaded {
                document_path: document_path.clone(),
            },
            WorkingStateOrigin::CreatedInSession => WorkingStateOrigin::CreatedInSession,
        };
        self.origins_by_state.insert(s, origin);
        self.removed_state_ids.remove(&s);
        self.valid_state_ids.insert(s);
        proof {
            assert(self.working.provinces_by_state@.dom() =~= old(self).working.provinces_by_state@.dom().insert(s));
        }
    }

    /// Drops a state from the working set; a tombstone keeps it listed as
    /// removed in this session.
    fn remove_state_snapshot(&mut self, s: u32, tombstone: bool)
        requires
            old(self).working.lists_consistent(),
            old(self).origins_track_loaded(),
            preimage(old(self).working.state_by_province@, s) == Set::<u32>::empty(),
            !tombstone ==> !old(self).loaded_state_ids@.contains(s),
        ensures
            final(self).working.lists_consistent(),
            final(self).origins_track_loaded(),
            final(self).same_frame(old(self)),
            final(self).working.state_by_province@ == old(self).working.state_by_province@,
            final(self).working.provinces_by_state@.dom() == old(self).working.provinces_by_state@.dom().remove(s),
            final(self).valid_state_ids@ == old(self).valid_state_ids@.remove(s),
            final(self).working.unassigned_land_provinces@ == old(self).working.unassigned_land_provinces@,
            final(self).working.properties_by_state@ == old(self).working.properties_by_state@.remove(s),
            tombstone ==> final(self).removed_state_ids@ == old(self).removed_state_ids@.insert(s),
            final(self).working.detached_victory_points@ == old(self).working.detached_victory_points@,
            final(self).working.victory_points_by_state@ == old(self).working.victory_points_by_state@.remove(s),
            final(self).working.province_buildings_by_state@ == old(self).working.province_buildings_by_state@.remove(s),
            final(self).working.detached_province_buildings@ == old(self).working.detached_province_buildings@,
    {
        self.working.properties_by_state.remove(&s);
        self.working.provinces_by_state.remove(&s);
        self.working.victory_points_by_state.remove(&s);
        self.working.province_buildings_by_state.remove(&s);
        self.working.dated_history_states.remove(&s);
        self.valid_state_ids.remove(&s);
        if tombstone {
            self.removed_state_ids.insert(s);
        } else {
            self.removed_state_ids.remove(&s);
            self.origins_by_state.remove(&s);
        }
        proof {
            let sbp = self.working.state_by_province@;
            assert forall|p: u32| sbp.contains_key(p) implies self.working.provinces_by_state@.contains_key(#[trigger] sbp[p]) by {
                if sbp[p] == s {
                    assert(preimage(sbp, s).contains(p));
                }
            }
            assert(self.working.provinces_by_state@.dom() =~= old(self).working.provinces_by_state@.dom().remove(s));
        }
    }

    /// Applies a command (`forward`) or takes it back to the index `b` it
    /// was applied to.
    fn apply_command(&mut self, c: &StateEditCommand, forward: bool, Ghost(b): Ghost<IndexState>)
        requires
            old(self).working.lists_consistent(),
            old(self).origins_track_loaded(),
            old(self).loaded_state_ids@.subset_of(old(self).known_state_ids@),
            old(self).working.unassigned_land_provinces@ == unassigned_land(old(self).province_kinds@, old(self).working.state_by_province@),
            forward ==> index_wf(old(self).index_view(), old(self).known_state_ids@),
            forward ==> command_ok(old(self).index_view(), *c, old(self).known_state_ids@, old(self).loaded_state_ids@),
            !forward ==> index_wf(b, old(self).known_state_ids@),
            !forward ==> command_ok(b, *c, old(self).known_state_ids@, old(self).loaded_state_ids@),
            !forward ==> old(self).index_view() == command_forward(b, *c),
            detached_own(point_lists(old(self).working.detached_victory_points@)),
        ensures
            final(self).working.lists_consistent(),
            final(self).origins_track_loaded(),
            final(self).same_frame(old(self)),
            final(self).working.unassigned_land_provinces@ == unassigned_land(final(self).province_kinds@, final(self).working.state_by_province@),
            forward ==> final(self).index_view() == command_forward(old(self).index_view(), *c),
            !forward ==> final(self).index_view() == b,
            match *c {
                StateEditCommand::UpdateStateProperties { state_id, before, after } => {
                    &&& final(self).working.properties_by_state@.dom() == old(self).working.properties_by_state@.dom().insert(state_id)
                    &&& forall|s: u32| s != state_id ==> final(self).working.properties_by_state@[s] == old(self).working.properties_by_state@[s]
                    &&& final(self).working.properties_by_state@[state_id]@ == (if forward { after@ } else { before@ })
                },
                StateEditCommand::UpdateProvinceData { province_id, state_id, before, after } => {
                    &&& final(self).working.properties_by_state@ == old(self).working.properties_by_state@
                    &&& final(self).working.victory_point_of(Some(state_id), province_id)
                        == (if forward { after.victory_point } else { before.victory_point })
                    &&& final(self).working.buildings_of(Some(state_id), province_id) matches Some(b) ==> b@
                        == (if forward { after.buildings@ } else { before.buildings@ })
                    &&& final(self).working.buildings_of(Some(state_id), province_id) is None ==>
                        (if forward { after.buildings@ } else { before.buildings@ }).len() == 0
                },
                StateEditCommand::ReassignProvinces { deltas } => {
                    &&& final(self).working.properties_by_state@ == old(self).working.properties_by_state@
                    &&& points_carried(old(self).working, final(self).working, deltas@, forward)
                    &&& buildings_carried(old(self).working, final(self).working, deltas@, forward)
                },
                StateEditCommand::CreateState { state, deltas } => forward ==> {
                    &&& (state.victory_points@.len() == 0 && state.province_buildings@ == Map::<u32, Buildings>::empty()
                        ==> forall|p: u32| #[trigger] delta_of(deltas@, p) matches Some(x) ==> {
                        &&& final(self).working.points_owned(Some(state.state_id), p) == x.victory_points@
                        &&& opt_buildings_view(final(self).working.buildings_of(Some(state.state_id), p))
                            == opt_buildings_view(x.province_buildings)
                    })
                    &&& final(self).origins_by_state@.contains_key(state.state_id)
                    &&& final(self).origins_by_state@[state.state_id] is CreatedInSession
                    &&& final(self).working.properties_by_state@.contains_key(state.state_id)
                    &&& final(self).working.properties_by_state@[state.state_id]@ == state.properties@
                    &&& final(self).removed_state_ids@ == old(self).removed_state_ids@.remove(state.state_id)
                },
                StateEditCommand::RemoveState { state, deltas, .. } => forward ==> {
                    &&& final(self).removed_state_ids@ == old(self).removed_state_ids@.insert(state.state_id)
                    &&& !final(self).working.properties_by_state@.contains_key(state.state_id)
                    &&& forall|p: u32| #[trigger] delta_of(deltas@, p) matches Some(x) ==> {
                        &&& final(self).working.points_owned(x.to_state_id, p) == arrived(
                            old(self).working.points_owned(x.to_state_id, p),
                            x.to_state_id,
                            x.victory_points@,
                        )
                        &&& opt_buildings_view(final(self).working.buildings_of(x.to_state_id, p)) == (match x.province_buildings {
                            Some(m) => Some(m@),
                            None => opt_buildings_view(old(self).working.buildings_of(x.to_state_id, p)),
                        })
                    }
                },
            },
            detached_own(point_lists(final(self).working.detached_victory_points@)),
    {
        let ghost v0 = self.index_view();
        match c {
            StateEditCommand::ReassignProvinces { deltas } => {
                proof {
                    if !forward {
                        assert forall|i: int| 0 <= i < deltas@.len() implies (#[trigger] deltas@[i]).to_state_id
                            == opt_get(self.working.state_by_province@, deltas@[i].province_id) by {
                            lemma_forward_lands(b.state_of, deltas@, i);
                        }
                        lemma_command_round_trip(b, *c, self.known_state_ids@, self.loaded_state_ids@);
                    }
                }
                self.working.apply_deltas(deltas, forward, &self.province_kinds);
                proof {
                    if forward {
                        assert forall|t: u32| delta_targets(deltas@).contains(t) implies v0.listed.contains(t) by {
                            let i = choose|i: int| 0 <= i < deltas@.len() && deltas@[i].to_state_id == Some(t);
                            assert(v0.active.contains(t));
                        }
                        assert(self.working.provinces_by_state@.dom() =~= v0.listed);
                    } else {
                        assert forall|t: u32| delta_sources(deltas@).contains(t) implies b.listed.contains(t) by {
                            let i = choose|i: int| 0 <= i < deltas@.len() && deltas@[i].from_state_id == Some(t);
                            assert(deltas@[i].from_state_id == opt_get(b.state_of, deltas@[i].province_id));
                        }
                        assert(self.working.provinces_by_state@.dom() =~= b.listed);
                    }
                }
            },
            StateEditCommand::UpdateStateProperties { state_id, before, after } => {
                let properties = if forward {
                    after.duplicate()
                } else {
                    before.duplicate()
                };
                self.working.properties_by_state.insert(*state_id, properties);
            },
            StateEditCommand::UpdateProvinceData { province_id, state_id, before, after } => {
                if forward {
                    self.working.set_province_data(*state_id, *province_id, after);
                } else {
                    self.working.set_province_data(*state_id, *province_id, before);
                }
            },
            StateEditCommand::CreateState { state, deltas } => {
                if forward {
                    proof {
                        assert forall|q: u32| #[trigger] preimage(self.working.state_by_province@, state.state_id).contains(q) implies false by {
                            assert(v0.listed.contains(self.working.state_by_province@[q]));
                        }
                        assert(preimage(self.working.state_by_province@, state.state_id) =~= Set::<u32>::empty());
                    }
                    self.restore_state(state);
                    let ghost restored = self.working;
                    self.working.apply_deltas(deltas, true, &self.province_kinds);
                    proof {
                        if state.victory_points@.len() == 0 && state.province_buildings@ == Map::<u32, Buildings>::empty() {
                            let id = state.state_id;
                            assert forall|p: u32| #[trigger] delta_of(deltas@, p) is Some implies {
                                let x = delta_of(deltas@, p).unwrap();
                                &&& self.working.points_owned(Some(id), p) == x.victory_points@
                                &&& opt_buildings_view(self.working.buildings_of(Some(id), p)) == opt_buildings_view(
                                    x.province_buildings,
                                )
                            } by {
                                lemma_delta_of_some(deltas@, p);
                                let x = delta_of(deltas@, p).unwrap();
                                let k = choose|k: int| 0 <= k < deltas@.len() && deltas@[k] == x && x.province_id == p;
                                assert(deltas@[k].to_state_id == Some(id));
                                assert(restored.victory_points_by_state@[id]@ =~= Seq::<VictoryPoint>::empty());
                                assert(points_of(Seq::<VictoryPoint>::empty(), p) =~= Seq::<VictoryPoint>::empty()) by {
                                    reveal(Seq::filter);
                                }
                                assert(Seq::<VictoryPoint>::empty() + x.victory_points@ =~= x.victory_points@);
                                assert(!restored.province_buildings_by_state@[id]@.contains_key(p));
                            }
                        }
                    }
                    proof {
                        assert forall|t: u32| delta_targets(deltas@).contains(t) implies t == state.state_id by {
                            let i = choose|i: int| 0 <= i < deltas@.len() && deltas@[i].to_state_id == Some(t);
                        }
                        assert(self.working.provinces_by_state@.dom() =~= v0.listed.insert(state.state_id));
                    }
                } else {
                    proof {
                        assert forall|i: int| 0 <= i < deltas@.len() implies (#[trigger] deltas@[i]).to_state_id
                            == opt_get(self.working.state_by_province@, deltas@[i].province_id) by {
                            lemma_forward_lands(b.state_of, deltas@, i);
                        }
                        lemma_command_round_trip(b, *c, self.known_state_ids@, self.loaded_state_ids@);
                    }
                    self.working.apply_deltas(deltas, false, &self.province_kinds);
                    proof {
                        assert forall|t: u32| delta_sources(deltas@).contains(t) implies b.listed.contains(t) by {
                            let i = choose|i: int| 0 <= i < deltas@.len() && deltas@[i].from_state_id == Some(t);
                            assert(deltas@[i].from_state_id == opt_get(b.state_of, deltas@[i].province_id));
                        }
                        assert forall|q: u32| #[trigger] preimage(self.working.state_by_province@, state.state_id).contains(q) implies false by {
                            assert(b.listed.contains(b.state_of[q]));
                        }
                        assert(preimage(self.working.state_by_province@, state.state_id) =~= Set::<u32>::empty());
                    }
                    self.remove_state_snapshot(state.state_id, false);
                    proof {
                        assert(self.working.provinces_by_state@.dom() =~= b.listed);
                        assert(self.valid_state_ids@ =~= b.active);
                    }
                }
            },
            StateEditCommand::RemoveState { state, deltas, .. } => {
                if forward {
                    self.working.apply_deltas(deltas, true, &self.province_kinds);
                    let ghost mid = self.working;
                    proof {
                        let s = state.state_id;
                        let m = self.working.state_by_province@;
                        assert forall|q: u32| #[trigger] preimage(m, s).contains(q) implies false by {
                            lemma_moved_forward_closed(v0.state_of, deltas@, q);
                            lemma_last_target_some(deltas@, q);
                            assert(opt_get(m, q) == Some(s));
                            if !delta_provinces(deltas@).contains(q) {
                                assert(!preimage(v0.state_of, s).contains(q));
                            }
                        }
                        assert(preimage(m, s) =~= Set::<u32>::empty());
                    }
                    self.remove_state_snapshot(state.state_id, true);
                    proof {
                        assert forall|p: u32| #[trigger] delta_of(deltas@, p) is Some implies {
                            let x = delta_of(deltas@, p).unwrap();
                            &&& self.working.points_owned(x.to_state_id, p) == mid.points_owned(x.to_state_id, p)
                            &&& self.working.buildings_of(x.to_state_id, p) == mid.buildings_of(x.to_state_id, p)
                        } by {
                            lemma_delta_of_some(deltas@, p);
                            let x = delta_of(deltas@, p).unwrap();
                            let k = choose|k: int| 0 <= k < deltas@.len() && deltas@[k] == x && x.province_id == p;
                            assert(deltas@[k].to_state_id == policy_target_of(*c));
                        }
                    }
                    proof {
                        assert forall|t: u32| delta_targets(deltas@).contains(t) implies v0.listed.contains(t) && t != state.state_id by {
                            let i = choose|i: int| 0 <= i < deltas@.len() && deltas@[i].to_state_id == Some(t);
                        }
                        assert(self.working.provinces_by_state@.dom() =~= v0.listed.remove(state.state_id));
                    }
                } else {
                    proof {
                        assert forall|i: int| 0 <= i < deltas@.len() implies (#[trigger] deltas@[i]).to_state_id
                            == opt_get(self.working.state_by_province@, deltas@[i].province_id) by {
                            lemma_forward_lands(b.state_of, deltas@, i);
                        }
                        lemma_command_round_trip(b, *c, self.known_state_ids@, self.loaded_state_ids@);
                    }
                    self.working.apply_deltas(deltas, false, &self.province_kinds);
                    self.restore_state(state);
                    proof {
                        assert forall|t: u32| delta_sources(deltas@).contains(t) implies t == state.state_id by {
                            let i = choose|i: int| 0 <= i < deltas@.len() && deltas@[i].from_state_id == Some(t);
                            assert(deltas@[i].from_state_id == opt_get(b.state_of, deltas@[i].province_id));
                            assert(preimage(b.state_of, state.state_id).contains(deltas@[i].province_id)) by {
                                assert(delta_provinces(deltas@).contains(deltas@[i].province_id));
                            }
                        }
                        assert(self.working.provinces_by_state@.dom() =~= b.listed);
                        assert(self.valid_state_ids@ =~= b.active);
                    }
                }
            },
        }
        proof {
            let pv = properties_views(self.working.properties_by_state@);
            if forward {
                assert(pv =~= command_forward(v0, *c).properties);
            } else {
                let pv0 = properties_views(old(self).working.properties_by_state@);
                assert(pv0 == command_forward(b, *c).properties);
                match c {
                    StateEditCommand::CreateState { state, .. } => {
                        assert(b.properties.insert(state.state_id, state.properties@).remove(state.state_id) =~= b.properties);
                    },
                    StateEditCommand::RemoveState { state, .. } => {
                        assert(b.properties.remove(state.state_id).insert(state.state_id, state.properties@) =~= b.properties);
                    },
                    StateEditCommand::UpdateStateProperties { state_id, before, after } => {
                        assert(b.properties.insert(*state_id, after@).insert(*state_id, before@) =~= b.properties);
                    },
                    _ => {},
                }
                assert(pv =~= b.properties);
            }
        }
    }
}

/// The state a removal moves its provinces to, if any.
pub open spec fn policy_target_of(c: StateEditCommand) -> Option<u32> {
    match c {
        StateEditCommand::RemoveState { policy, .. } => policy.target_spec(),
        _ => None,
    }
}

pub open spec fn as_result(e: Option<StateEditError>) -> Result<(), StateEditError> {
    match e {
        Some(e) => Err(e),
        None => Ok(()),
    }
}

impl StateEditSession {
    proof fn lemma_first_error_extends(&self, ids: Seq<u32>, n: int, target: Option<u32>)
        requires
            0 <= n <= ids.len(),
            self.first_move_error(ids.take(n), target) is Some,
        ensures
            self.first_move_error(ids, target) == self.first_move_error(ids.take(n), target),
        decreases ids.len() - n,
    {
        if n < ids.len() {
            assert(ids.drop_last().take(n) =~= ids.take(n));
            self.lemma_first_error_extends(ids.drop_last(), n, target);
        } else {
            assert(ids.take(n) =~= ids);
        }
    }

    fn validate_target_state(&self, s: u32) -> (r: Result<(), StateEditError>)
        ensures
            r == as_result(self.target_state_error(s)),
    {
        if s == 0 {
            return Err(StateEditError::TargetStateInvalid(s));
        }
        if self.known_state_ids.contains(&s) && !self.valid_state_ids.contains(&s) {
            return Err(StateEditError::TargetStateInvalid(s));
        }
        if !self.valid_state_ids.contains(&s) {
            return Err(StateEditError::TargetStateNotFound(s));
        }
        Ok(())
    }

    fn validate_selectable_province(&self, p: u32) -> (r: Result<(), StateEditError>)
        ensures
            r == as_result(self.province_error(p)),
    {
        let kind = match self.province_kinds.get(&p) {
            Some(kind) => *kind,
            None => {
                return Err(StateEditError::ProvinceNotFound(p));
            },
        };
        if kind != ProvinceKind::Land {
            return Err(StateEditError::ProvinceIsNotLand(p));
        }
        if self.ambiguous_provinces.contains(&p) {
            return Err(StateEditError::AmbiguousProvince(p));
        }
        if let Some(s) = self.working.state_by_province.get(&p) {
            if !self.valid_state_ids.contains(s) {
                return Err(StateEditError::ProvinceInInvalidState { province_id: p, state_id: *s });
            }
        }
        Ok(())
    }

    fn validate_no_provincial_data_conflict(&self, p: u32, t: u32, from: Option<u32>) -> (r: Result<(), StateEditError>)
        requires
            from == opt_get(self.working.state_by_province@, p),
        ensures
            r == as_result(if self.data_conflict(p, t) {
                Some(StateEditError::ProvincialDataConflict { province_id: p, target_state_id: t })
            } else {
                None
            }),
    {
        if from == Some(t) {
            return Ok(());
        }
        let incoming_points = self.working.victory_points_owned(from, p).len() > 0;
        let target_points = self.working.victory_points_owned(Some(t), p).len() > 0;
        let incoming_buildings = self.working.province_buildings_for(from, p).is_some();
        let target_buildings = self.working.province_buildings_for(Some(t), p).is_some();
        if (incoming_points && target_points) || (incoming_buildings && target_buildings) {
            return Err(StateEditError::ProvincialDataConflict { province_id: p, target_state_id: t });
        }
        Ok(())
    }

    /// The deltas that move the listed provinces to `target`, each province
    /// once, skipping those already there.
    fn build_province_deltas(&self, ids: &[u32], target: Option<u32>) -> (r: Result<Vec<ProvinceEditDelta>, StateEditError>)
        requires
            detached_own(point_lists(self.working.detached_victory_points@)),
        ensures
            match r {
                Ok(d) => {
                    &&& deltas_carry_own(d@)
                    &&& forall|k: int| 0 <= k < d@.len() ==> (#[trigger] d@[k]).victory_points@ == self.working.points_owned(
                        d@[k].from_state_id,
                        d@[k].province_id,
                    ) && self.move_error(d@[k].province_id, target) is None
                    &&& forall|k: int| 0 <= k < d@.len() ==> opt_buildings_view((#[trigger] d@[k]).province_buildings)
                        == opt_buildings_view(self.working.buildings_of(d@[k].from_state_id, d@[k].province_id))
                    &&& self.first_move_error(ids@, target) is None
                    &&& distinct_provinces(d@)
                    &&& deltas_start_at(self.working.state_by_province@, d@)
                    &&& delta_provinces(d@) == self.moving(ids@.to_set(), target)
                    &&& forall|i: int| 0 <= i < d@.len() ==> (#[trigger] d@[i]).to_state_id == target
                        && d@[i].from_state_id != target
                },
                Err(e) => self.first_move_error(ids@, target) == Some(e),
            },
    {
        let mut unique: BTreeSet<u32> = BTreeSet::new();
        let mut deltas: Vec<ProvinceEditDelta> = Vec::new();
        let mut i: usize = 0;
        proof {
            assert(ids@.take(0) =~= Seq::<u32>::empty());
            assert(unique@ =~= ids@.take(0).to_set());
            assert(delta_provinces(deltas@) =~= self.moving(ids@.take(0).to_set(), target));
        }
        while i < ids.len()
            invariant
                i <= ids@.len(),
                unique@ == ids@.take(i as int).to_set(),
                self.first_move_error(ids@.take(i as int), target) is None,
                forall|q: u32| #[trigger] unique@.contains(q) ==> self.move_error(q, target) is None,
                distinct_provinces(deltas@),
                deltas_start_at(self.working.state_by_province@, deltas@),
                delta_provinces(deltas@) == self.moving(ids@.take(i as int).to_set(), target),
                forall|k: int| 0 <= k < deltas@.len() ==> (#[trigger] deltas@[k]).to_state_id == target
                    && deltas@[k].from_state_id != target,
                detached_own(point_lists(self.working.detached_victory_points@)),
                deltas_carry_own(deltas@),
                forall|k: int| 0 <= k < deltas@.len() ==> (#[trigger] deltas@[k]).victory_points@ == self.working.points_owned(
                    deltas@[k].from_state_id,
                    deltas@[k].province_id,
                ) && self.move_error(deltas@[k].province_id, target) is None,
                forall|k: int| 0 <= k < deltas@.len() ==> opt_buildings_view((#[trigger] deltas@[k]).province_buildings)
                    == opt_buildings_view(self.working.buildings_of(deltas@[k].from_state_id, deltas@[k].province_id)),
            decreases ids@.len() - i,
        {
            let p = ids[i];
            let ghost prefix = ids@.take(i as int);
            proof {
                assert(ids@.take(i + 1) =~= prefix.push(p));
                assert(ids@.take(i + 1).drop_last() =~= prefix);
                crate::facts::lemma_push_to_set(prefix, p);
            }
            if !unique.insert(p) {
                proof {
                    assert(self.moving(ids@.take(i + 1).to_set(), target) =~= self.moving(prefix.to_set(), target));
                }
                i = i + 1;
                continue;
            }
            match self.validate_selectable_province(p) {
                Err(e) => {
                    proof {
                        self.lemma_first_error_extends(ids@, i + 1, target);
                    }
                    return Err(e);
                },
                Ok(()) => {},
            }
            let from = match self.working.state_by_province.get(&p) {
                Some(s) => Some(*s),
                None => None,
            };
            if from == target {
                proof {
                    assert(self.moving(ids@.take(i + 1).to_set(), target) =~= self.moving(prefix.to_set(), target));
                }
                i = i + 1;
                continue;
            }
            if let Some(t) = target {
                match self.validate_no_provincial_data_conflict(p, t, from) {
                    Err(e) => {
                        proof {
                            self.lemma_first_error_extends(ids@, i + 1, target);
                        }
                        return Err(e);
                    },
                    Ok(()) => {},
                }
            }
            let victory_points = self.working.victory_points_owned(from, p);
            let province_buildings = match self.working.province_buildings_for(from, p) {
                Some(b) => Some(b.duplicate()),
                None => None,
            };
            let ghost before = deltas@;
            proof {
                lemma_points_owned_all_of(self.working, from, p);
            }
            deltas.push(ProvinceEditDelta { province_id: p, from_state_id: from, to_state_id: target, victory_points, province_buildings });
            proof {
                assert forall|k: int| 0 <= k < deltas@.len() implies all_of((#[trigger] deltas@[k]).victory_points@, deltas@[k].province_id)
                    && deltas@[k].from_state_id != deltas@[k].to_state_id by {
                    if k < before.len() {
                        assert(deltas@[k] == before[k]);
                    }
                }
                assert forall|a: int, b: int| 0 <= a < b < deltas@.len() implies deltas@[a].province_id != deltas@[b].province_id by {
                    if b == deltas@.len() - 1 && deltas@[a].province_id == p {
                        assert(before[a] == deltas@[a]);
                        assert(delta_provinces(before).contains(p));
                        assert(self.moving(prefix.to_set(), target).contains(p));
                        assert(false);
                    }
                }
                assert forall|k: int| 0 <= k < deltas@.len() implies (#[trigger] deltas@[k]).from_state_id
                    == opt_get(self.working.state_by_province@, deltas@[k].province_id) by {
                    if k < before.len() {
                        assert(deltas@[k] == before[k]);
                    }
                }
                assert forall|q: u32| delta_provinces(deltas@).contains(q) <==> self.moving(ids@.take(i + 1).to_set(), target).contains(q) by {
                    if delta_provinces(deltas@).contains(q) && q != p {
                        let k = choose|k: int| 0 <= k < deltas@.len() && deltas@[k].province_id == q;
                        assert(before[k] == deltas@[k]);
                        assert(delta_provinces(before).contains(q));
                    }
                    if delta_provinces(before).contains(q) {
                        let k = choose|k: int| 0 <= k < before.len() && before[k].province_id == q;
                        assert(deltas@[k] == before[k]);
                    }
                    if q == p {
                        assert(deltas@[deltas@.len() - 1].province_id == p);
                    }
                }
                assert(delta_provinces(deltas@) =~= self.moving(ids@.take(i + 1).to_set(), target));
            }
            i = i + 1;
        }
        proof {
            assert(ids@.take(ids@.len() as int) =~= ids@);
        }
        Ok(deltas)
    }
}

/// How many loaded states carry the id `s`.
pub open spec fn id_count(states: Seq<LoadedState>, s: u32) -> nat
    decreases states.len(),
{
    if states.len() == 0 {
        0
    } else {
        id_count(states.drop_last(), s) + (if states.last().state_id == s { 1nat } else { 0nat })
    }
}

/// The states that can be edited: a nonzero id carried by exactly one
/// document, and that document structurally valid.
/// A state document can be edited in a session when it parsed and carries
/// no error diagnostic.
pub open spec fn document_editable(parsed: bool, diagnostics: Seq<ProjectDiagnostic>) -> bool {
    parsed && forall|i: int| 0 <= i < diagnostics.len() ==> (#[trigger] diagnostics[i]).severity != DiagnosticSeverity::Error
}

/// Whether a state document can be edited: it parsed, and none of its
/// diagnostics is an error. This is the `structurally_valid` of a loaded
/// state.
pub fn document_structurally_valid(parsed: bool, diagnostics: &Vec<ProjectDiagnostic>) -> (r: bool)
    ensures
        r == document_editable(parsed, diagnostics@),
{
    if !parsed {
        return false;
    }
    let mut i: usize = 0;
    while i < diagnostics.len()
        invariant
            i <= diagnostics@.len(),
            forall|k: int| 0 <= k < i ==> (#[trigger] diagnostics@[k]).severity != DiagnosticSeverity::Error,
        decreases diagnostics@.len() - i,
    {
        if diagnostics[i].severity == DiagnosticSeverity::Error {
            return false;
        }
        i = i + 1;
    }
    true
}

/// The last loaded document of state `s`, which gives the state its data.
pub open spec fn last_loaded(states: Seq<LoadedState>, s: u32) -> Option<LoadedState>
    decreases states.len(),
{
    if states.len() == 0 {
        None
    } else if states.last().state_id == s {
        Some(states.last())
    } else {
        last_loaded(states.drop_last(), s)
    }
}

/// The loaded data of state `s`: its document's properties, victory points
/// and province buildings.
pub open spec fn loaded_matches(
    props: Map<u32, EditableStateProperties>,
    points: Map<u32, Vec<VictoryPoint>>,
    buildings: Map<u32, BTreeMap<u32, Buildings>>,
    states: Seq<LoadedState>,
) -> bool {
    &&& forall|s: u32| #[trigger] props.contains_key(s) <==> last_loaded(states, s) is Some
    &&& forall|s: u32| #[trigger] points.contains_key(s) <==> last_loaded(states, s) is Some
    &&& forall|s: u32| #[trigger] buildings.contains_key(s) <==> last_loaded(states, s) is Some
    &&& forall|s: u32| #[trigger] last_loaded(states, s) matches Some(l) ==> {
        &&& props[s]@ == l.properties@
        &&& points[s]@ == l.victory_points@
        &&& buildings[s]@ == l.province_buildings@
    }
}

pub open spec fn editable_ids(states: Seq<LoadedState>) -> Set<u32> {
    Set::new(|s: u32| s != 0 && id_count(states, s) == 1
        && exists|i: int| 0 <= i < states.len() && states[i].state_id == s && states[i].structurally_valid)
}

/// The ids a session reserves from its source: the documents' ids, the
/// loaded states' ids and the states provinces are assigned to, but 0.
pub open spec fn source_known_ids(source: StateEditSource) -> Set<u32> {
    Set::new(|s: u32| s != 0 && (source.known_state_ids@.contains(s)
        || (exists|i: int| 0 <= i < source.states@.len() && source.states@[i].state_id == s)
        || (exists|p: u32| source.state_by_province@.contains_key(p) && source.state_by_province@[p] == s)))
}

proof fn lemma_id_count_step(states: Seq<LoadedState>, i: int, s: u32)
    requires
        0 <= i < states.len(),
    ensures
        id_count(states.take(i + 1), s) == id_count(states.take(i), s) + (if states[i].state_id == s { 1nat } else { 0nat }),
{
    assert(states.take(i + 1).drop_last() =~= states.take(i));
}

proof fn lemma_id_count_unique(states: Seq<LoadedState>, i: int, j: int)
    requires
        0 <= i < states.len(),
        0 <= j < states.len(),
        i != j,
        states[i].state_id == states[j].state_id,
    ensures
        id_count(states, states[i].state_id) >= 2,
    decreases states.len(),
{
    let s = states[i].state_id;
    let last = states.len() - 1;
    if i == last || j == last {
        let other = if i == last { j } else { i };
        lemma_id_count_present(states.drop_last(), other, s);
    } else {
        lemma_id_count_unique(states.drop_last(), i, j);
    }
}

proof fn lemma_id_count_present(states: Seq<LoadedState>, i: int, s: u32)
    requires
        0 <= i < states.len(),
        states[i].state_id == s,
    ensures
        id_count(states, s) >= 1,
    decreases states.len(),
{
    if i < states.len() - 1 {
        lemma_id_count_present(states.drop_last(), i, s);
    }
}

impl StateEditSession {
    /// Starts a session over the given provinces and states.
    #[verifier::rlimit(80)]
    pub fn new(source: &StateEditSource) -> (r: Self)
        ensures
            r.wf(),
            r.state_of() == source.state_by_province@,
            r.kinds() == source.province_kinds@,
            r.ambiguous() == source.ambiguous_provinces@,
            r.active() == editable_ids(source.states@),
            r.known() == source_known_ids(*source),
            r.unassigned() == unassigned_land(source.province_kinds@, source.state_by_province@),
            r.selection() == Set::<u32>::empty(),
            r.target() is None,
            r.undo_len() == 0,
            r.redo_len() == 0,
            r.dirty() == Set::<u32>::empty(),
            r.removed() == Set::<u32>::empty(),
            r.revision_spec() == 0,
            forall|st: u32| #[trigger] r.properties_of().contains_key(st) <==> last_loaded(source.states@, st) is Some,
            forall|st: u32| #[trigger] r.properties_of().contains_key(st) ==> r.properties_of()[st]@ == last_loaded(
                source.states@,
                st,
            ).unwrap().properties@,
            forall|st: u32, p: u32| #[trigger] r.points_in(Some(st), p) == (match last_loaded(source.states@, st) {
                Some(l) => points_of(l.victory_points@, p),
                None => Seq::<VictoryPoint>::empty(),
            }),
            forall|p: u32| #[trigger] r.points_in(None, p) == Seq::<VictoryPoint>::empty(),
            forall|st: u32, p: u32| #[trigger] opt_buildings_view(r.buildings_in(Some(st), p)) == (match last_loaded(
                source.states@,
                st,
            ) {
                Some(l) => if l.province_buildings@.contains_key(p) {
                    Some(l.province_buildings@[p]@)
                } else {
                    None
                },
                None => None,
            }),
            forall|p: u32| #[trigger] r.buildings_in(None, p) is None,
            r.properties_of() == r.loaded_properties(),
            forall|p: u32| #[trigger] r.victory_point_at(p) == r.loaded_victory_point_at(p),
            forall|p: u32| #[trigger] r.buildings_at(p) == r.loaded_buildings_at(p),
            r.loaded_state_of() == r.state_of(),
            r.loaded_listed() == r.provinces_of().dom(),
            r.loaded_active() == r.active(),
            forall|st: Option<u32>, p: u32| #[trigger] r.loaded_points_in(st, p) == r.points_in(st, p),
            forall|st: Option<u32>, p: u32| #[trigger] r.loaded_buildings_in(st, p) == r.buildings_in(st, p),
    {
        let mut working = StateWorkingSet::empty();
        working.state_by_province = source.state_by_province.clone();
        let ghost sbp = source.state_by_province@;
        let provinces = map_keys(&source.state_by_province);
        let mut i: usize = 0;
        while i < provinces.len()
            invariant
                i <= provinces@.len(),
                provinces@.to_set() == sbp.dom(),
                provinces@.no_duplicates(),
                working.properties_by_state@ == Map::<u32, EditableStateProperties>::empty(),
                working.detached_victory_points@ == Map::<u32, Vec<VictoryPoint>>::empty(),
                working.victory_points_by_state@ == Map::<u32, Vec<VictoryPoint>>::empty(),
                working.province_buildings_by_state@ == Map::<u32, BTreeMap<u32, Buildings>>::empty(),
                working.detached_province_buildings@ == Map::<u32, Buildings>::empty(),
                source.state_by_province@ == sbp,
                working.state_by_province@ == sbp,
                forall|s: u32| #[trigger] working.provinces_by_state@.contains_key(s)
                    <==> exists|k: int| 0 <= k < i && sbp[provinces@[k]] == s,
                forall|s: u32| #[trigger] working.provinces_by_state@.contains_key(s)
                    ==> working.provinces_by_state@[s]@ == preimage(sbp, s).intersect(provinces@.take(i as int).to_set()),
            decreases provinces@.len() - i,
        {
            let p = provinces[i];
            proof {
                assert(provinces@[i as int] == p);
                assert(provinces@.to_set().contains(p));
                assert(sbp.contains_key(p));
                assert(provinces@.take(i + 1) =~= provinces@.take(i as int).push(p));
                crate::facts::lemma_push_to_set(provinces@.take(i as int), p);
            }
            let s = *source.state_by_province.get(&p).unwrap();
            let ghost before = working.provinces_by_state@;
            let mut list = match working.provinces_by_state.remove(&s) {
                Some(existing) => existing,
                None => BTreeSet::new(),
            };
            list.insert(p);
            working.provinces_by_state.insert(s, list);
            proof {
                let done = provinces@.take(i + 1).to_set();
                assert forall|t: u32| #[trigger] working.provinces_by_state@.contains_key(t)
                    implies working.provinces_by_state@[t]@ == preimage(sbp, t).intersect(done) by {
                    if t == s {
                        if !before.contains_key(s) {
                            assert forall|q: u32| preimage(sbp, s).intersect(provinces@.take(i as int).to_set()).contains(q) implies false by {
                                let k = choose|k: int| 0 <= k < i && provinces@.take(i as int)[k] == q;
                                assert(provinces@[k] == q);
                                assert(sbp[provinces@[k]] == s);
                            }
                        }
                    }
                    assert(working.provinces_by_state@[t]@ =~= preimage(sbp, t).intersect(done));
                }
                assert forall|t: u32| #[trigger] working.provinces_by_state@.contains_key(t)
                    <==> exists|k: int| 0 <= k < i + 1 && sbp[provinces@[k]] == t by {
                    if t == s {
                        assert(sbp[provinces@[i as int]] == t);
                    }
                    if exists|k: int| 0 <= k < i + 1 && sbp[provinces@[k]] == t {
                        let k = choose|k: int| 0 <= k < i + 1 && sbp[provinces@[k]] == t;
                        if k < i {
                            assert(before.contains_key(t));
                        }
                    }
                }
            }
            i = i + 1;
        }
        proof {
            assert(provinces@.take(provinces@.len() as int) =~= provinces@);
            assert forall|q: u32| sbp.contains_key(q) implies working.provinces_by_state@.contains_key(#[trigger] sbp[q]) by {
                assert(provinces@.to_set().contains(q));
                let k = choose|k: int| 0 <= k < provinces@.len() && provinces@[k] == q;
            }
            assert forall|t: u32| #[trigger] working.provinces_by_state@.contains_key(t)
                implies working.provinces_by_state@[t]@ == preimage(sbp, t) by {
                assert(preimage(sbp, t).intersect(provinces@.to_set()) =~= preimage(sbp, t));
            }
        }
        let mut counts: BTreeMap<u32, usize> = BTreeMap::new();
        let mut j: usize = 0;
        proof {
            assert(source.states@.take(0) =~= Seq::<LoadedState>::empty());
        }
        while j < source.states.len()
            invariant
                j <= source.states@.len(),
                forall|s: u32| #[trigger] counts@.contains_key(s) ==> counts@[s] == id_count(source.states@.take(j as int), s)
                    && counts@[s] <= j,
                forall|s: u32| !counts@.contains_key(s) ==> #[trigger] id_count(source.states@.take(j as int), s) == 0,
                working.lists_consistent(),
                working.state_by_province@ == sbp,
                forall|s: u32| #[trigger] working.provinces_by_state@.contains_key(s)
                    ==> (exists|p: u32| sbp.contains_key(p) && sbp[p] == s)
                        || (exists|k: int| 0 <= k < j && source.states@[k].state_id == s),
                forall|k: int| 0 <= k < j ==> working.provinces_by_state@.contains_key(#[trigger] source.states@[k].state_id),
                forall|s: u32| #[trigger] working.properties_by_state@.contains_key(s) ==> working.provinces_by_state@.contains_key(s),
                working.detached_victory_points@ == Map::<u32, Vec<VictoryPoint>>::empty(),
                working.detached_province_buildings@ == Map::<u32, Buildings>::empty(),
                loaded_matches(
                    working.properties_by_state@,
                    working.victory_points_by_state@,
                    working.province_buildings_by_state@,
                    source.states@.take(j as int),
                ),
            decreases source.states@.len() - j,
        {
            let state = &source.states[j];
            let id = state.state_id;
            proof {
                assert forall|s: u32| #[trigger] id_count(source.states@.take(j + 1), s)
                    == id_count(source.states@.take(j as int), s) + (if source.states@[j as int].state_id == s { 1nat } else { 0nat }) by {
                    lemma_id_count_step(source.states@, j as int, s);
                }
            }
            let count = match counts.get(&id) {
                Some(c) => *c,
                None => 0,
            };
            counts.insert(id, count + 1);
            working.properties_by_state.insert(id, state.properties.duplicate());
            working.victory_points_by_state.insert(id, copy_points(&state.victory_points));
            working.province_buildings_by_state.insert(id, state.province_buildings.clone());
            if state.has_dated_history {
                working.dated_history_states.insert(id);
            }
            if !working.provinces_by_state.contains_key(&id) {
                proof {
                    assert(preimage(sbp, id) =~= Set::<u32>::empty());
                }
                working.provinces_by_state.insert(id, BTreeSet::new());
            }
            proof {
                let t0 = source.states@.take(j as int);
                let t1 = source.states@.take(j + 1);
                assert(t1.drop_last() =~= t0);
                assert(t1.last() == source.states@[j as int]);
                assert forall|s: u32| #[trigger] last_loaded(t1, s) == (if s == id { Some(source.states@[j as int]) } else { last_loaded(t0, s) }) by {}
                assert(loaded_matches(
                    working.properties_by_state@,
                    working.victory_points_by_state@,
                    working.province_buildings_by_state@,
                    t1,
                ));
            }
            proof {
                assert forall|k: int| 0 <= k < j + 1 implies working.provinces_by_state@.contains_key(#[trigger] source.states@[k].state_id) by {}
                assert forall|s: u32| #[trigger] working.provinces_by_state@.contains_key(s)
                    implies (exists|p: u32| sbp.contains_key(p) && sbp[p] == s)
                        || (exists|k: int| 0 <= k < j + 1 && source.states@[k].state_id == s) by {
                    if s == id {
                        assert(source.states@[j as int].state_id == s);
                    }
                }
            }
            j = j + 1;
        }
        proof {
            assert(source.states@.take(source.states@.len() as int) =~= source.states@);
        }
        let mut valid: BTreeSet<u32> = BTreeSet::new();
        let mut origins: BTreeMap<u32, WorkingStateOrigin> = BTreeMap::new();
        let mut known: BTreeSet<u32> = BTreeSet::new();
        let mut k: usize = 0;
        while k < source.states.len()
            invariant
                k <= source.states@.len(),
                forall|s: u32| #[trigger] counts@.contains_key(s) ==> counts@[s] == id_count(source.states@, s),
                forall|s: u32| !counts@.contains_key(s) ==> #[trigger] id_count(source.states@, s) == 0,
                valid@ == Set::new(|s: u32| editable_ids(source.states@).contains(s)
                    && exists|x: int| 0 <= x < k && source.states@[x].state_id == s),
                forall|s: u32| #[trigger] origins@.contains_key(s) <==> valid@.contains(s),
                forall|s: u32| #[trigger] origins@.contains_key(s) ==> origins@[s] is Loaded,
                known@ == Set::new(|s: u32| s != 0 && exists|x: int| 0 <= x < k && source.states@[x].state_id == s),
            decreases source.states@.len() - k,
        {
            let state = &source.states[k];
            let id = state.state_id;
            let count = match counts.get(&id) {
                Some(c) => *c,
                None => 0,
            };
            proof {
                lemma_id_count_present(source.states@, k as int, id);
            }
            if id != 0 {
                known.insert(id);
            }
            if id != 0 && count == 1 && state.structurally_valid {
                valid.insert(id);
                origins.insert(id, WorkingStateOrigin::Loaded { document_path: state.document_path.clone() });
            }
            proof {
                assert forall|s: u32| #[trigger] valid@.contains(s) <==> (editable_ids(source.states@).contains(s)
                    && exists|x: int| 0 <= x < k + 1 && source.states@[x].state_id == s) by {
                    if editable_ids(source.states@).contains(s) && s == id {
                        let x = choose|x: int| 0 <= x < source.states@.len() && source.states@[x].state_id == s && source.states@[x].structurally_valid;
                        if x != k {
                            lemma_id_count_unique(source.states@, x, k as int);
                        }
                    }
                    if exists|x: int| 0 <= x < k + 1 && source.states@[x].state_id == s {
                        let x = choose|x: int| 0 <= x < k + 1 && source.states@[x].state_id == s;
                        if x < k {
                            assert(exists|y: int| 0 <= y < k && source.states@[y].state_id == s);
                        }
                    }
                }
                assert(valid@ =~= Set::new(|s: u32| editable_ids(source.states@).contains(s)
                    && exists|x: int| 0 <= x < k + 1 && source.states@[x].state_id == s));
                assert forall|s: u32| #[trigger] known@.contains(s) <==> (s != 0 && exists|x: int| 0 <= x < k + 1 && source.states@[x].state_id == s) by {
                    if s != 0 && exists|x: int| 0 <= x < k + 1 && source.states@[x].state_id == s {
                        let x = choose|x: int| 0 <= x < k + 1 && source.states@[x].state_id == s;
                        if x < k {
                            assert(exists|y: int| 0 <= y < k && source.states@[y].state_id == s);
                        }
                    }
                }
                assert(known@ =~= Set::new(|s: u32| s != 0 && exists|x: int| 0 <= x < k + 1 && source.states@[x].state_id == s));
            }
            k = k + 1;
        }
        let document_ids = set_items(&source.known_state_ids);
        let mut d: usize = 0;
        while d < document_ids.len()
            invariant
                d <= document_ids@.len(),
                document_ids@.to_set() == source.known_state_ids@,
                known@ == Set::new(|s: u32| s != 0 && ((exists|x: int| 0 <= x < source.states@.len() && source.states@[x].state_id == s)
                    || document_ids@.take(d as int).contains(s))),
            decreases document_ids@.len() - d,
        {
            let id = document_ids[d];
            if id != 0 {
                known.insert(id);
            }
            proof {
                let a = document_ids@.take(d as int);
                let b = document_ids@.take(d + 1);
                assert forall|t: u32| b.contains(t) <==> a.contains(t) || t == id by {
                    if b.contains(t) {
                        let x = choose|x: int| 0 <= x < b.len() && b[x] == t;
                        if x < d {
                            assert(a[x] == t);
                        }
                    }
                    if a.contains(t) {
                        let x = choose|x: int| 0 <= x < a.len() && a[x] == t;
                        assert(b[x] == t);
                    }
                    if t == id {
                        assert(b[d as int] == id);
                    }
                }
                assert(known@ =~= Set::new(|s: u32| s != 0 && ((exists|x: int| 0 <= x < source.states@.len() && source.states@[x].state_id == s)
                    || document_ids@.take(d + 1).contains(s))));
            }
            d = d + 1;
        }
        proof {
            assert(document_ids@.take(document_ids@.len() as int) =~= document_ids@);
        }
        let mut q: usize = 0;
        while q < provinces.len()
            invariant
                q <= provinces@.len(),
                provinces@.to_set() == sbp.dom(),
                source.state_by_province@ == sbp,
                known@ == Set::new(|s: u32| s != 0 && ((exists|x: int| 0 <= x < source.states@.len() && source.states@[x].state_id == s)
                    || source.known_state_ids@.contains(s)
                    || exists|y: int| 0 <= y < q && sbp[provinces@[y]] == s)),
            decreases provinces@.len() - q,
        {
            proof {
                assert(provinces@.to_set().contains(provinces@[q as int]));
                assert(sbp.contains_key(provinces@[q as int]));
            }
            let s = *source.state_by_province.get(&provinces[q]).unwrap();
            if s != 0 {
                known.insert(s);
            }
            proof {
                assert forall|t: u32| #[trigger] known@.contains(t) <==> (t != 0 && ((exists|x: int| 0 <= x < source.states@.len() && source.states@[x].state_id == t)
                    || source.known_state_ids@.contains(t)
                    || exists|y: int| 0 <= y < q + 1 && sbp[provinces@[y]] == t)) by {
                    if t == s {
                        assert(sbp[provinces@[q as int]] == t);
                    }
                    if exists|y: int| 0 <= y < q + 1 && sbp[provinces@[y]] == t {
                        let y = choose|y: int| 0 <= y < q + 1 && sbp[provinces@[y]] == t;
                        if y < q {
                            assert(exists|z: int| 0 <= z < q && sbp[provinces@[z]] == t);
                        }
                    }
                }
                assert(known@ =~= Set::new(|t: u32| t != 0 && ((exists|x: int| 0 <= x < source.states@.len() && source.states@[x].state_id == t)
                    || source.known_state_ids@.contains(t)
                    || exists|y: int| 0 <= y < q + 1 && sbp[provinces@[y]] == t)));
            }
            q = q + 1;
        }
        proof {
            assert forall|t: u32| #[trigger] known@.contains(t) <==> source_known_ids(*source).contains(t) by {
                if exists|y: int| 0 <= y < provinces@.len() && sbp[provinces@[y]] == t {
                    let y = choose|y: int| 0 <= y < provinces@.len() && sbp[provinces@[y]] == t;
                    assert(provinces@.to_set().contains(provinces@[y]));
                }
                if exists|p: u32| sbp.contains_key(p) && sbp[p] == t {
                    let p = choose|p: u32| sbp.contains_key(p) && sbp[p] == t;
                    assert(provinces@.to_set().contains(p));
                    let y = choose|y: int| 0 <= y < provinces@.len() && provinces@[y] == p;
                }
            }
            assert(known@ =~= source_known_ids(*source));
            assert(valid@ =~= editable_ids(source.states@));
        }
        working.recompute_unassigned_land(&source.province_kinds);
        let baseline = working.duplicate();
        let ghost loaded = valid@;
        let session = StateEditSession {
            baseline,
            working,
            known_state_ids: known,
            valid_state_ids: valid,
            origins_by_state: origins,
            removed_state_ids: BTreeSet::new(),
            province_kinds: source.province_kinds.clone(),
            ambiguous_provinces: source.ambiguous_provinces.clone(),
            selected_provinces: BTreeSet::new(),
            target_state_id: None,
            undo_stack: Vec::new(),
            redo_stack: Vec::new(),
            dirty_state_ids: BTreeSet::new(),
            session_diagnostics: Vec::new(),
            last_timings: StateEditTimings::zero(),
            last_changed_provinces: BTreeSet::new(),
            revision: 0,
            loaded_state_ids: Ghost(loaded),
            undo_before: Ghost(Seq::empty()),
            redo_after: Ghost(Seq::empty()),
        };
        proof {
            let v = session.index_view();
            assert forall|s: u32| v.active.contains(s) implies v.listed.contains(s) by {
                let x = choose|x: int| 0 <= x < source.states@.len() && source.states@[x].state_id == s && source.states@[x].structurally_valid;
            }
            assert forall|s: u32| #[trigger] v.listed.contains(s) implies s == 0 || session.known_state_ids@.contains(s) || v.active.contains(s) by {
            }
            assert(index_wf(v, session.known_state_ids@));
            assert(session.baseline_view().state_of == v.state_of);
            assert(session.baseline_view().listed == v.listed);
            assert(session.baseline_view().properties =~= v.properties);
            assert(session.baseline_view() == v);
            assert(session.working.lists_consistent());
            assert(session.baseline.lists_consistent());
            assert(point_lists(session.working.detached_victory_points@) =~= Map::<u32, Seq<VictoryPoint>>::empty());
            assert(point_lists(session.baseline.detached_victory_points@) =~= Map::<u32, Seq<VictoryPoint>>::empty());
            assert(session.created_unique());
            assert(session.loaded_state_ids@.subset_of(session.known_state_ids@));
            assert(forall|s: u32| (session.origins_by_state@.contains_key(s) && session.origins_by_state@[s] is Loaded)
                <==> #[trigger] session.loaded_state_ids@.contains(s));
            assert(session.working.unassigned_land_provinces@ == unassigned_land(session.province_kinds@, session.working.state_by_province@));
            assert(session.baseline.unassigned_land_provinces@ == unassigned_land(session.province_kinds@, session.baseline.state_by_province@));
            assert(session.undo_stack@.len() == 0 && session.redo_stack@.len() == 0);
            assert(session.undo_before@.len() == 0 && session.redo_after@.len() == 0);
            assert(session.wf());
        }
        session
    }
}

/// The provinces a command moves.
pub open spec fn moved_by(c: StateEditCommand) -> Set<u32> {
    match c {
        StateEditCommand::ReassignProvinces { deltas } => delta_provinces(deltas@),
        StateEditCommand::CreateState { deltas, .. } => delta_provinces(deltas@),
        StateEditCommand::RemoveState { deltas, .. } => delta_provinces(deltas@),
        _ => Set::empty(),
    }
}

/// How a message names a state, or the lack of one.
pub open spec fn state_label_text(state: Option<u32>) -> Seq<char> {
    match state {
        Some(id) => "State "@ + decimal(id as nat),
        None => "None"@,
    }
}

/// "None", or "State " and the id.
fn state_label(state: Option<u32>) -> (r: String)
    ensures
        r@ == state_label_text(state),
{
    match state {
        Some(id) => {
            let mut out = String::from_str("State ");
            push_decimal(&mut out, id as u64);
            out
        },
        None => String::from_str("None"),
    }
}

/// A session note: its severity and its message.
pub type NoteText = (DiagnosticSeverity, Seq<char>);

/// The warning that a state with dated history blocks kept its unknown
/// references to a moved province, where `state` is such a state.
pub open spec fn dated_history_note(dated: Set<u32>, state: Option<u32>, province: u32) -> Seq<NoteText> {
    match state {
        Some(s) => if dated.contains(s) {
            seq![
                (
                    DiagnosticSeverity::Warning,
                    "State "@ + decimal(s as nat) + " contains dated history blocks; unknown references to province "@
                        + decimal(province as nat) + " were not edited."@,
                ),
            ]
        } else {
            Seq::empty()
        },
        None => Seq::empty(),
    }
}

/// The notes on one moved province: where it went, that it is unassigned
/// where it went nowhere, and the dated history warnings of the state it
/// left and of the state it joined.
pub open spec fn delta_notes(dated: Set<u32>, d: ProvinceEditDelta) -> Seq<NoteText> {
    seq![
        (
            DiagnosticSeverity::Info,
            "Province "@ + decimal(d.province_id as nat) + " was moved from "@ + state_label_text(d.from_state_id)
                + " to "@ + state_label_text(d.to_state_id) + " in memory."@,
        ),
    ] + (if d.to_state_id is None {
        seq![
            (
                DiagnosticSeverity::Warning,
                "Province "@ + decimal(d.province_id as nat) + " is currently unassigned due to an unsaved edit."@,
            ),
        ]
    } else {
        Seq::empty()
    }) + dated_history_note(dated, d.from_state_id, d.province_id) + dated_history_note(
        dated,
        d.to_state_id,
        d.province_id,
    )
}

/// The notes on moved provinces, in their order.
pub open spec fn deltas_notes(dated: Set<u32>, deltas: Seq<ProvinceEditDelta>) -> Seq<NoteText>
    decreases deltas.len(),
{
    if deltas.len() == 0 {
        Seq::empty()
    } else {
        deltas_notes(dated, deltas.drop_last()) + delta_notes(dated, deltas.last())
    }
}

/// The notes that describe a command, given the states whose files hold
/// dated history blocks.
pub open spec fn command_notes(dated: Set<u32>, c: StateEditCommand) -> Seq<NoteText> {
    match c {
        StateEditCommand::ReassignProvinces { deltas } => deltas_notes(dated, deltas@),
        StateEditCommand::UpdateStateProperties { state_id, .. } => seq![
            (DiagnosticSeverity::Info, "State "@ + decimal(state_id as nat) + " properties were updated in memory."@),
        ],
        StateEditCommand::UpdateProvinceData { province_id, state_id, .. } => seq![
            (
                DiagnosticSeverity::Info,
                "Province "@ + decimal(province_id as nat) + " data in State "@ + decimal(state_id as nat)
                    + " was updated in memory."@,
            ),
        ],
        StateEditCommand::CreateState { state, deltas } => seq![
            (
                DiagnosticSeverity::Info,
                "State "@ + decimal(state.state_id as nat) + " was created in memory and has no backing file."@,
            ),
        ] + (if deltas@.len() == 0 {
            seq![
                (
                    DiagnosticSeverity::Warning,
                    "State "@ + decimal(state.state_id as nat) + " currently has no provinces."@,
                ),
            ]
        } else {
            Seq::empty()
        }),
        StateEditCommand::RemoveState { state, policy, deltas } => seq![
            (
                DiagnosticSeverity::Info,
                "State "@ + decimal(state.state_id as nat) + " is marked as removed in the current session."@,
            ),
            match policy {
                StateRemovalPolicy::MoveToState(target) => (
                    DiagnosticSeverity::Info,
                    decimal(deltas@.len()) + " provinces were moved from removed State "@ + decimal(
                        state.state_id as nat,
                    ) + " to State "@ + decimal(target as nat) + "."@,
                ),
                StateRemovalPolicy::Unassign => (
                    if deltas@.len() > 0 {
                        DiagnosticSeverity::Warning
                    } else {
                        DiagnosticSeverity::Info
                    },
                    decimal(deltas@.len()) + " provinces are temporarily unassigned after removing State "@
                        + decimal(state.state_id as nat) + "."@,
                ),
            },
        ],
    }
}

/// A session diagnostic that carries a note.
pub open spec fn note_diagnostic(n: NoteText) -> DiagnosticView {
    new_diagnostic_view(ProjectDiagnosticKind::StateEditSession, n.0, None, None, n.1)
}

/// The diagnostics carry the notes, one each, in order.
pub open spec fn carries_notes(d: Seq<ProjectDiagnostic>, n: Seq<NoteText>) -> bool {
    &&& d.len() == n.len()
    &&& forall|k: int| 0 <= k < d.len() ==> (#[trigger] d[k])@ == note_diagnostic(n[k])
}

proof fn lemma_carries_append(a: Seq<ProjectDiagnostic>, x: Seq<NoteText>, b: Seq<ProjectDiagnostic>, y: Seq<NoteText>)
    requires
        carries_notes(a, x),
        carries_notes(b, y),
    ensures
        carries_notes(a + b, x + y),
{
    assert forall|k: int| 0 <= k < (a + b).len() implies (#[trigger] (a + b)[k])@ == note_diagnostic((x + y)[k]) by {
        if k >= a.len() {
            assert((a + b)[k] == b[k - a.len()]);
        }
    }
}

fn session_diagnostic(severity: DiagnosticSeverity, message: String) -> (r: ProjectDiagnostic)
    ensures
        r.kind == ProjectDiagnosticKind::StateEditSession,
        r.severity == severity,
        r@ == note_diagnostic((severity, message@)),
{
    ProjectDiagnostic::new(ProjectDiagnosticKind::StateEditSession, severity, None, None, message)
}

fn text_with_number(before: &str, n: u64, after: &str) -> (r: String)
    ensures
        r@ == before@ + decimal(n as nat) + after@,
{
    let mut out = String::from_str(before);
    push_decimal(&mut out, n);
    out.append(after);
    out
}

/// How the history names a command.
pub open spec fn command_description(c: StateEditCommand) -> Seq<char> {
    match c {
        StateEditCommand::ReassignProvinces { deltas } => "Reassigned "@ + decimal(deltas@.len())
            + " province(s)"@,
        StateEditCommand::UpdateStateProperties { state_id, .. } => "Updated State "@ + decimal(
            state_id as nat,
        ) + " properties"@,
        StateEditCommand::UpdateProvinceData { province_id, .. } => "Updated Province "@ + decimal(
            province_id as nat,
        ) + " data"@,
        StateEditCommand::CreateState { state, deltas } => "Created State "@ + decimal(
            state.state_id as nat,
        ) + " with "@ + decimal(deltas@.len()) + " province(s)"@,
        StateEditCommand::RemoveState { state, deltas, .. } => "Removed State "@ + decimal(
            state.state_id as nat,
        ) + " with "@ + decimal(deltas@.len()) + " province(s)"@,
    }
}

/// The session diagnostics are all notes about the session, none an error.
pub open spec fn session_notes(d: Seq<ProjectDiagnostic>) -> bool {
    forall|k: int| 0 <= k < d.len() ==> (#[trigger] d[k]).kind == ProjectDiagnosticKind::StateEditSession
        && d[k].severity != DiagnosticSeverity::Error
}

proof fn lemma_notes_append(a: Seq<ProjectDiagnostic>, b: Seq<ProjectDiagnostic>)
    requires
        session_notes(a),
        session_notes(b),
    ensures
        session_notes(a + b),
{
    assert forall|k: int| 0 <= k < (a + b).len() implies (#[trigger] (a + b)[k]).kind == ProjectDiagnosticKind::StateEditSession
        && (a + b)[k].severity != DiagnosticSeverity::Error by {
        if k < a.len() {
            assert((a + b)[k] == a[k]);
        } else {
            assert((a + b)[k] == b[k - a.len()]);
        }
    }
}

impl StateEditSession {
    /// The two province indexes agree with each other.
    pub closed spec fn indexes_agree(&self) -> bool {
        let sbp = self.working.state_by_province@;
        let pbs = self.working.provinces_by_state@;
        &&& forall|p: u32| #[trigger] sbp.contains_key(p) ==> pbs.contains_key(sbp[p]) && pbs[sbp[p]]@.contains(p)
        &&& forall|s: u32, p: u32| #![trigger pbs[s]@.contains(p)] pbs.contains_key(s) && pbs[s]@.contains(p) ==> sbp.contains_key(p) && sbp[p] == s
    }

    /// Checks that the two province indexes agree.
    pub fn validate_invariants(&self) -> (r: Result<(), StateEditError>)
        ensures
            r is Ok <==> self.indexes_agree(),
            self.wf() ==> r is Ok,
    {
        let provinces = map_keys(&self.working.state_by_province);
        let mut i: usize = 0;
        while i < provinces.len()
            invariant
                i <= provinces@.len(),
                provinces@.to_set() == self.working.state_by_province@.dom(),
                forall|k: int| 0 <= k < i ==> {
                    let p = #[trigger] provinces@[k];
                    let s = self.working.state_by_province@[p];
                    self.working.provinces_by_state@.contains_key(s) && self.working.provinces_by_state@[s]@.contains(p)
                },
            decreases provinces@.len() - i,
        {
            let p = provinces[i];
            proof {
                assert(provinces@.to_set().contains(p));
            }
            let s = *self.working.state_by_province.get(&p).unwrap();
            let agrees = match self.working.provinces_by_state.get(&s) {
                Some(list) => list.contains(&p),
                None => false,
            };
            if !agrees {
                let mut message = text_with_number("province ", p as u64, " points to state ");
                push_decimal(&mut message, s as u64);
                message.append(", but the state province list disagrees");
                return Err(StateEditError::InvariantViolation(message));
            }
            i = i + 1;
        }
        let states = map_keys(&self.working.provinces_by_state);
        let mut j: usize = 0;
        while j < states.len()
            invariant
                j <= states@.len(),
                states@.to_set() == self.working.provinces_by_state@.dom(),
                forall|p: u32| #[trigger] self.working.state_by_province@.contains_key(p) ==> {
                    let s = self.working.state_by_province@[p];
                    self.working.provinces_by_state@.contains_key(s) && self.working.provinces_by_state@[s]@.contains(p)
                },
                forall|k: int, p: u32| #![trigger self.working.provinces_by_state@[states@[k]]@.contains(p)] 0 <= k < j && self.working.provinces_by_state@[states@[k]]@.contains(p)
                    ==> self.working.state_by_province@.contains_key(p) && self.working.state_by_province@[p] == states@[k],
            decreases states@.len() - j,
        {
            let s = states[j];
            proof {
                assert(states@.to_set().contains(s));
            }
            let list = self.working.provinces_by_state.get(&s).unwrap();
            let members = set_items(list);
            let mut m: usize = 0;
            while m < members.len()
                invariant
                    m <= members@.len(),
                    members@.to_set() == list@,
                    self.working.provinces_by_state@.contains_key(s),
                    self.working.provinces_by_state@[s] == *list,
                    self.wf() ==> self.working.lists_consistent(),
                    forall|x: int| 0 <= x < m ==> self.working.state_by_province@.contains_key(#[trigger] members@[x])
                        && self.working.state_by_province@[members@[x]] == s,
                decreases members@.len() - m,
            {
                let p = members[m];
                let agrees = match self.working.state_by_province.get(&p) {
                    Some(owner) => *owner == s,
                    None => false,
                };
                if !agrees {
                    proof {
                        assert(members@[m as int] == p);
                        assert(members@.to_set().contains(p));
                        assert(self.working.provinces_by_state@[s]@.contains(p));
                        if self.wf() {
                            assert(preimage(self.working.state_by_province@, s).contains(p));
                        }
                    }
                    let mut message = text_with_number("state ", s as u64, " contains province ");
                    push_decimal(&mut message, p as u64);
                    message.append(", but the province index disagrees");
                    return Err(StateEditError::InvariantViolation(message));
                }
                m = m + 1;
            }
            proof {
                assert forall|k: int, p: u32| #![trigger self.working.provinces_by_state@[states@[k]]@.contains(p)] 0 <= k < j + 1 && self.working.provinces_by_state@[states@[k]]@.contains(p)
                    implies self.working.state_by_province@.contains_key(p) && self.working.state_by_province@[p] == states@[k] by {
                    if k == j {
                        assert(members@.to_set().contains(p));
                        let x = choose|x: int| 0 <= x < members@.len() && members@[x] == p;
                    }
                }
            }
            j = j + 1;
        }
        proof {
            assert forall|t: u32, p: u32| #![trigger self.working.provinces_by_state@[t]@.contains(p)] self.working.provinces_by_state@.contains_key(t)
                && self.working.provinces_by_state@[t]@.contains(p)
                implies self.working.state_by_province@.contains_key(p) && self.working.state_by_province@[p] == t by {
                assert(states@.to_set().contains(t));
                let k = choose|k: int| 0 <= k < states@.len() && states@[k] == t;
            }
            if self.wf() {
                assert forall|p: u32| #[trigger] self.working.state_by_province@.contains_key(p) implies {
                    let s = self.working.state_by_province@[p];
                    self.working.provinces_by_state@.contains_key(s) && self.working.provinces_by_state@[s]@.contains(p)
                } by {
                    assert(preimage(self.working.state_by_province@, self.working.state_by_province@[p]).contains(p));
                }
            }
        }
        Ok(())
    }

    /// The dated history warning on `province` for `state`, where the
    /// baseline file of that state holds dated history blocks.
    fn dated_history_diagnostic(&self, state: Option<u32>, province: u32) -> (r: Vec<ProjectDiagnostic>)
        ensures
            carries_notes(r@, dated_history_note(self.baseline.dated_history_states@, state, province)),
            session_notes(r@),
    {
        let mut out: Vec<ProjectDiagnostic> = Vec::new();
        if let Some(state_id) = state {
            if self.baseline.dated_history_states.contains(&state_id) {
                let mut message = text_with_number(
                    "State ",
                    state_id as u64,
                    " contains dated history blocks; unknown references to province ",
                );
                push_decimal(&mut message, province as u64);
                message.append(" were not edited.");
                out.push(session_diagnostic(DiagnosticSeverity::Warning, message));
            }
        }
        proof {
            let n = dated_history_note(self.baseline.dated_history_states@, state, province);
            if n.len() > 0 {
                assert(out@[0]@ == note_diagnostic(n[0]));
            }
        }
        out
    }

    /// The diagnostics that describe one moved province.
    fn delta_diagnostics(&self, delta: &ProvinceEditDelta) -> (r: Vec<ProjectDiagnostic>)
        ensures
            carries_notes(r@, delta_notes(self.baseline.dated_history_states@, *delta)),
            session_notes(r@),
    {
        let ghost dated = self.baseline.dated_history_states@;
        let mut message = text_with_number("Province ", delta.province_id as u64, " was moved from ");
        message.append(state_label(delta.from_state_id).as_str());
        message.append(" to ");
        message.append(state_label(delta.to_state_id).as_str());
        message.append(" in memory.");
        let mut out: Vec<ProjectDiagnostic> = Vec::new();
        out.push(session_diagnostic(DiagnosticSeverity::Info, message));
        let mut unassigned: Vec<ProjectDiagnostic> = Vec::new();
        if delta.to_state_id.is_none() {
            unassigned.push(session_diagnostic(
                DiagnosticSeverity::Warning,
                text_with_number("Province ", delta.province_id as u64, " is currently unassigned due to an unsaved edit."),
            ));
        }
        let ghost first = delta_notes(dated, *delta).take(1);
        let ghost second: Seq<NoteText> = if delta.to_state_id is None {
            seq![
                (
                    DiagnosticSeverity::Warning,
                    "Province "@ + decimal(delta.province_id as nat) + " is currently unassigned due to an unsaved edit."@,
                ),
            ]
        } else {
            Seq::empty()
        };
        proof {
            assert(first[0].1 =~= out@[0].message@);
            assert(carries_notes(out@, first));
            if delta.to_state_id is None {
                assert(unassigned@[0]@ == note_diagnostic(second[0]));
            }
            assert(carries_notes(unassigned@, second));
            lemma_carries_append(out@, first, unassigned@, second);
            lemma_notes_append(out@, unassigned@);
        }
        out.append(&mut unassigned);
        let mut left = self.dated_history_diagnostic(delta.from_state_id, delta.province_id);
        proof {
            lemma_carries_append(out@, first + second, left@, dated_history_note(dated, delta.from_state_id, delta.province_id));
            lemma_notes_append(out@, left@);
        }
        out.append(&mut left);
        let mut joined = self.dated_history_diagnostic(delta.to_state_id, delta.province_id);
        proof {
            lemma_carries_append(
                out@,
                first + second + dated_history_note(dated, delta.from_state_id, delta.province_id),
                joined@,
                dated_history_note(dated, delta.to_state_id, delta.province_id),
            );
            lemma_notes_append(out@, joined@);
            assert(first + second + dated_history_note(dated, delta.from_state_id, delta.province_id)
                + dated_history_note(dated, delta.to_state_id, delta.province_id) =~= delta_notes(dated, *delta));
        }
        out.append(&mut joined);
        out
    }

    /// The diagnostics that describe a command: one session note for each
    /// note that `command_notes` gives, in order.
    fn command_diagnostics(&self, c: &StateEditCommand) -> (r: Vec<ProjectDiagnostic>)
        ensures
            carries_notes(r@, command_notes(self.baseline.dated_history_states@, *c)),
            session_notes(r@),
    {
        let ghost dated = self.baseline.dated_history_states@;
        let mut out: Vec<ProjectDiagnostic> = Vec::new();
        match c {
            StateEditCommand::ReassignProvinces { deltas } => {
                let mut i: usize = 0;
                while i < deltas.len()
                    invariant
                        i <= deltas@.len(),
                        dated == self.baseline.dated_history_states@,
                        carries_notes(out@, deltas_notes(dated, deltas@.take(i as int))),
                        session_notes(out@),
                    decreases deltas@.len() - i,
                {
                    let mut more = self.delta_diagnostics(&deltas[i]);
                    proof {
                        let t = deltas@.take(i as int + 1);
                        assert(t.drop_last() =~= deltas@.take(i as int));
                        assert(t.last() == deltas@[i as int]);
                        lemma_carries_append(out@, deltas_notes(dated, deltas@.take(i as int)), more@, delta_notes(dated, deltas@[i as int]));
                        lemma_notes_append(out@, more@);
                    }
                    out.append(&mut more);
                    i = i + 1;
                }
                proof {
                    assert(deltas@.take(deltas@.len() as int) =~= deltas@);
                }
            },
            StateEditCommand::UpdateStateProperties { state_id, .. } => {
                out.push(session_diagnostic(
                    DiagnosticSeverity::Info,
                    text_with_number("State ", *state_id as u64, " properties were updated in memory."),
                ));
            },
            StateEditCommand::UpdateProvinceData { province_id, state_id, .. } => {
                let mut message = text_with_number("Province ", *province_id as u64, " data in State ");
                push_decimal(&mut message, *state_id as u64);
                message.append(" was updated in memory.");
                out.push(session_diagnostic(DiagnosticSeverity::Info, message));
            },
            StateEditCommand::CreateState { state, deltas } => {
                out.push(session_diagnostic(
                    DiagnosticSeverity::Info,
                    text_with_number("State ", state.state_id as u64, " was created in memory and has no backing file."),
                ));
                if deltas.len() == 0 {
                    out.push(session_diagnostic(
                        DiagnosticSeverity::Warning,
                        text_with_number("State ", state.state_id as u64, " currently has no provinces."),
                    ));
                }
            },
            StateEditCommand::RemoveState { state, policy, deltas } => {
                out.push(session_diagnostic(
                    DiagnosticSeverity::Info,
                    text_with_number("State ", state.state_id as u64, " is marked as removed in the current session."),
                ));
                let message = match policy {
                    StateRemovalPolicy::MoveToState(target) => {
                        let mut message = text_with_number("", deltas.len() as u64, " provinces were moved from removed State ");
                        push_decimal(&mut message, state.state_id as u64);
                        message.append(" to State ");
                        push_decimal(&mut message, *target as u64);
                        message.append(".");
                        message
                    },
                    StateRemovalPolicy::Unassign => {
                        let mut message = text_with_number("", deltas.len() as u64, " provinces are temporarily unassigned after removing State ");
                        push_decimal(&mut message, state.state_id as u64);
                        message.append(".");
                        message
                    },
                };
                let severity = match policy {
                    StateRemovalPolicy::Unassign => if deltas.len() > 0 {
                        DiagnosticSeverity::Warning
                    } else {
                        DiagnosticSeverity::Info
                    },
                    StateRemovalPolicy::MoveToState(_) => DiagnosticSeverity::Info,
                };
                out.push(session_diagnostic(severity, message));
            },
        }
        proof {
            let n = command_notes(dated, *c);
            reveal_strlit("");
            if !(c is ReassignProvinces) {
                assert(out@.len() == n.len());
                assert forall|k: int| 0 <= k < out@.len() implies (#[trigger] out@[k])@ == note_diagnostic(n[k]) by {
                    assert(out@[k].message@ =~= n[k].1);
                }
            }
        }
        out
    }

    /// Makes a valid command the newest step of the history.
    fn commit_command(&mut self, command: StateEditCommand, check_indexes: bool) -> (r: Result<(), StateEditError>)
        requires
            old(self).wf(),
            command_ok(old(self).index_view(), command, old(self).known_state_ids@, old(self).loaded_state_ids@),
            created_id(command) matches Some(id) ==> !old(self).created_in_history().contains(id),
        ensures
            final(self).wf(),
            r == Ok::<(), StateEditError>(()),
            final(self).created_in_redo() == Set::<u32>::empty(),
            final(self).created_in_history() == (match created_id(command) {
                Some(id) => old(self).created_in_history().insert(id),
                None => old(self).created_in_history(),
            }),
            final(self).index_view() == command_forward(old(self).index_view(), command),
            final(self).undo_len() == old(self).undo_len() + 1,
            final(self).dirty() == final(self).differing(),
            final(self).last_command() == command,
            final(self).redo_len() == 0,
            final(self).undo_target() == old(self).index_view(),
            final(self).revision_spec() == old(self).revision_spec().wrapping_add(1),
            final(self).selection() == old(self).selection(),
            final(self).target() == old(self).target(),
            final(self).known() == old(self).known(),
            final(self).kinds() == old(self).kinds(),
            final(self).ambiguous() == old(self).ambiguous(),
            final(self).changed() == old(self).changed().union(moved_by(command)),
            match command {
                StateEditCommand::UpdateStateProperties { state_id, before, after } => {
                    &&& final(self).working.properties_by_state@.dom() == old(self).working.properties_by_state@.dom().insert(state_id)
                    &&& forall|s: u32| s != state_id ==> final(self).working.properties_by_state@[s] == old(self).working.properties_by_state@[s]
                    &&& final(self).working.properties_by_state@[state_id]@ == after@
                },
                StateEditCommand::UpdateProvinceData { province_id, state_id, before, after } => {
                    &&& final(self).working.properties_by_state@ == old(self).working.properties_by_state@
                    &&& final(self).working.victory_point_of(Some(state_id), province_id) == after.victory_point
                    &&& final(self).working.buildings_of(Some(state_id), province_id) matches Some(b) ==> b@ == after.buildings@
                    &&& final(self).working.buildings_of(Some(state_id), province_id) is None ==> after.buildings@.len() == 0
                },
                StateEditCommand::ReassignProvinces { deltas } => {
                    &&& final(self).working.properties_by_state@ == old(self).working.properties_by_state@
                    &&& points_carried(old(self).working, final(self).working, deltas@, true)
                    &&& buildings_carried(old(self).working, final(self).working, deltas@, true)
                },
                StateEditCommand::CreateState { state, deltas } => {
                    &&& (state.victory_points@.len() == 0 && state.province_buildings@ == Map::<u32, Buildings>::empty()
                        ==> forall|p: u32| #[trigger] delta_of(deltas@, p) matches Some(x) ==> {
                        &&& final(self).working.points_owned(Some(state.state_id), p) == x.victory_points@
                        &&& opt_buildings_view(final(self).working.buildings_of(Some(state.state_id), p))
                            == opt_buildings_view(x.province_buildings)
                    })
                    &&& final(self).origins_by_state@.contains_key(state.state_id)
                    &&& final(self).origins_by_state@[state.state_id] is CreatedInSession
                    &&& final(self).working.properties_by_state@.contains_key(state.state_id)
                    &&& final(self).working.properties_by_state@[state.state_id]@ == state.properties@
                    &&& final(self).removed_state_ids@ == old(self).removed_state_ids@.remove(state.state_id)
                },
                StateEditCommand::RemoveState { state, deltas, .. } => {
                    &&& final(self).removed_state_ids@ == old(self).removed_state_ids@.insert(state.state_id)
                    &&& !final(self).working.properties_by_state@.contains_key(state.state_id)
                    &&& forall|p: u32| #[trigger] delta_of(deltas@, p) matches Some(x) ==> {
                        &&& final(self).working.points_owned(x.to_state_id, p) == arrived(
                            old(self).working.points_owned(x.to_state_id, p),
                            x.to_state_id,
                            x.victory_points@,
                        )
                        &&& opt_buildings_view(final(self).working.buildings_of(x.to_state_id, p)) == (match x.province_buildings {
                            Some(m) => Some(m@),
                            None => opt_buildings_view(old(self).working.buildings_of(x.to_state_id, p)),
                        })
                    }
                },
            },
    {
        let ghost v0 = self.index_view();
        proof {
            lemma_forward_keeps_wf(v0, command, self.known_state_ids@, self.loaded_state_ids@);
        }
        self.apply_command(&command, true, Ghost(v0));
        if check_indexes {
            match self.validate_invariants() {
                Err(error) => {
                    proof {
                        assert(self.indexes_agree()) by {
                            assert forall|p: u32| #[trigger] self.working.state_by_province@.contains_key(p) implies
                                self.working.provinces_by_state@.contains_key(self.working.state_by_province@[p])
                                && self.working.provinces_by_state@[self.working.state_by_province@[p]]@.contains(p) by {
                                assert(preimage(self.working.state_by_province@, self.working.state_by_province@[p]).contains(p));
                            }
                        }
                    }
                    return Err(error);
                },
                Ok(()) => {},
            }
        }
        self.dirty_state_ids = changed_states(&self.baseline, &self.working);
        let mut notes = self.command_diagnostics(&command);
        self.session_diagnostics.append(&mut notes);
        match &command {
            StateEditCommand::ReassignProvinces { deltas } => {
                self.mark_changed(deltas);
            },
            StateEditCommand::CreateState { deltas, .. } => {
                self.mark_changed(deltas);
            },
            StateEditCommand::RemoveState { deltas, .. } => {
                self.mark_changed(deltas);
            },
            _ => {
                proof {
                    assert(self.last_changed_provinces@ =~= old(self).last_changed_provinces@.union(moved_by(command)));
                }
            },
        }
        let ghost n = self.undo_stack@.len();
        self.undo_stack.push(command);
        self.redo_stack.clear();
        self.revision = self.revision.wrapping_add(1);
        proof {
            self.undo_before@ = self.undo_before@.push(v0);
            self.redo_after@ = Seq::empty();
            assert forall|k: int| 0 <= k < self.undo_stack@.len() implies {
                &&& index_wf(#[trigger] self.undo_before@[k], self.known_state_ids@)
                &&& command_ok(self.undo_before@[k], self.undo_stack@[k], self.known_state_ids@, self.loaded_state_ids@)
                &&& command_forward(self.undo_before@[k], self.undo_stack@[k]) == self.after_undo(k)
            } by {
                if k < n {
                    assert(self.undo_before@[k] == old(self).undo_before@[k]);
                    assert(self.undo_stack@[k] == old(self).undo_stack@[k]);
                    if k + 1 < n {
                        assert(self.after_undo(k) == old(self).after_undo(k));
                    } else {
                        assert(self.after_undo(k) == v0);
                    }
                }
            }
        }
        proof {
            let u = self.undo_stack@;
            assert forall|a: int, b: int| 0 <= a < b < u.len() && created_id(u[a]) is Some implies #[trigger] created_id(u[a])
                != #[trigger] created_id(u[b]) by {
                if b == u.len() - 1 {
                    assert(u[b] == command);
                    assert(u[a] == old(self).undo_stack@[a]);
                } else {
                    assert(u[a] == old(self).undo_stack@[a]);
                    assert(u[b] == old(self).undo_stack@[b]);
                }
            }
            assert(self.created_in_redo() =~= Set::<u32>::empty());
            assert forall|t: u32| #[trigger] self.created_in_history().contains(t) <==> (match created_id(command) {
                Some(id) => old(self).created_in_history().insert(id),
                None => old(self).created_in_history(),
            }).contains(t) by {
                if self.created_in_history().contains(t) {
                    let k = choose|k: int| 0 <= k < u.len() && created_id(u[k]) == Some(t);
                    if k < u.len() - 1 {
                        assert(u[k] == old(self).undo_stack@[k]);
                    }
                }
                if old(self).created_in_history().contains(t) {
                    let k = choose|k: int| 0 <= k < old(self).undo_stack@.len() && created_id(old(self).undo_stack@[k]) == Some(t);
                    assert(u[k] == old(self).undo_stack@[k]);
                }
                if created_id(command) == Some(t) {
                    assert(u[u.len() - 1] == command);
                }
            }
            assert(self.created_in_history() =~= (match created_id(command) {
                Some(id) => old(self).created_in_history().insert(id),
                None => old(self).created_in_history(),
            }));
        }
        Ok(())
    }

    fn mark_changed(&mut self, deltas: &Vec<ProvinceEditDelta>)
        ensures
            final(self).last_changed_provinces@ == old(self).last_changed_provinces@.union(delta_provinces(deltas@)),
            final(self).working == old(self).working,
            final(self).baseline == old(self).baseline,
            final(self).known_state_ids == old(self).known_state_ids,
            final(self).valid_state_ids == old(self).valid_state_ids,
            final(self).origins_by_state == old(self).origins_by_state,
            final(self).removed_state_ids == old(self).removed_state_ids,
            final(self).province_kinds == old(self).province_kinds,
            final(self).ambiguous_provinces == old(self).ambiguous_provinces,
            final(self).selected_provinces == old(self).selected_provinces,
            final(self).target_state_id == old(self).target_state_id,
            final(self).undo_stack == old(self).undo_stack,
            final(self).redo_stack == old(self).redo_stack,
            final(self).dirty_state_ids == old(self).dirty_state_ids,
            final(self).session_diagnostics == old(self).session_diagnostics,
            final(self).last_timings == old(self).last_timings,
            final(self).revision == old(self).revision,
            final(self).loaded_state_ids == old(self).loaded_state_ids,
            final(self).undo_before == old(self).undo_before,
            final(self).redo_after == old(self).redo_after,
    {
        let mut changed = BTreeSet::new();
        std::mem::swap(&mut changed, &mut self.last_changed_provinces);
        let mut i: usize = 0;
        proof {
            assert(delta_provinces(deltas@.take(0)) =~= Set::<u32>::empty());
            assert(changed@ =~= old(self).last_changed_provinces@.union(delta_provinces(deltas@.take(0))));
        }
        while i < deltas.len()
            invariant
                i <= deltas@.len(),
                changed@ == old(self).last_changed_provinces@.union(delta_provinces(deltas@.take(i as int))),
            decreases deltas@.len() - i,
        {
            changed.insert(deltas[i].province_id);
            proof {
                crate::edit_model::lemma_delta_provinces_step(deltas@, i as int);
                assert(changed@ =~= old(self).last_changed_provinces@.union(delta_provinces(deltas@.take(i + 1))));
            }
            i = i + 1;
        }
        proof {
            assert(deltas@.take(deltas@.len() as int) =~= deltas@);
        }
        std::mem::swap(&mut changed, &mut self.last_changed_provinces);
    }
}

proof fn lemma_reassigned(m: Map<u32, u32>, d: Seq<ProvinceEditDelta>, ids: Set<u32>, target: Option<u32>)
    requires
        distinct_provinces(d),
        deltas_start_at(m, d),
        forall|i: int| 0 <= i < d.len() ==> (#[trigger] d[i]).to_state_id == target,
        delta_provinces(d) == Set::new(|p: u32| ids.contains(p) && opt_get(m, p) != target),
    ensures
        moved_forward(m, d) == reassigned(m, ids, target),
{
    assert forall|p: u32| opt_get(moved_forward(m, d), p) == opt_get(reassigned(m, ids, target), p) by {
        lemma_moved_forward_closed(m, d, p);
        lemma_last_target_some(d, p);
        if delta_provinces(d).contains(p) {
            let i = choose|i: int| 0 <= i < d.len() && d[i].province_id == p && Some(d[i].to_state_id) == last_target_of(d, p);
        }
    }
    lemma_maps_eq_by_get(moved_forward(m, d), reassigned(m, ids, target));
}

pub open spec fn last_target_of(d: Seq<ProvinceEditDelta>, p: u32) -> Option<Option<u32>> {
    crate::edit_model::last_target(d, p)
}

impl StateEditSession {
    /// The invariant only depends on the indexes, the states, the stacks
    /// and their ghost companions.
    proof fn lemma_wf_frame(&self, other: &Self)
        requires
            self.wf(),
            other.working == self.working,
            other.baseline == self.baseline,
            other.known_state_ids@ == self.known_state_ids@,
            other.valid_state_ids@ == self.valid_state_ids@,
            other.origins_by_state@ == self.origins_by_state@,
            other.province_kinds@ == self.province_kinds@,
            other.undo_stack@ == self.undo_stack@,
            other.redo_stack@ == self.redo_stack@,
            other.loaded_state_ids == self.loaded_state_ids,
            other.undo_before == self.undo_before,
            other.redo_after == self.redo_after,
        ensures
            other.wf(),
    {
        assert(other.index_view() == self.index_view());
        assert forall|k: int| 0 <= k < other.undo_stack@.len() implies {
            &&& index_wf(#[trigger] other.undo_before@[k], other.known_state_ids@)
            &&& command_ok(other.undo_before@[k], other.undo_stack@[k], other.known_state_ids@, other.loaded_state_ids@)
            &&& command_forward(other.undo_before@[k], other.undo_stack@[k]) == other.after_undo(k)
        } by {
            assert(index_wf(self.undo_before@[k], self.known_state_ids@));
            assert(other.after_undo(k) == self.after_undo(k));
        }
        assert forall|j: int| 0 <= j < other.redo_stack@.len() implies {
            &&& index_wf(#[trigger] other.before_redo(j), other.known_state_ids@)
            &&& command_ok(other.before_redo(j), other.redo_stack@[j], other.known_state_ids@, other.loaded_state_ids@)
            &&& command_forward(other.before_redo(j), other.redo_stack@[j]) == other.redo_after@[j]
        } by {
            assert(other.before_redo(j) == self.before_redo(j));
            assert(index_wf(self.before_redo(j), self.known_state_ids@));
        }
    }

    proof fn lemma_first_error_none(&self, ids: Seq<u32>, target: Option<u32>)
        ensures
            self.first_move_error(ids, target) is None <==> forall|i: int| 0 <= i < ids.len() ==> self.move_error(#[trigger] ids[i], target) is None,
            self.first_move_error(ids, target) matches Some(e) ==> exists|i: int| 0 <= i < ids.len() && self.move_error(ids[i], target) == Some(e),
        decreases ids.len(),
    {
        if ids.len() > 0 {
            let e = ids.drop_last();
            self.lemma_first_error_none(e, target);
            if self.first_move_error(e, target) is None {
                assert forall|i: int| 0 <= i < ids.len() - 1 implies self.move_error(#[trigger] ids[i], target) is None by {
                    assert(e[i] == ids[i]);
                }
            } else {
                let e2 = self.first_move_error(e, target).unwrap();
                let i = choose|i: int| 0 <= i < e.len() && self.move_error(e[i], target) == Some(e2);
                assert(ids[i] == e[i]);
            }
            assert(ids[ids.len() - 1] == ids.last());
        }
    }

    /// The deltas of a reassignment, or why it is refused.
    fn build_reassignment(&self, ids: &[u32], target: Option<u32>) -> (r: Result<Vec<ProvinceEditDelta>, StateEditError>)
        requires
            detached_own(point_lists(self.working.detached_victory_points@)),
        ensures
            match r {
                Ok(d) => {
                    &&& self.reassign_error(ids@, target) is None
                    &&& command_ok(self.index_view(), StateEditCommand::ReassignProvinces { deltas: d }, self.known_state_ids@, self.loaded_state_ids@)
                    &&& delta_provinces(d@) == self.moving(ids@.to_set(), target)
                    &&& forall|i: int| 0 <= i < d@.len() ==> (#[trigger] d@[i]).to_state_id == target
                    &&& forall|k: int| 0 <= k < d@.len() ==> (#[trigger] d@[k]).victory_points@ == self.working.points_owned(
                        d@[k].from_state_id,
                        d@[k].province_id,
                    ) && self.move_error(d@[k].province_id, target) is None
                    &&& forall|k: int| 0 <= k < d@.len() ==> opt_buildings_view((#[trigger] d@[k]).province_buildings)
                        == opt_buildings_view(self.working.buildings_of(d@[k].from_state_id, d@[k].province_id))
                },
                Err(e) => self.reassign_error(ids@, target) == Some(e),
            },
    {
        if ids.len() == 0 {
            return Err(StateEditError::EmptySelection);
        }
        if let Some(t) = target {
            match self.validate_target_state(t) {
                Err(e) => {
                    return Err(e);
                },
                Ok(()) => {},
            }
        }
        self.build_province_deltas(ids, target)
    }

    /// Moves the listed provinces to `target_state_id`, or unassigns them,
    /// as one undoable step; nothing changes when any of them is refused.
    pub fn reassign_provinces(&mut self, province_ids: &[u32], target_state_id: Option<u32>) -> (r: Result<(), StateEditError>)
        requires
            old(self).wf(),
        ensures
            final(self).wf(),
            r == as_result(old(self).reassign_error(province_ids@, target_state_id)),
            final(self).selection() == old(self).selection(),
            final(self).target() == old(self).target(),
            final(self).active() == old(self).active(),
            final(self).known() == old(self).known(),
            final(self).kinds() == old(self).kinds(),
            final(self).properties_of() == old(self).properties_of(),
            final(self).unassigned() == unassigned_land(final(self).kinds(), final(self).state_of()),
            r is Err ==> final(self).index_view() == old(self).index_view() && final(self).undo_len() == old(self).undo_len()
                && final(self).redo_len() == old(self).redo_len(),
            r is Ok ==> final(self).state_of() == reassigned(old(self).state_of(), province_ids@.to_set(), target_state_id),
            r is Ok && old(self).moving(province_ids@.to_set(), target_state_id) == Set::<u32>::empty() ==> {
                &&& final(self).undo_len() == old(self).undo_len()
                &&& final(self).redo_len() == old(self).redo_len()
                &&& final(self).revision_spec() == old(self).revision_spec()
            },
            r is Ok && old(self).moving(province_ids@.to_set(), target_state_id) != Set::<u32>::empty() ==> {
                &&& final(self).undo_len() == old(self).undo_len() + 1
                &&& final(self).redo_len() == 0
                &&& final(self).undo_target() == old(self).index_view()
                &&& final(self).changed() == old(self).moving(province_ids@.to_set(), target_state_id)
                &&& final(self).revision_spec() == old(self).revision_spec().wrapping_add(1)
            },
            r is Err ==> same_edits(*final(self), *old(self)),
            r is Ok && old(self).moving(province_ids@.to_set(), target_state_id) == Set::<u32>::empty() ==> same_edits(
                *final(self),
                *old(self),
            ),
            r is Ok && old(self).moving(province_ids@.to_set(), target_state_id) != Set::<u32>::empty() ==> final(self).dirty()
                == final(self).differing(),
            r is Ok ==> forall|p: u32| #[trigger] final(self).victory_point_at(p) == (if old(self).moving(
                province_ids@.to_set(),
                target_state_id,
            ).contains(p) && old(self).points_at(p).len() == 0 {
                old(self).victory_point_in(target_state_id, p)
            } else {
                old(self).victory_point_at(p)
            }),
            r is Ok ==> forall|p: u32| #[trigger] opt_buildings_view(final(self).buildings_at(p)) == (if old(self).moving(
                province_ids@.to_set(),
                target_state_id,
            ).contains(p) && old(self).buildings_at(p) is None {
                opt_buildings_view(old(self).buildings_in(target_state_id, p))
            } else {
                opt_buildings_view(old(self).buildings_at(p))
            }),
            r is Ok && old(self).moving(province_ids@.to_set(), target_state_id) != Set::<u32>::empty() ==> (
                final(self).last_command() matches StateEditCommand::ReassignProvinces { deltas } && {
                &&& delta_provinces(deltas@) == old(self).moving(province_ids@.to_set(), target_state_id)
                &&& forall|p: u32| #[trigger] delta_of(deltas@, p) matches Some(x) ==> {
                    &&& x.from_state_id == opt_get(old(self).state_of(), p)
                    &&& x.to_state_id == target_state_id
                    &&& x.victory_points@ == old(self).points_at(p)
                    &&& opt_buildings_view(x.province_buildings) == opt_buildings_view(old(self).buildings_at(p))
                    &&& final(self).points_in(x.from_state_id, p) == Seq::<VictoryPoint>::empty()
                }
            }),
    {
        let built = self.build_reassignment(province_ids, target_state_id);
        let ghost before = *self;
        self.last_changed_provinces.clear();
        proof {
            before.lemma_wf_frame(self);
        }
        let deltas = match built {
            Ok(d) => d,
            Err(e) => {
                return Err(e);
            },
        };
        proof {
            lemma_reassigned(self.working.state_by_province@, deltas@, province_ids@.to_set(), target_state_id);
            assert(self.moving(province_ids@.to_set(), target_state_id) =~= Set::new(|p: u32| province_ids@.to_set().contains(p)
                && opt_get(self.working.state_by_province@, p) != target_state_id));
        }
        if deltas.len() == 0 {
            proof {
                assert(deltas@ =~= Seq::<ProvinceEditDelta>::empty());
                assert(moved_forward(self.working.state_by_province@, deltas@) == self.working.state_by_province@);
                assert(delta_provinces(deltas@) =~= Set::<u32>::empty());
            }
            return Ok(());
        }
        proof {
            assert(delta_provinces(deltas@).contains(deltas@[0].province_id));
        }
        proof {
            assert(old(self).reassign_error(province_ids@, target_state_id) is None);
        }
        let ghost dv = deltas@;
        let ghost w0 = self.working;
        let command = StateEditCommand::ReassignProvinces { deltas };
        let result = self.commit_command(command, true);

        proof {
            let ids = province_ids@.to_set();
            assert(w0 == old(self).working);
            assert forall|p: u32| #[trigger] self.victory_point_at(p) == (if old(self).moving(ids, target_state_id).contains(p)
                && old(self).points_at(p).len() == 0 {
                old(self).victory_point_in(target_state_id, p)
            } else {
                old(self).victory_point_at(p)
            }) by {
                lemma_delta_of_some(dv, p);
                lemma_moved_forward_closed(w0.state_by_province@, dv, p);
                lemma_last_target_some(dv, p);
                match delta_of(dv, p) {
                    None => {
                        assert(!delta_provinces(dv).contains(p));
                        assert(crate::edit_model::last_target(dv, p) is None);
                        assert(self.working.points_owned(opt_get(w0.state_by_province@, p), p) == w0.points_owned(
                            opt_get(w0.state_by_province@, p),
                            p,
                        ));
                    },
                    Some(x) => {
                        let k = choose|k: int| 0 <= k < dv.len() && dv[k] == x && x.province_id == p;
                        assert(delta_provinces(dv).contains(p));
                        lemma_forward_lands(w0.state_by_province@, dv, k);
                        assert(x.to_state_id == target_state_id);
                        assert(x.from_state_id == opt_get(w0.state_by_province@, p));
                        assert(x.victory_points@ == w0.points_owned(x.from_state_id, p));
                        assert(old(self).move_error(p, target_state_id) is None);
                        assert(x.from_state_id != x.to_state_id);
                        assert(opt_buildings_view(x.province_buildings) == opt_buildings_view(
                            w0.buildings_of(x.from_state_id, p),
                        ));
                        if x.victory_points@.len() > 0 {
                            if let Some(t) = target_state_id {
                                assert(!old(self).data_conflict(p, t));
                                assert(w0.points_owned(Some(t), p).len() == 0);
                                assert(w0.points_owned(Some(t), p) + x.victory_points@ =~= x.victory_points@);
                            }
                        } else {
                            if let Some(t) = target_state_id {
                                assert(w0.points_owned(Some(t), p) + x.victory_points@ =~= w0.points_owned(Some(t), p));
                            }
                        }
                    },
                }
            }
        }
        proof {
            assert(self.last_changed_provinces@ =~= old(self).moving(province_ids@.to_set(), target_state_id));
        }
        proof {
            let ids = province_ids@.to_set();
            assert forall|p: u32| #[trigger] opt_buildings_view(self.buildings_at(p)) == (if old(self).moving(ids, target_state_id).contains(p)
                && old(self).buildings_at(p) is None {
                opt_buildings_view(old(self).buildings_in(target_state_id, p))
            } else {
                opt_buildings_view(old(self).buildings_at(p))
            }) by {
                lemma_delta_of_some(dv, p);
                lemma_moved_forward_closed(w0.state_by_province@, dv, p);
                lemma_last_target_some(dv, p);
                match delta_of(dv, p) {
                    None => {
                        assert(!delta_provinces(dv).contains(p));
                        assert(crate::edit_model::last_target(dv, p) is None);
                        assert(opt_buildings_view(self.working.buildings_of(opt_get(w0.state_by_province@, p), p))
                            == opt_buildings_view(w0.buildings_of(opt_get(w0.state_by_province@, p), p)));
                    },
                    Some(x) => {
                        let k = choose|k: int| 0 <= k < dv.len() && dv[k] == x && x.province_id == p;
                        assert(delta_provinces(dv).contains(p));
                        lemma_forward_lands(w0.state_by_province@, dv, k);
                        assert(x.to_state_id == target_state_id);
                        assert(x.from_state_id == opt_get(w0.state_by_province@, p));
                        assert(opt_buildings_view(x.province_buildings) == opt_buildings_view(
                            w0.buildings_of(x.from_state_id, p),
                        ));
                        assert(old(self).move_error(p, target_state_id) is None);
                        assert(x.from_state_id != x.to_state_id);
                        if x.province_buildings is Some {
                            if let Some(t) = target_state_id {
                                assert(!old(self).data_conflict(p, t));
                            }
                        }
                    },
                }
            }
        }
        proof {
            assert forall|p: u32| #[trigger] delta_of(dv, p) is Some implies {
                let x = delta_of(dv, p).unwrap();
                &&& x.from_state_id == opt_get(old(self).state_of(), p)
                &&& x.to_state_id == target_state_id
                &&& x.victory_points@ == old(self).points_at(p)
                &&& opt_buildings_view(x.province_buildings) == opt_buildings_view(old(self).buildings_at(p))
                &&& self.points_in(x.from_state_id, p) == Seq::<VictoryPoint>::empty()
            } by {
                lemma_delta_of_some(dv, p);
                let x = delta_of(dv, p).unwrap();
                let k = choose|k: int| 0 <= k < dv.len() && dv[k] == x && x.province_id == p;
                assert(x.from_state_id == opt_get(w0.state_by_province@, p));
            }
        }
        result
    }

    /// The selected provinces, in ascending order.
    fn selected_list(&self) -> (r: Vec<u32>)
        ensures
            r@.to_set() == self.selected_provinces@,
            r@.no_duplicates(),
            r@ == ascending_of(self.selected_provinces@),
    {
        let items = set_items(&self.selected_provinces);
        let r = ascending_unique(&items);
        proof {
            assert(strictly_ascending(r@) && r@.to_set() == self.selected_provinces@);
            let a = ascending_of(self.selected_provinces@);
            lemma_ascending_unique(r@, a);
        }
        r
    }

    /// Whether the selection could be reassigned to `target` as a real edit.
    fn can_reassign_selected(&self, target: Option<u32>) -> (r: bool)
        requires
            self.wf(),
        ensures
            r == (self.selection_refusal(target) is None
                && self.moving(self.selected_provinces@, target) != Set::<u32>::empty()),
    {
        let provinces = self.selected_list();
        let result = self.build_reassignment(&provinces, target);
        proof {
            self.lemma_selection_refusal(provinces@, target);
        }
        match result {
            Ok(d) => {
                proof {
                    if d@.len() > 0 {
                        assert(delta_provinces(d@).contains(d@[0].province_id));
                    } else {
                        assert(delta_provinces(d@) =~= Set::<u32>::empty());
                    }
                }
                d.len() > 0
            },
            Err(_) => false,
        }
    }

    /// Why reassigning the selection to `target` is refused, when it is: an
    /// empty selection, an invalid target, or a refused province.
    pub closed spec fn selection_refusal(&self, target: Option<u32>) -> Option<StateEditError> {
        if self.selected_provinces@ == Set::<u32>::empty() {
            Some(StateEditError::EmptySelection)
        } else if target matches Some(t) && self.target_state_error(t) is Some {
            self.target_state_error(target.unwrap())
        } else if exists|p: u32| self.selected_provinces@.contains(p) && self.move_error(p, target) is Some {
            let p = choose|p: u32| self.selected_provinces@.contains(p) && self.move_error(p, target) is Some;
            self.move_error(p, target)
        } else {
            None
        }
    }

    proof fn lemma_selection_refusal(&self, items: Seq<u32>, target: Option<u32>)
        requires
            items.to_set() == self.selected_provinces@,
        ensures
            self.reassign_error(items, target) is None <==> self.selection_refusal(target) is None,
            self.reassign_error(items, target) == Some(StateEditError::EmptySelection)
                <==> self.selection_refusal(target) == Some(StateEditError::EmptySelection),
    {
        self.lemma_first_error_none(items, target);
        if items.len() == 0 {
            assert(items.to_set() =~= Set::<u32>::empty());
        } else {
            assert(items.to_set().contains(items[0]));
        }
        if exists|p: u32| self.selected_provinces@.contains(p) && self.move_error(p, target) is Some {
            let p = choose|p: u32| self.selected_provinces@.contains(p) && self.move_error(p, target) is Some;
            assert(items.to_set().contains(p));
            let i = choose|i: int| 0 <= i < items.len() && items[i] == p;
        }
        if self.first_move_error(items, target) is Some {
            let e = self.first_move_error(items, target).unwrap();
            let i = choose|i: int| 0 <= i < items.len() && self.move_error(items[i], target) == Some(e);
            assert(items.to_set().contains(items[i]));
        }
    }

    /// Reassigns the selected provinces to `target_state_id`.
    pub fn reassign_selected(&mut self, target_state_id: Option<u32>) -> (r: Result<(), StateEditError>)
        requires
            old(self).wf(),
        ensures
            final(self).wf(),
            r is Ok <==> old(self).selection_refusal(target_state_id) is None,
            r == Err::<(), StateEditError>(StateEditError::EmptySelection) <==> old(self).selection_refusal(target_state_id) == Some(StateEditError::EmptySelection),
            r is Err ==> final(self).index_view() == old(self).index_view() && final(self).undo_len() == old(self).undo_len(),
            r is Ok ==> final(self).state_of() == reassigned(old(self).state_of(), old(self).selection(), target_state_id),
            final(self).selection() == old(self).selection(),
            final(self).target() == old(self).target(),
    {
        let provinces = self.selected_list();
        proof {
            self.lemma_selection_refusal(provinces@, target_state_id);
        }
        self.reassign_provinces(&provinces, target_state_id)
    }

    /// Moves the selection to the target state.
    pub fn move_selection_to_target(&mut self) -> (r: Result<(), StateEditError>)
        requires
            old(self).wf(),
        ensures
            final(self).wf(),
            old(self).target() is None ==> r == Err::<(), StateEditError>(StateEditError::TargetStateInvalid(0))
                && final(self).index_view() == old(self).index_view(),
            old(self).target() matches Some(t) ==> (r is Ok <==> old(self).selection_refusal(Some(t)) is None),
            r is Ok ==> final(self).state_of() == reassigned(old(self).state_of(), old(self).selection(), old(self).target()),
            r is Err ==> final(self).index_view() == old(self).index_view(),
    {
        let target = match self.target_state_id {
            Some(t) => t,
            None => {
                return Err(StateEditError::TargetStateInvalid(0));
            },
        };
        self.reassign_selected(Some(target))
    }

    /// Unassigns the selected provinces.
    pub fn unassign_selection(&mut self) -> (r: Result<(), StateEditError>)
        requires
            old(self).wf(),
        ensures
            final(self).wf(),
            r is Ok <==> old(self).selection_refusal(None) is None,
            r is Ok ==> final(self).state_of() == reassigned(old(self).state_of(), old(self).selection(), None),
            r is Err ==> final(self).index_view() == old(self).index_view(),
    {
        self.reassign_selected(None)
    }

    /// Whether moving the selection to the target would change anything.
    pub fn can_move_selection_to_target(&self) -> (r: bool)
        requires
            self.wf(),
        ensures
            r == (self.target() is Some && self.selection_refusal(self.target()) is None
                && self.moving(self.selection(), self.target()) != Set::<u32>::empty()),
    {
        match self.target_state_id {
            Some(t) => self.can_reassign_selected(Some(t)),
            None => false,
        }
    }

    /// Whether unassigning the selection would change anything.
    pub fn can_unassign_selection(&self) -> (r: bool)
        requires
            self.wf(),
        ensures
            r == (self.selection_refusal(None) is None && self.moving(self.selection(), None) != Set::<u32>::empty()),
    {
        self.can_reassign_selected(None)
    }

    /// Takes back the newest edit.
    pub fn undo(&mut self) -> (r: bool)
        requires
            old(self).wf(),
        ensures
            final(self).wf(),
            r == (old(self).undo_len() > 0),
            r ==> final(self).index_view() == old(self).undo_target()
                && final(self).undo_len() == old(self).undo_len() - 1
                && final(self).redo_len() == old(self).redo_len() + 1
                && final(self).redo_target() == old(self).index_view(),
            !r ==> final(self).index_view() == old(self).index_view() && final(self).redo_len() == old(self).redo_len(),
            final(self).selection() == old(self).selection(),
            r ==> final(self).dirty() == final(self).differing() && final(self).revision_spec()
                == old(self).revision_spec().wrapping_add(1),
            r ==> final(self).target() == (match old(self).last_command() {
                StateEditCommand::CreateState { state, .. } => if old(self).target() == Some(state.state_id) {
                    None
                } else {
                    old(self).target()
                },
                StateEditCommand::RemoveState { state, .. } => Some(state.state_id),
                _ => old(self).target(),
            }),
            !r ==> same_edits(*final(self), *old(self)) && final(self).target() == old(self).target(),
            r ==> (created_id(old(self).last_command()) matches Some(id) ==> final(self).reserved().contains(id)),
            r ==> (old(self).last_command() matches StateEditCommand::ReassignProvinces { deltas } ==> {
                &&& forall|p: u32| delta_of(deltas@, p) is None ==> #[trigger] final(self).points_at(p) == old(self).points_at(p)
                    && opt_buildings_view(final(self).buildings_at(p)) == opt_buildings_view(old(self).buildings_at(p))
                &&& forall|p: u32| #[trigger] delta_of(deltas@, p) matches Some(x) ==> {
                    &&& final(self).points_at(p) == arrived(old(self).points_in(x.from_state_id, p), x.from_state_id, x.victory_points@)
                    &&& opt_buildings_view(final(self).buildings_at(p)) == (match x.province_buildings {
                        Some(m) => Some(m@),
                        None => opt_buildings_view(old(self).buildings_in(x.from_state_id, p)),
                    })
                }
            }),
            final(self).known() == old(self).known(),
            r ==> (match created_id(old(self).last_command()) {
                Some(id) => final(self).created_in_history() == old(self).created_in_history().remove(id)
                    && final(self).created_in_redo() == old(self).created_in_redo().insert(id),
                None => final(self).created_in_history() == old(self).created_in_history()
                    && final(self).created_in_redo() == old(self).created_in_redo(),
            }),
    {
        let ghost start = *self;
        self.last_changed_provinces.clear();
        proof {
            start.lemma_wf_frame(self);
        }
        let ghost n = self.undo_stack@.len();
        let ghost m = self.redo_stack@.len();
        let ghost v0 = self.index_view();
        if self.undo_stack.len() == 0 {
            return false;
        }
        let command = match self.undo_stack.pop() {
            Some(c) => c,
            None => {
                return false;
            },
        };
        let ghost b = self.undo_before@[n - 1];
        proof {
            assert(command == old(self).undo_stack@[n - 1]);
            assert(old(self).after_undo(n - 1) == v0);
        }
        let ghost cmd = command;
        self.apply_command(&command, false, Ghost(b));
        match self.validate_invariants() {
            Err(_) => {
                proof {
                    assert(self.indexes_agree()) by {
                        assert forall|p: u32| #[trigger] self.working.state_by_province@.contains_key(p) implies
                            self.working.provinces_by_state@.contains_key(self.working.state_by_province@[p])
                            && self.working.provinces_by_state@[self.working.state_by_province@[p]]@.contains(p) by {
                            assert(preimage(self.working.state_by_province@, self.working.state_by_province@[p]).contains(p));
                        }
                    }
                }
                return false;
            },
            Ok(()) => {},
        }
        self.dirty_state_ids = changed_states(&self.baseline, &self.working);
        match &command {
            StateEditCommand::ReassignProvinces { deltas } => {
                self.mark_changed(deltas);
            },
            StateEditCommand::CreateState { deltas, .. } => {
                self.mark_changed(deltas);
            },
            StateEditCommand::RemoveState { deltas, .. } => {
                self.mark_changed(deltas);
            },
            _ => {},
        }
        match &command {
            StateEditCommand::CreateState { state, .. } => {
                if self.target_state_id == Some(state.state_id) {
                    self.target_state_id = None;
                }
            },
            StateEditCommand::RemoveState { state, .. } => {
                self.target_state_id = Some(state.state_id);
            },
            _ => {},
        }
        self.redo_stack.push(command);
        self.rebuild_session_diagnostics();
        self.revision = self.revision.wrapping_add(1);
        proof {
            self.undo_before@ = self.undo_before@.drop_last();
            self.redo_after@ = self.redo_after@.push(v0);
            assert forall|k: int| 0 <= k < self.undo_stack@.len() implies {
                &&& index_wf(#[trigger] self.undo_before@[k], self.known_state_ids@)
                &&& command_ok(self.undo_before@[k], self.undo_stack@[k], self.known_state_ids@, self.loaded_state_ids@)
                &&& command_forward(self.undo_before@[k], self.undo_stack@[k]) == self.after_undo(k)
            } by {
                assert(self.undo_before@[k] == old(self).undo_before@[k]);
                assert(self.undo_stack@[k] == old(self).undo_stack@[k]);
                if k + 1 < n - 1 {
                    assert(self.after_undo(k) == old(self).after_undo(k));
                } else {
                    assert(self.after_undo(k) == b);
                }
            }
            assert forall|j: int| 0 <= j < self.redo_stack@.len() implies {
                &&& index_wf(#[trigger] self.before_redo(j), self.known_state_ids@)
                &&& command_ok(self.before_redo(j), self.redo_stack@[j], self.known_state_ids@, self.loaded_state_ids@)
                &&& command_forward(self.before_redo(j), self.redo_stack@[j]) == self.redo_after@[j]
            } by {
                if j < m {
                    assert(self.redo_stack@[j] == old(self).redo_stack@[j]);
                    assert(self.redo_after@[j] == old(self).redo_after@[j]);
                    assert(index_wf(old(self).before_redo(j), self.known_state_ids@));
                    if j + 1 < m {
                        assert(self.before_redo(j) == old(self).before_redo(j));
                    } else {
                        assert(self.before_redo(j) == v0);
                    }
                } else {
                    assert(self.before_redo(j) == b);
                    assert(self.redo_stack@[j] == command);
                    assert(self.redo_after@[j] == v0);
                    assert(index_wf(old(self).undo_before@[n - 1], self.known_state_ids@));
                }
            }
        }
        proof {
            if let StateEditCommand::ReassignProvinces { deltas } = cmd {
                let w1 = self.working;
                lemma_command_round_trip(b, command, self.known_state_ids@, self.loaded_state_ids@);
                assert forall|p: u32| delta_of(deltas@, p) is None implies #[trigger] self.points_at(p) == old(self).points_at(p)
                    && opt_buildings_view(self.buildings_at(p)) == opt_buildings_view(old(self).buildings_at(p)) by {
                    lemma_delta_of_ends(deltas@, p);
                    crate::edit_model::lemma_moved_backward_closed(old(self).working.state_by_province@, deltas@, p);
                }
                assert forall|p: u32| #[trigger] delta_of(deltas@, p) is Some implies {
                    let x = delta_of(deltas@, p).unwrap();
                    &&& self.points_at(p) == arrived(old(self).points_in(x.from_state_id, p), x.from_state_id, x.victory_points@)
                    &&& opt_buildings_view(self.buildings_at(p)) == (match x.province_buildings {
                        Some(m) => Some(m@),
                        None => opt_buildings_view(old(self).buildings_in(x.from_state_id, p)),
                    })
                } by {
                    lemma_delta_of_ends(deltas@, p);
                    crate::edit_model::lemma_moved_backward_closed(old(self).working.state_by_province@, deltas@, p);
                }
            }
        }
        proof {
            lemma_move_created(old(self).undo_stack@, old(self).redo_stack@);
            assert(self.undo_stack@ == old(self).undo_stack@.drop_last());
            assert(self.redo_stack@ == old(self).redo_stack@.push(old(self).undo_stack@.last()));
        }
        proof {
            if let Some(id) = created_id(command) {
                assert(self.redo_stack@[self.redo_stack@.len() - 1] == command);
            }
        }
        true
    }

    /// Applies the most recently undone edit again.
    pub fn redo(&mut self) -> (r: bool)
        requires
            old(self).wf(),
        ensures
            final(self).wf(),
            r == (old(self).redo_len() > 0),
            r ==> final(self).index_view() == old(self).redo_target()
                && final(self).undo_len() == old(self).undo_len() + 1
                && final(self).redo_len() == old(self).redo_len() - 1
                && final(self).undo_target() == old(self).index_view(),
            !r ==> final(self).index_view() == old(self).index_view() && final(self).undo_len() == old(self).undo_len(),
            final(self).selection() == old(self).selection(),
            r ==> final(self).dirty() == final(self).differing() && final(self).revision_spec()
                == old(self).revision_spec().wrapping_add(1),
            r ==> final(self).target() == (match old(self).next_redo() {
                StateEditCommand::CreateState { state, .. } => Some(state.state_id),
                StateEditCommand::RemoveState { state, policy, .. } => if old(self).target() == Some(state.state_id) {
                    policy.target_spec()
                } else {
                    old(self).target()
                },
                _ => old(self).target(),
            }),
            !r ==> same_edits(*final(self), *old(self)) && final(self).target() == old(self).target(),
            r ==> (old(self).next_redo() matches StateEditCommand::ReassignProvinces { deltas } ==> {
                &&& forall|p: u32| delta_of(deltas@, p) is None ==> #[trigger] final(self).points_at(p) == old(self).points_at(p)
                    && opt_buildings_view(final(self).buildings_at(p)) == opt_buildings_view(old(self).buildings_at(p))
                &&& forall|p: u32| #[trigger] delta_of(deltas@, p) matches Some(x) ==> {
                    &&& final(self).points_at(p) == arrived(old(self).points_in(x.to_state_id, p), x.to_state_id, x.victory_points@)
                    &&& opt_buildings_view(final(self).buildings_at(p)) == (match x.province_buildings {
                        Some(m) => Some(m@),
                        None => opt_buildings_view(old(self).buildings_in(x.to_state_id, p)),
                    })
                }
            }),
            final(self).known() == old(self).known(),
            r ==> (match created_id(old(self).next_redo()) {
                Some(id) => final(self).created_in_redo() == old(self).created_in_redo().remove(id)
                    && final(self).created_in_history() == old(self).created_in_history().insert(id),
                None => final(self).created_in_history() == old(self).created_in_history()
                    && final(self).created_in_redo() == old(self).created_in_redo(),
            }),
    {
        let ghost start = *self;
        self.last_changed_provinces.clear();
        proof {
            start.lemma_wf_frame(self);
        }
        let ghost n = self.undo_stack@.len();
        let ghost m = self.redo_stack@.len();
        let ghost v0 = self.index_view();
        if self.redo_stack.len() == 0 {
            return false;
        }
        let command = match self.redo_stack.pop() {
            Some(c) => c,
            None => {
                return false;
            },
        };
        let ghost a = self.redo_after@[m - 1];
        proof {
            assert(command == old(self).redo_stack@[m - 1]);
            assert(old(self).before_redo(m - 1) == v0);
            lemma_forward_keeps_wf(v0, command, self.known_state_ids@, self.loaded_state_ids@);
        }
        let ghost cmd = command;
        self.apply_command(&command, true, Ghost(v0));
        match self.validate_invariants() {
            Err(_) => {
                proof {
                    assert(self.indexes_agree()) by {
                        assert forall|p: u32| #[trigger] self.working.state_by_province@.contains_key(p) implies
                            self.working.provinces_by_state@.contains_key(self.working.state_by_province@[p])
                            && self.working.provinces_by_state@[self.working.state_by_province@[p]]@.contains(p) by {
                            assert(preimage(self.working.state_by_province@, self.working.state_by_province@[p]).contains(p));
                        }
                    }
                }
                return false;
            },
            Ok(()) => {},
        }
        self.dirty_state_ids = changed_states(&self.baseline, &self.working);
        match &command {
            StateEditCommand::ReassignProvinces { deltas } => {
                self.mark_changed(deltas);
            },
            StateEditCommand::CreateState { deltas, .. } => {
                self.mark_changed(deltas);
            },
            StateEditCommand::RemoveState { deltas, .. } => {
                self.mark_changed(deltas);
            },
            _ => {},
        }
        match &command {
            StateEditCommand::CreateState { state, .. } => {
                self.target_state_id = Some(state.state_id);
            },
            StateEditCommand::RemoveState { state, policy, .. } => {
                if self.target_state_id == Some(state.state_id) {
                    self.target_state_id = match policy {
                        StateRemovalPolicy::MoveToState(t) => Some(*t),
                        StateRemovalPolicy::Unassign => None,
                    };
                }
            },
            _ => {},
        }
        self.undo_stack.push(command);
        self.rebuild_session_diagnostics();
        self.revision = self.revision.wrapping_add(1);
        proof {
            self.undo_before@ = self.undo_before@.push(v0);
            self.redo_after@ = self.redo_after@.drop_last();
            assert forall|k: int| 0 <= k < self.undo_stack@.len() implies {
                &&& index_wf(#[trigger] self.undo_before@[k], self.known_state_ids@)
                &&& command_ok(self.undo_before@[k], self.undo_stack@[k], self.known_state_ids@, self.loaded_state_ids@)
                &&& command_forward(self.undo_before@[k], self.undo_stack@[k]) == self.after_undo(k)
            } by {
                if k < n {
                    assert(self.undo_before@[k] == old(self).undo_before@[k]);
                    assert(self.undo_stack@[k] == old(self).undo_stack@[k]);
                    if k + 1 < n {
                        assert(self.after_undo(k) == old(self).after_undo(k));
                    } else {
                        assert(self.after_undo(k) == v0);
                    }
                }
            }
            assert forall|j: int| 0 <= j < self.redo_stack@.len() implies {
                &&& index_wf(#[trigger] self.before_redo(j), self.known_state_ids@)
                &&& command_ok(self.before_redo(j), self.redo_stack@[j], self.known_state_ids@, self.loaded_state_ids@)
                &&& command_forward(self.before_redo(j), self.redo_stack@[j]) == self.redo_after@[j]
            } by {
                assert(self.redo_stack@[j] == old(self).redo_stack@[j]);
                assert(self.redo_after@[j] == old(self).redo_after@[j]);
                assert(index_wf(old(self).before_redo(j), self.known_state_ids@));
                if j + 1 < m - 1 {
                    assert(self.before_redo(j) == old(self).before_redo(j));
                } else {
                    assert(self.before_redo(j) == a);
                }
            }
        }
        proof {
            if let StateEditCommand::ReassignProvinces { deltas } = cmd {
                assert forall|p: u32| delta_of(deltas@, p) is None implies #[trigger] self.points_at(p) == old(self).points_at(p)
                    && opt_buildings_view(self.buildings_at(p)) == opt_buildings_view(old(self).buildings_at(p)) by {
                    lemma_delta_of_ends(deltas@, p);
                    lemma_moved_forward_closed(old(self).working.state_by_province@, deltas@, p);
                }
                assert forall|p: u32| #[trigger] delta_of(deltas@, p) is Some implies {
                    let x = delta_of(deltas@, p).unwrap();
                    &&& self.points_at(p) == arrived(old(self).points_in(x.to_state_id, p), x.to_state_id, x.victory_points@)
                    &&& opt_buildings_view(self.buildings_at(p)) == (match x.province_buildings {
                        Some(m) => Some(m@),
                        None => opt_buildings_view(old(self).buildings_in(x.to_state_id, p)),
                    })
                } by {
                    lemma_delta_of_ends(deltas@, p);
                    lemma_moved_forward_closed(old(self).working.state_by_province@, deltas@, p);
                }
            }
        }
        proof {
            lemma_move_created(old(self).redo_stack@, old(self).undo_stack@);
            assert(self.redo_stack@ == old(self).redo_stack@.drop_last());
            assert(self.undo_stack@ == old(self).undo_stack@.push(old(self).redo_stack@.last()));
        }
        true
    }

    fn rebuild_session_diagnostics(&mut self)
        ensures
            final(self).working == old(self).working,
            final(self).baseline == old(self).baseline,
            final(self).known_state_ids == old(self).known_state_ids,
            final(self).valid_state_ids == old(self).valid_state_ids,
            final(self).origins_by_state == old(self).origins_by_state,
            final(self).removed_state_ids == old(self).removed_state_ids,
            final(self).province_kinds == old(self).province_kinds,
            final(self).ambiguous_provinces == old(self).ambiguous_provinces,
            final(self).selected_provinces == old(self).selected_provinces,
            final(self).target_state_id == old(self).target_state_id,
            final(self).undo_stack == old(self).undo_stack,
            final(self).redo_stack == old(self).redo_stack,
            final(self).dirty_state_ids == old(self).dirty_state_ids,
            final(self).last_timings == old(self).last_timings,
            final(self).last_changed_provinces == old(self).last_changed_provinces,
            final(self).revision == old(self).revision,
            final(self).loaded_state_ids == old(self).loaded_state_ids,
            final(self).undo_before == old(self).undo_before,
            final(self).redo_after == old(self).redo_after,
            session_notes(final(self).session_diagnostics@),
    {
        let mut notes: Vec<ProjectDiagnostic> = Vec::new();
        let mut i: usize = 0;
        while i < self.undo_stack.len()
            invariant
                i <= self.undo_stack@.len(),
                session_notes(notes@),
            decreases self.undo_stack@.len() - i,
        {
            let mut more = self.command_diagnostics(&self.undo_stack[i]);
            proof {
                lemma_notes_append(notes@, more@);
            }
            notes.append(&mut more);
            i = i + 1;
        }
        self.session_diagnostics = notes;
    }

    /// Throws every edit away and returns to the states as loaded.
    pub fn discard(&mut self)
        requires
            old(self).wf(),
        ensures
            final(self).wf(),
            final(self).index_view() == old(self).baseline_view(),
            final(self).baseline_view() == old(self).baseline_view(),
            final(self).undo_len() == 0,
            final(self).redo_len() == 0,
            final(self).selection() == Set::<u32>::empty(),
            final(self).target() is None,
            final(self).dirty() == Set::<u32>::empty(),
            final(self).removed() == Set::<u32>::empty(),
            final(self).diagnostics_spec() == Seq::<ProjectDiagnostic>::empty(),
            final(self).revision_spec() == old(self).revision_spec().wrapping_add(1),
            final(self).changed() == Set::new(|p: u32| opt_get(old(self).baseline_view().state_of, p) != opt_get(old(self).state_of(), p)),
            final(self).properties_of() == old(self).loaded_properties(),
            forall|p: u32| #[trigger] final(self).victory_point_at(p) == old(self).loaded_victory_point_at(p),
            forall|p: u32| #[trigger] final(self).buildings_at(p) == old(self).loaded_buildings_at(p),
            final(self).known() == old(self).known(),
    {
        let mut changed: BTreeSet<u32> = BTreeSet::new();
        let before = map_keys(&self.baseline.state_by_province);
        let after = map_keys(&self.working.state_by_province);
        let ghost base = self.baseline.state_by_province@;
        let ghost work = self.working.state_by_province@;
        let mut i: usize = 0;
        while i < before.len()
            invariant
                i <= before@.len(),
                before@.to_set() == base.dom(),
                base == self.baseline.state_by_province@,
                work == self.working.state_by_province@,
                changed@ == Set::new(|p: u32| before@.take(i as int).contains(p) && opt_get(base, p) != opt_get(work, p)),
            decreases before@.len() - i,
        {
            let p = before[i];
            let differs = match (self.baseline.state_by_province.get(&p), self.working.state_by_province.get(&p)) {
                (Some(a), Some(b)) => *a != *b,
                (None, None) => false,
                _ => true,
            };
            if differs {
                changed.insert(p);
            }
            proof {
                let x = before@.take(i as int);
                let y = before@.take(i + 1);
                assert forall|t: u32| y.contains(t) <==> x.contains(t) || t == p by {
                    if y.contains(t) {
                        let k = choose|k: int| 0 <= k < y.len() && y[k] == t;
                        if k < i {
                            assert(x[k] == t);
                        }
                    }
                    if x.contains(t) {
                        let k = choose|k: int| 0 <= k < x.len() && x[k] == t;
                        assert(y[k] == t);
                    }
                    if t == p {
                        assert(y[i as int] == p);
                    }
                }
                assert(changed@ =~= Set::new(|t: u32| y.contains(t) && opt_get(base, t) != opt_get(work, t)));
            }
            i = i + 1;
        }
        let mut j: usize = 0;
        proof {
            assert(before@.take(before@.len() as int) =~= before@);
            assert(after@.take(0) =~= Seq::<u32>::empty());
            assert(changed@ =~= Set::new(|p: u32| (before@.contains(p) || after@.take(0).contains(p)) && opt_get(base, p) != opt_get(work, p)));
        }
        while j < after.len()
            invariant
                j <= after@.len(),
                before@.to_set() == base.dom(),
                after@.to_set() == work.dom(),
                base == self.baseline.state_by_province@,
                work == self.working.state_by_province@,
                changed@ == Set::new(|p: u32| (before@.contains(p) || after@.take(j as int).contains(p)) && opt_get(base, p) != opt_get(work, p)),
            decreases after@.len() - j,
        {
            let p = after[j];
            let differs = match (self.baseline.state_by_province.get(&p), self.working.state_by_province.get(&p)) {
                (Some(a), Some(b)) => *a != *b,
                (None, None) => false,
                _ => true,
            };
            if differs {
                changed.insert(p);
            }
            proof {
                let x = after@.take(j as int);
                let y = after@.take(j + 1);
                assert forall|t: u32| y.contains(t) <==> x.contains(t) || t == p by {
                    if y.contains(t) {
                        let k = choose|k: int| 0 <= k < y.len() && y[k] == t;
                        if k < j {
                            assert(x[k] == t);
                        }
                    }
                    if x.contains(t) {
                        let k = choose|k: int| 0 <= k < x.len() && x[k] == t;
                        assert(y[k] == t);
                    }
                    if t == p {
                        assert(y[j as int] == p);
                    }
                }
                assert(changed@ =~= Set::new(|t: u32| (before@.contains(t) || y.contains(t)) && opt_get(base, t) != opt_get(work, t)));
            }
            j = j + 1;
        }
        proof {
            assert(before@.take(before@.len() as int) =~= before@);
            assert(after@.take(after@.len() as int) =~= after@);
            assert forall|p: u32| #[trigger] changed@.contains(p) <==> opt_get(base, p) != opt_get(work, p) by {
                if opt_get(base, p) != opt_get(work, p) {
                    if base.contains_key(p) {
                        assert(before@.to_set().contains(p));
                    } else {
                        assert(after@.to_set().contains(p));
                    }
                }
            }
            assert(changed@ =~= Set::new(|p: u32| opt_get(base, p) != opt_get(work, p)));
        }
        self.last_changed_provinces = changed;
        self.working = self.baseline.duplicate();
        let ids = map_keys(&self.origins_by_state);
        let mut origins: BTreeMap<u32, WorkingStateOrigin> = BTreeMap::new();
        let mut valid: BTreeSet<u32> = BTreeSet::new();
        let mut k: usize = 0;
        while k < ids.len()
            invariant
                k <= ids@.len(),
                ids@.to_set() == self.origins_by_state@.dom(),
                forall|s: u32| #[trigger] origins@.contains_key(s) <==> (ids@.take(k as int).contains(s)
                    && self.origins_by_state@[s] is Loaded),
                forall|s: u32| #[trigger] origins@.contains_key(s) ==> origins@[s] is Loaded,
                valid@ == origins@.dom(),
            decreases ids@.len() - k,
        {
            let s = ids[k];
            proof {
                assert(ids@.to_set().contains(s));
            }
            let origin = self.origins_by_state.get(&s).unwrap();
            match origin {
                WorkingStateOrigin::Loaded { document_path } => {
                    origins.insert(s, WorkingStateOrigin::Loaded { document_path: document_path.clone() });
                    valid.insert(s);
                },
                WorkingStateOrigin::CreatedInSession => {},
            }
            proof {
                let x = ids@.take(k as int);
                let y = ids@.take(k + 1);
                assert forall|t: u32| y.contains(t) <==> x.contains(t) || t == s by {
                    if y.contains(t) {
                        let q = choose|q: int| 0 <= q < y.len() && y[q] == t;
                        if q < k {
                            assert(x[q] == t);
                        }
                    }
                    if x.contains(t) {
                        let q = choose|q: int| 0 <= q < x.len() && x[q] == t;
                        assert(y[q] == t);
                    }
                    if t == s {
                        assert(y[k as int] == s);
                    }
                }
                assert(valid@ =~= origins@.dom());
            }
            k = k + 1;
        }
        proof {
            assert(ids@.take(ids@.len() as int) =~= ids@);
            assert forall|s: u32| #[trigger] valid@.contains(s) <==> self.loaded_state_ids@.contains(s) by {
                if self.loaded_state_ids@.contains(s) {
                    assert(ids@.to_set().contains(s));
                }
            }
            assert(valid@ =~= self.loaded_state_ids@);
        }
        self.origins_by_state = origins;
        self.valid_state_ids = valid;
        self.removed_state_ids.clear();
        self.undo_stack.clear();
        self.redo_stack.clear();
        self.dirty_state_ids.clear();
        self.selected_provinces.clear();
        self.target_state_id = None;
        self.session_diagnostics.clear();
        self.revision = self.revision.wrapping_add(1);
        proof {
            self.undo_before@ = Seq::empty();
            self.redo_after@ = Seq::empty();
        }
    }
}

impl StateEditSession {
    /// Where each state of the session comes from.
    pub closed spec fn origins(&self) -> Map<u32, WorkingStateOrigin> {
        self.origins_by_state@
    }

    /// The state province `p` can be edited in, or why it cannot.
    pub closed spec fn editable_state_of(&self, p: u32) -> Result<u32, StateEditError> {
        match self.province_error(p) {
            Some(e) => Err(e),
            None => if !self.working.state_by_province@.contains_key(p) {
                Err(StateEditError::ProvinceUnassigned(p))
            } else {
                let s = self.working.state_by_province@[p];
                match self.target_state_error(s) {
                    Some(e) => Err(e),
                    None => if !self.working.properties_by_state@.contains_key(s) {
                        Err(StateEditError::TargetStateNotFound(s))
                    } else {
                        Ok(s)
                    },
                }
            },
        }
    }

    pub fn state_by_province(&self) -> (r: &BTreeMap<u32, u32>)
        ensures
            r@ == self.state_of(),
    {
        &self.working.state_by_province
    }

    pub fn unassigned_land_provinces(&self) -> (r: &BTreeSet<u32>)
        ensures
            r@ == self.unassigned(),
    {
        &self.working.unassigned_land_provinces
    }

    pub fn selected_provinces(&self) -> (r: &BTreeSet<u32>)
        ensures
            r@ == self.selection(),
    {
        &self.selected_provinces
    }

    pub fn valid_state_ids(&self) -> (r: &BTreeSet<u32>)
        ensures
            r@ == self.active(),
    {
        &self.valid_state_ids
    }

    pub fn removed_state_ids(&self) -> (r: &BTreeSet<u32>)
        ensures
            r@ == self.removed(),
    {
        &self.removed_state_ids
    }

    pub fn state_origin(&self, state_id: u32) -> (r: Option<&WorkingStateOrigin>)
        ensures
            match r {
                Some(o) => self.origins().contains_key(state_id) && self.origins()[state_id] == *o,
                None => !self.origins().contains_key(state_id),
            },
    {
        self.origins_by_state.get(&state_id)
    }

    pub fn state_lifecycle(&self, state_id: u32) -> (r: Option<WorkingStateLifecycle>)
        ensures
            r == (if self.active().contains(state_id) {
                Some(WorkingStateLifecycle::Active)
            } else if self.removed().contains(state_id) {
                Some(WorkingStateLifecycle::RemovedInSession)
            } else {
                None
            }),
    {
        if self.valid_state_ids.contains(&state_id) {
            Some(WorkingStateLifecycle::Active)
        } else if self.removed_state_ids.contains(&state_id) {
            Some(WorkingStateLifecycle::RemovedInSession)
        } else {
            None
        }
    }

    fn add_created_ids(out: &mut BTreeSet<u32>, commands: &Vec<StateEditCommand>)
        ensures
            final(out)@ == old(out)@.union(
                Set::new(|s: u32| exists|k: int| 0 <= k < commands@.len() && created_id(commands@[k]) == Some(s)),
            ),
    {
        let mut i: usize = 0;
        while i < commands.len()
            invariant
                i <= commands@.len(),
                out@ == old(out)@.union(Set::new(|s: u32| exists|k: int| 0 <= k < i && created_id(commands@[k]) == Some(s))),
            decreases commands@.len() - i,
        {
            let ghost before = out@;
            match &commands[i] {
                StateEditCommand::CreateState { state, .. } => {
                    out.insert(state.state_id);
                },
                _ => {},
            }
            proof {
                assert forall|s: u32| out@.contains(s) <==> old(out)@.union(
                    Set::new(|t: u32| exists|k: int| 0 <= k < i + 1 && created_id(commands@[k]) == Some(t)),
                ).contains(s) by {
                    if exists|k: int| 0 <= k < i + 1 && created_id(commands@[k]) == Some(s) {
                        let k = choose|k: int| 0 <= k < i + 1 && created_id(commands@[k]) == Some(s);
                        if k < i {
                            assert(exists|k2: int| 0 <= k2 < i && created_id(commands@[k2]) == Some(s));
                        }
                    }
                    if before.contains(s) && !old(out)@.contains(s) {
                        let k = choose|k: int| 0 <= k < i && created_id(commands@[k]) == Some(s);
                        assert(exists|k2: int| 0 <= k2 < i + 1 && created_id(commands@[k2]) == Some(s));
                    }
                    if out@.contains(s) && !before.contains(s) {
                        assert(created_id(commands@[i as int]) == Some(s));
                    }
                }
                assert(out@ =~= old(out)@.union(Set::new(|t: u32| exists|k: int| 0 <= k < i + 1 && created_id(commands@[k]) == Some(t))));
            }
            i = i + 1;
        }
    }

    fn reserved_state_ids(&self) -> (r: BTreeSet<u32>)
        ensures
            r@ == self.reserved(),
    {
        let mut reserved = self.known_state_ids.clone();
        let items = set_items(&self.valid_state_ids);
        let mut i: usize = 0;
        while i < items.len()
            invariant
                i <= items@.len(),
                items@.to_set() == self.valid_state_ids@,
                reserved@ == self.known_state_ids@.union(items@.take(i as int).to_set()),
            decreases items@.len() - i,
        {
            proof {
                assert(items@.take(i + 1) =~= items@.take(i as int).push(items@[i as int]));
                crate::facts::lemma_push_to_set(items@.take(i as int), items@[i as int]);
            }
            reserved.insert(items[i]);
            proof {
                assert(reserved@ =~= self.known_state_ids@.union(items@.take(i + 1).to_set()));
            }
            i = i + 1;
        }
        proof {
            assert(items@.take(items@.len() as int) =~= items@);
        }
        Self::add_created_ids(&mut reserved, &self.undo_stack);
        Self::add_created_ids(&mut reserved, &self.redo_stack);
        proof {
            assert(reserved@ =~= self.reserved());
        }
        reserved
    }

    pub fn is_state_id_reserved(&self, state_id: u32) -> (r: bool)
        ensures
            r == self.reserved().contains(state_id),
    {
        self.reserved_state_ids().contains(&state_id)
    }

    /// Why `state_id` cannot be given to a new state, if it cannot.
    pub closed spec fn new_id_error(&self, state_id: u32) -> Option<StateEditError> {
        if state_id == 0 {
            Some(StateEditError::StateIdInvalid(state_id))
        } else if self.reserved().contains(state_id) {
            Some(StateEditError::StateIdReserved(state_id))
        } else {
            None
        }
    }

    pub fn validate_new_state_id(&self, state_id: u32) -> (r: Result<(), StateEditError>)
        ensures
            r == as_result(self.new_id_error(state_id)),
    {
        if state_id == 0 {
            Err(StateEditError::StateIdInvalid(state_id))
        } else if self.is_state_id_reserved(state_id) {
            Err(StateEditError::StateIdReserved(state_id))
        } else {
            Ok(())
        }
    }

    /// One more than the greatest reserved id (0 when that overflows), or
    /// 1 when nothing is reserved.
    pub fn suggest_next_state_id(&self) -> (r: u32)
        ensures
            self.reserved() == Set::<u32>::empty() ==> r == 1,
            self.reserved() != Set::<u32>::empty() ==> exists|m: u32| #[trigger] self.reserved().contains(m)
                && (forall|x: u32| #[trigger] self.reserved().contains(x) ==> x <= m)
                && r == (if m == u32::MAX { 0 } else { m + 1 }),
    {
        let reserved = self.reserved_state_ids();
        let items = set_items(&reserved);
        let mut greatest: Option<u32> = None;
        let mut i: usize = 0;
        while i < items.len()
            invariant
                i <= items@.len(),
                items@.to_set() == reserved@,
                match greatest {
                    Some(m) => items@.take(i as int).contains(m) && forall|k: int| 0 <= k < i ==> items@[k] <= m,
                    None => i == 0,
                },
            decreases items@.len() - i,
        {
            let x = items[i];
            let ghost prev = greatest;
            match greatest {
                Some(m) => {
                    if x > m {
                        greatest = Some(x);
                    }
                },
                None => {
                    greatest = Some(x);
                },
            }
            proof {
                let m2 = greatest.unwrap();
                if prev is Some && prev.unwrap() == m2 {
                    let k = choose|k: int| 0 <= k < i && items@.take(i as int)[k] == m2;
                    assert(items@.take(i + 1)[k] == m2);
                } else {
                    assert(items@.take(i + 1)[i as int] == m2);
                }
            }
            i = i + 1;
        }
        proof {
            assert(items@.take(items@.len() as int) =~= items@);
        }
        match greatest {
            Some(m) => {
                proof {
                    assert(reserved@.contains(m)) by {
                        let k = choose|k: int| 0 <= k < items@.len() && items@.take(items@.len() as int)[k] == m;
                        assert(items@[k] == m);
                    }
                    assert forall|x: u32| #[trigger] reserved@.contains(x) implies x <= m by {
                        assert(items@.to_set().contains(x));
                        let k = choose|k: int| 0 <= k < items@.len() && items@[k] == x;
                    }
                }
                if m == u32::MAX {
                    0
                } else {
                    m + 1
                }
            },
            None => {
                proof {
                    assert(items@.len() == 0);
                    assert(reserved@ =~= Set::<u32>::empty()) by {
                        assert forall|x: u32| !reserved@.contains(x) by {
                            if reserved@.contains(x) {
                                assert(items@.to_set().contains(x));
                            }
                        }
                    }
                }
                1
            },
        }
    }

    pub fn is_state_active(&self, state_id: u32) -> (r: bool)
        ensures
            r == self.active().contains(state_id),
    {
        self.valid_state_ids.contains(&state_id)
    }

    pub fn state_province_count(&self, state_id: u32) -> (r: usize)
        ensures
            r == (if self.provinces_of().contains_key(state_id) {
                self.provinces_of()[state_id].len()
            } else {
                0
            }),
    {
        match self.working.provinces_by_state.get(&state_id) {
            Some(list) => list.len(),
            None => 0,
        }
    }

    pub fn validate_removable_state(&self, state_id: u32) -> (r: Result<(), StateEditError>)
        ensures
            r == (if self.removed().contains(state_id) {
                Err(StateEditError::StateAlreadyRemoved(state_id))
            } else {
                as_result(self.target_state_error(state_id))
            }),
    {
        if self.removed_state_ids.contains(&state_id) {
            Err(StateEditError::StateAlreadyRemoved(state_id))
        } else {
            self.validate_target_state(state_id)
        }
    }

    pub fn target_state_id(&self) -> (r: Option<u32>)
        ensures
            r == self.target(),
    {
        self.target_state_id
    }

    pub fn dirty_state_ids(&self) -> (r: &BTreeSet<u32>)
        ensures
            r@ == self.dirty(),
    {
        &self.dirty_state_ids
    }

    pub fn revision(&self) -> (r: u64)
        ensures
            r == self.revision_spec(),
    {
        self.revision
    }

    pub fn can_undo(&self) -> (r: bool)
        ensures
            r == (self.undo_len() > 0),
    {
        self.undo_stack.len() > 0
    }

    pub fn can_redo(&self) -> (r: bool)
        ensures
            r == (self.redo_len() > 0),
    {
        self.redo_stack.len() > 0
    }

    pub fn diagnostics(&self) -> (r: &[ProjectDiagnostic])
        ensures
            r@ == self.diagnostics_spec(),
    {
        self.session_diagnostics.as_slice()
    }

    pub fn last_timings(&self) -> (r: StateEditTimings)
        ensures
            r == self.timings(),
    {
        self.last_timings
    }

    /// The data of an active state.
    pub fn state_data(&self, state_id: u32) -> (r: Option<StateData>)
        ensures
            r is Some <==> self.active().contains(state_id),
            r matches Some(d) ==> d.id == Some(state_id) && d.provinces@ == (if self.provinces_of().contains_key(state_id) {
                self.provinces_of()[state_id]
            } else {
                Set::empty()
            }),
            r matches Some(d) ==> self.properties_of().contains_key(state_id) ==> d.properties@ == self.properties_of()[state_id]@,
    {
        if self.valid_state_ids.contains(&state_id) {
            Some(self.working.state_data(state_id))
        } else {
            None
        }
    }

    pub fn province_state_id(&self, province_id: u32) -> (r: Option<u32>)
        ensures
            r == opt_get(self.state_of(), province_id),
    {
        match self.working.state_by_province.get(&province_id) {
            Some(s) => Some(*s),
            None => None,
        }
    }

    /// The victory point and buildings of a province of the map.
    pub fn province_data(&self, province_id: u32) -> (r: Option<EditableProvinceData>)
        ensures
            r is Some <==> self.kinds().contains_key(province_id),
            r matches Some(d) ==> d.victory_point == self.victory_point_at(province_id),
            r matches Some(d) ==> d.buildings@ == (match self.buildings_at(province_id) {
                Some(b) => b@,
                None => Seq::empty(),
            }),
    {
        if self.province_kinds.contains_key(&province_id) {
            let state = self.province_state_id(province_id);
            Some(self.working.province_data(state, province_id))
        } else {
            None
        }
    }

    /// The state whose province data can be edited for `province_id`.
    pub fn editable_province_state(&self, province_id: u32) -> (r: Result<u32, StateEditError>)
        ensures
            r == self.editable_state_of(province_id),
    {
        match self.validate_selectable_province(province_id) {
            Err(e) => {
                return Err(e);
            },
            Ok(()) => {},
        }
        let state_id = match self.province_state_id(province_id) {
            Some(s) => s,
            None => {
                return Err(StateEditError::ProvinceUnassigned(province_id));
            },
        };
        match self.validate_target_state(state_id) {
            Err(e) => {
                return Err(e);
            },
            Ok(()) => {},
        }
        if !self.working.properties_by_state.contains_key(&state_id) {
            return Err(StateEditError::TargetStateNotFound(state_id));
        }
        Ok(state_id)
    }

    pub fn is_dirty(&self) -> (r: bool)
        ensures
            r == (self.dirty() != Set::<u32>::empty()),
    {
        let empty = self.dirty_state_ids.is_empty();
        proof {
            if !empty {
                assert(self.dirty_state_ids@ != Set::<u32>::empty());
            }
        }
        !empty
    }

    pub fn is_state_dirty(&self, state_id: u32) -> (r: bool)
        ensures
            r == self.dirty().contains(state_id),
    {
        self.dirty_state_ids.contains(&state_id)
    }

    /// Describes the newest edit, if there is one.
    pub fn last_command_description(&self) -> (r: Option<String>)
        ensures
            r is Some <==> self.undo_len() > 0,
            r matches Some(t) ==> t@ == command_description(self.last_command()),
    {
        if self.undo_stack.len() == 0 {
            return None;
        }
        let command = &self.undo_stack[self.undo_stack.len() - 1];
        let text = match command {
            StateEditCommand::ReassignProvinces { deltas } => text_with_number("Reassigned ", deltas.len() as u64, " province(s)"),
            StateEditCommand::UpdateStateProperties { state_id, .. } => text_with_number("Updated State ", *state_id as u64, " properties"),
            StateEditCommand::UpdateProvinceData { province_id, .. } => text_with_number("Updated Province ", *province_id as u64, " data"),
            StateEditCommand::CreateState { state, deltas } => {
                let mut text = text_with_number("Created State ", state.state_id as u64, " with ");
                push_decimal(&mut text, deltas.len() as u64);
                text.append(" province(s)");
                text
            },
            StateEditCommand::RemoveState { state, deltas, .. } => {
                let mut text = text_with_number("Removed State ", state.state_id as u64, " with ");
                push_decimal(&mut text, deltas.len() as u64);
                text.append(" province(s)");
                text
            },
        };
        proof {
            assert(text@ =~= command_description(self.last_command()));
        }
        Some(text)
    }

    /// Makes `state_id` the target of edits, or clears the target.
    pub fn set_target_state(&mut self, state_id: Option<u32>) -> (r: Result<(), StateEditError>)
        requires
            old(self).wf(),
        ensures
            final(self).wf(),
            r == (match state_id {
                Some(s) => as_result(old(self).target_state_error(s)),
                None => Ok(()),
            }),
            r is Ok ==> final(self).target() == state_id,
            r is Err ==> final(self).target() == old(self).target(),
            final(self).index_view() == old(self).index_view(),
            final(self).selection() == old(self).selection(),
            final(self).undo_len() == old(self).undo_len(),
    {
        if let Some(s) = state_id {
            match self.validate_target_state(s) {
                Err(e) => {
                    return Err(e);
                },
                Ok(()) => {},
            }
        }
        let ghost before = *self;
        self.target_state_id = state_id;
        proof {
            before.lemma_wf_frame(self);
        }
        Ok(())
    }

    pub fn clear_target_state(&mut self)
        requires
            old(self).wf(),
        ensures
            final(self).wf(),
            final(self).target() is None,
            final(self).index_view() == old(self).index_view(),
            final(self).selection() == old(self).selection(),
    {
        let ghost before = *self;
        self.target_state_id = None;
        proof {
            before.lemma_wf_frame(self);
        }
    }

    /// The brush's destination, or why the brush cannot paint.
    pub fn validate_brush_target(&self, mode: StateBrushMode, target_state_id: Option<u32>) -> (r: Result<Option<u32>, StateEditError>)
        ensures
            r == (match mode {
                StateBrushMode::Unassign => Ok(None),
                StateBrushMode::AssignToTarget => match target_state_id {
                    None => Err(StateEditError::TargetStateInvalid(0)),
                    Some(s) => match self.target_state_error(s) {
                        Some(e) => Err(e),
                        None => Ok(Some(s)),
                    },
                },
            }),
    {
        match mode {
            StateBrushMode::AssignToTarget => {
                let s = match target_state_id {
                    Some(s) => s,
                    None => {
                        return Err(StateEditError::TargetStateInvalid(0));
                    },
                };
                match self.validate_target_state(s) {
                    Err(e) => Err(e),
                    Ok(()) => Ok(Some(s)),
                }
            },
            StateBrushMode::Unassign => Ok(None),
        }
    }

    /// How the brush treats a province it passes over.
    pub fn classify_brush_province(&self, province_id: u32, mode: StateBrushMode, target_state_id: Option<u32>) -> (r: BrushProvinceClassification)
        ensures
            r == (if province_id == 0 {
                BrushProvinceClassification::IgnoredNonLand
            } else if !self.kinds().contains_key(province_id) {
                BrushProvinceClassification::Unknown
            } else if self.kinds()[province_id] != ProvinceKind::Land {
                BrushProvinceClassification::IgnoredNonLand
            } else if self.ambiguous().contains(province_id) {
                BrushProvinceClassification::BlockedAmbiguous
            } else if self.state_of().contains_key(province_id) && !self.active().contains(self.state_of()[province_id]) {
                BrushProvinceClassification::BlockedInvalidState
            } else if opt_get(self.state_of(), province_id) == (match mode {
                StateBrushMode::AssignToTarget => target_state_id,
                StateBrushMode::Unassign => None,
            }) {
                BrushProvinceClassification::NoOp
            } else {
                BrushProvinceClassification::Selectable
            }),
    {
        if province_id == 0 {
            return BrushProvinceClassification::IgnoredNonLand;
        }
        match self.province_kinds.get(&province_id) {
            Some(kind) => {
                if *kind != ProvinceKind::Land {
                    return BrushProvinceClassification::IgnoredNonLand;
                }
            },
            None => {
                return BrushProvinceClassification::Unknown;
            },
        }
        if self.ambiguous_provinces.contains(&province_id) {
            return BrushProvinceClassification::BlockedAmbiguous;
        }
        let current = self.province_state_id(province_id);
        if let Some(s) = current {
            if !self.valid_state_ids.contains(&s) {
                return BrushProvinceClassification::BlockedInvalidState;
            }
        }
        let destination = match mode {
            StateBrushMode::AssignToTarget => target_state_id,
            StateBrushMode::Unassign => None,
        };
        if current == destination {
            BrushProvinceClassification::NoOp
        } else {
            BrushProvinceClassification::Selectable
        }
    }

    /// Records how long the state texture and boundaries took to update.
    pub fn set_visual_timings(&mut self, texture_micros: u64, boundaries_micros: u64)
        requires
            old(self).wf(),
        ensures
            final(self).wf(),
            final(self).timings().state_texture_update_micros == texture_micros,
            final(self).timings().state_boundary_update_micros == boundaries_micros,
            final(self).index_view() == old(self).index_view(),
    {
        let ghost before = *self;
        self.last_timings.state_texture_update_micros = texture_micros;
        self.last_timings.state_boundary_update_micros = boundaries_micros;
        proof {
            before.lemma_wf_frame(self);
        }
    }

    /// Adds a selectable province to the selection or takes it out;
    /// answers whether it is selected now.
    pub fn toggle_selected_province(&mut self, province_id: u32) -> (r: Result<bool, StateEditError>)
        requires
            old(self).wf(),
        ensures
            final(self).wf(),
            old(self).province_error(province_id) matches Some(e) ==> r == Err::<bool, StateEditError>(e)
                && final(self).selection() == old(self).selection(),
            old(self).province_error(province_id) is None ==> r == Ok::<bool, StateEditError>(!old(self).selection().contains(province_id))
                && final(self).selection() == (if old(self).selection().contains(province_id) {
                    old(self).selection().remove(province_id)
                } else {
                    old(self).selection().insert(province_id)
                }),
            final(self).index_view() == old(self).index_view(),
            final(self).target() == old(self).target(),
            same_edits(*final(self), *old(self)),
    {
        match self.validate_selectable_province(province_id) {
            Err(e) => {
                return Err(e);
            },
            Ok(()) => {},
        }
        let ghost before = *self;
        let added = self.selected_provinces.insert(province_id);
        if !added {
            self.selected_provinces.remove(&province_id);
            proof {
                before.lemma_wf_frame(self);
                assert(self.selected_provinces@ =~= before.selected_provinces@.remove(province_id));
            }
            Ok(false)
        } else {
            proof {
                before.lemma_wf_frame(self);
            }
            Ok(true)
        }
    }

    /// Applies a lasso to the selection after checking every province.
    pub fn apply_lasso_selection(&mut self, province_ids: &BTreeSet<u32>, mode: LassoSelectionMode) -> (r: Result<usize, StateEditError>)
        requires
            old(self).wf(),
        ensures
            final(self).wf(),
            r is Ok <==> forall|p: u32| #[trigger] province_ids@.contains(p) ==> old(self).province_error(p) is None,
            r matches Err(e) ==> exists|p: u32| #[trigger] province_ids@.contains(p) && old(self).province_error(p) == Some(e),
            r is Err ==> final(self).selection() == old(self).selection(),
            r is Ok ==> final(self).selection() == (match mode {
                LassoSelectionMode::Replace => province_ids@,
                LassoSelectionMode::Add => old(self).selection().union(province_ids@),
                LassoSelectionMode::Remove => old(self).selection().difference(province_ids@),
            }),
            r matches Ok(n) ==> n == final(self).selection().len(),
            final(self).index_view() == old(self).index_view(),
            final(self).target() == old(self).target(),
            same_edits(*final(self), *old(self)),
    {
        let items = set_items(province_ids);
        let mut i: usize = 0;
        while i < items.len()
            invariant
                i <= items@.len(),
                items@.to_set() == province_ids@,
                self.wf(),
                forall|k: int| 0 <= k < i ==> self.province_error(#[trigger] items@[k]) is None,
            decreases items@.len() - i,
        {
            match self.validate_selectable_province(items[i]) {
                Err(e) => {
                    proof {
                        assert(items@.to_set().contains(items@[i as int]));
                    }
                    return Err(e);
                },
                Ok(()) => {},
            }
            i = i + 1;
        }
        proof {
            assert forall|p: u32| #[trigger] province_ids@.contains(p) implies self.province_error(p) is None by {
                assert(items@.to_set().contains(p));
                let k = choose|k: int| 0 <= k < items@.len() && items@[k] == p;
            }
        }
        let ghost before = *self;
        let mut selection: BTreeSet<u32> = match mode {
            LassoSelectionMode::Replace => BTreeSet::new(),
            _ => self.selected_provinces.clone(),
        };
        let mut j: usize = 0;
        while j < items.len()
            invariant
                j <= items@.len(),
                items@.to_set() == province_ids@,
                selection@ == (match mode {
                    LassoSelectionMode::Replace => items@.take(j as int).to_set(),
                    LassoSelectionMode::Add => before.selected_provinces@.union(items@.take(j as int).to_set()),
                    LassoSelectionMode::Remove => before.selected_provinces@.difference(items@.take(j as int).to_set()),
                }),
            decreases items@.len() - j,
        {
            proof {
                assert(items@.take(j + 1) =~= items@.take(j as int).push(items@[j as int]));
                crate::facts::lemma_push_to_set(items@.take(j as int), items@[j as int]);
            }
            match mode {
                LassoSelectionMode::Remove => {
                    selection.remove(&items[j]);
                },
                _ => {
                    selection.insert(items[j]);
                },
            }
            proof {
                match mode {
                    LassoSelectionMode::Replace => {
                        assert(selection@ =~= items@.take(j + 1).to_set());
                    },
                    LassoSelectionMode::Add => {
                        assert(selection@ =~= before.selected_provinces@.union(items@.take(j + 1).to_set()));
                    },
                    LassoSelectionMode::Remove => {
                        assert(selection@ =~= before.selected_provinces@.difference(items@.take(j + 1).to_set()));
                    },
                }
            }
            j = j + 1;
        }
        proof {
            assert(items@.take(items@.len() as int) =~= items@);
        }
        self.selected_provinces = selection;
        proof {
            before.lemma_wf_frame(self);
        }
        Ok(self.selected_provinces.len())
    }

    /// Empties the selection; answers whether anything was selected.
    pub fn clear_selected_provinces(&mut self) -> (r: bool)
        requires
            old(self).wf(),
        ensures
            final(self).wf(),
            r == (old(self).selection() != Set::<u32>::empty()),
            final(self).selection() == Set::<u32>::empty(),
            final(self).index_view() == old(self).index_view(),
            final(self).target() == old(self).target(),
    {
        let had = !self.selected_provinces.is_empty();
        proof {
            if had {
                assert(self.selected_provinces@ != Set::<u32>::empty());
            }
        }
        let ghost before = *self;
        self.selected_provinces.clear();
        proof {
            before.lemma_wf_frame(self);
        }
        had
    }

    /// Selects every selectable province of the target state.
    pub fn select_target_state_provinces(&mut self) -> (r: Result<usize, StateEditError>)
        requires
            old(self).wf(),
        ensures
            final(self).wf(),
            old(self).target() is None ==> r == Err::<usize, StateEditError>(StateEditError::TargetStateInvalid(0)),
            old(self).target() matches Some(t) ==> (r is Ok <==> old(self).target_state_error(t) is None),
            match old(self).target() {
                Some(t) => match old(self).target_state_error(t) {
                    Some(e) => r == Err::<usize, StateEditError>(e),
                    None => true,
                },
                None => true,
            },
            r is Ok ==> final(self).selection() == Set::new(|p: u32| opt_get(old(self).state_of(), p) == old(self).target()
                && old(self).province_error(p) is None),
            r matches Ok(n) ==> n == final(self).selection().len(),
            r is Err ==> final(self).selection() == old(self).selection(),
            final(self).index_view() == old(self).index_view(),
            final(self).target() == old(self).target(),
            same_edits(*final(self), *old(self)),
    {
        let t = match self.target_state_id {
            Some(t) => t,
            None => {
                return Err(StateEditError::TargetStateInvalid(0));
            },
        };
        match self.validate_target_state(t) {
            Err(e) => {
                return Err(e);
            },
            Ok(()) => {},
        }
        let members = match self.working.provinces_by_state.get(&t) {
            Some(list) => set_items(list),
            None => Vec::new(),
        };
        let ghost listed = preimage(self.working.state_by_province@, t);
        proof {
            if !self.working.provinces_by_state@.contains_key(t) {
                assert(listed =~= Set::<u32>::empty()) by {
                    assert forall|p: u32| !listed.contains(p) by {
                        if listed.contains(p) {
                            assert(self.working.provinces_by_state@.contains_key(self.working.state_by_province@[p]));
                        }
                    }
                }
                assert(members@.to_set() =~= Set::<u32>::empty());
            }
        }
        let mut selection: BTreeSet<u32> = BTreeSet::new();
        let mut i: usize = 0;
        while i < members.len()
            invariant
                i <= members@.len(),
                members@.to_set() == listed,
                listed == preimage(self.working.state_by_province@, t),
                selection@ == Set::new(|p: u32| members@.take(i as int).contains(p) && self.province_error(p) is None),
            decreases members@.len() - i,
        {
            let p = members[i];
            if self.validate_selectable_province(p).is_ok() {
                selection.insert(p);
            }
            proof {
                let x = members@.take(i as int);
                let y = members@.take(i + 1);
                assert forall|q: u32| y.contains(q) <==> x.contains(q) || q == p by {
                    if y.contains(q) {
                        let k = choose|k: int| 0 <= k < y.len() && y[k] == q;
                        if k < i {
                            assert(x[k] == q);
                        }
                    }
                    if x.contains(q) {
                        let k = choose|k: int| 0 <= k < x.len() && x[k] == q;
                        assert(y[k] == q);
                    }
                    if q == p {
                        assert(y[i as int] == p);
                    }
                }
                assert(selection@ =~= Set::new(|q: u32| y.contains(q) && self.province_error(q) is None));
            }
            i = i + 1;
        }
        proof {
            assert(members@.take(members@.len() as int) =~= members@);
            assert forall|p: u32| #[trigger] selection@.contains(p) <==> (opt_get(self.working.state_by_province@, p) == Some(t)
                && self.province_error(p) is None) by {
                if opt_get(self.working.state_by_province@, p) == Some(t) {
                    assert(listed.contains(p));
                    assert(members@.to_set().contains(p));
                }
                if members@.contains(p) {
                    assert(members@.to_set().contains(p));
                }
            }
            assert(selection@ =~= Set::new(|p: u32| opt_get(self.working.state_by_province@, p) == Some(t)
                && self.province_error(p) is None));
        }
        let ghost before = *self;
        self.selected_provinces = selection;
        proof {
            before.lemma_wf_frame(self);
        }
        Ok(self.selected_provinces.len())
    }

    /// Hands over the provinces changed by the last operation, leaving none.
    pub fn take_last_changed_provinces(&mut self) -> (r: BTreeSet<u32>)
        requires
            old(self).wf(),
        ensures
            final(self).wf(),
            r@ == old(self).changed(),
            final(self).changed() == Set::<u32>::empty(),
            final(self).index_view() == old(self).index_view(),
    {
        let ghost before = *self;
        let mut taken = BTreeSet::new();
        std::mem::swap(&mut taken, &mut self.last_changed_provinces);
        proof {
            before.lemma_wf_frame(self);
        }
        taken
    }
}

impl StateEditSession {
    /// Replaces the properties of an active state as one undoable step;
    /// answers whether anything changed.
    pub fn update_state_properties(&mut self, state_id: u32, after: EditableStateProperties) -> (r: Result<bool, StateEditError>)
        requires
            old(self).wf(),
        ensures
            final(self).wf(),
            r == (match old(self).target_state_error(state_id) {
                Some(e) => Err(e),
                None => if !old(self).properties_of().contains_key(state_id) {
                    Err(StateEditError::TargetStateNotFound(state_id))
                } else {
                    Ok(old(self).properties_of()[state_id]@ != after@)
                },
            }),
            r != Ok::<bool, StateEditError>(true) ==> final(self).index_view() == old(self).index_view(),
            r == Ok::<bool, StateEditError>(true) ==> final(self).index_view() == (IndexState {
                properties: old(self).index_view().properties.insert(state_id, after@),
                ..old(self).index_view()
            }),
            r == Ok::<bool, StateEditError>(true) ==> {
                &&& final(self).properties_of().contains_key(state_id)
                &&& final(self).properties_of()[state_id]@ == after@
                &&& final(self).undo_len() == old(self).undo_len() + 1
                &&& final(self).redo_len() == 0
                &&& final(self).undo_target() == old(self).index_view()
            },
            r != Ok::<bool, StateEditError>(true) ==> same_edits(*final(self), *old(self)),
            r == Ok::<bool, StateEditError>(true) ==> final(self).dirty() == final(self).differing()
                && final(self).revision_spec() == old(self).revision_spec().wrapping_add(1),
            final(self).selection() == old(self).selection(),
            final(self).target() == old(self).target(),
    {
        match self.validate_target_state(state_id) {
            Err(e) => {
                return Err(e);
            },
            Ok(()) => {},
        }
        let ghost start = *self;
        self.last_changed_provinces.clear();
        proof {
            start.lemma_wf_frame(self);
        }
        let before = match self.working.properties_by_state.get(&state_id) {
            Some(p) => p.duplicate(),
            None => {
                return Err(StateEditError::TargetStateNotFound(state_id));
            },
        };
        if before.same_as(&after) {
            return Ok(false);
        }
        let command = StateEditCommand::UpdateStateProperties { state_id, before, after };
        let _ = self.commit_command(command, false);
        Ok(true)
    }

    /// Replaces the victory point and buildings of a province as one
    /// undoable step; answers whether anything changed.
    pub fn update_province_data(&mut self, province_id: u32, state_id: u32, after: EditableProvinceData) -> (r: Result<bool, StateEditError>)
        requires
            old(self).wf(),
        ensures
            final(self).wf(),
            !after.valid_spec() ==> r matches Err(StateEditError::InvalidProvinceData(_)),
            after.valid_spec() ==> match old(self).editable_state_of(province_id) {
                Err(e) => r == Err::<bool, StateEditError>(e),
                Ok(actual) => if actual != state_id {
                    r == Err::<bool, StateEditError>(StateEditError::ProvinceStateChanged {
                        province_id,
                        expected_state_id: state_id,
                        actual_state_id: Some(actual),
                    })
                } else {
                    r == Ok::<bool, StateEditError>(!(old(self).victory_point_at(province_id) == after.victory_point
                        && buildings_or_empty(old(self).buildings_at(province_id)) == after.buildings@))
                },
            },
            final(self).index_view() == old(self).index_view(),
            r != Ok::<bool, StateEditError>(true) ==> same_edits(*final(self), *old(self)),
            r == Ok::<bool, StateEditError>(true) ==> final(self).redo_len() == 0 && final(self).dirty() == final(self).differing()
                && final(self).revision_spec() == old(self).revision_spec().wrapping_add(1),
            r is Ok ==> final(self).victory_point_at(province_id) == after.victory_point,
            r is Ok ==> (final(self).buildings_at(province_id) matches Some(b) ==> b@ == after.buildings@),
            r is Ok ==> (final(self).buildings_at(province_id) is None ==> after.buildings@.len() == 0),
            r == Ok::<bool, StateEditError>(true) ==> final(self).undo_len() == old(self).undo_len() + 1
                && final(self).undo_target() == old(self).index_view(),
            r != Ok::<bool, StateEditError>(true) ==> final(self).undo_len() == old(self).undo_len(),
            final(self).selection() == old(self).selection(),
            final(self).target() == old(self).target(),
    {
        let ghost start = *self;
        self.last_changed_provinces.clear();
        proof {
            start.lemma_wf_frame(self);
        }
        match after.validate() {
            Err(message) => {
                return Err(StateEditError::InvalidProvinceData(message));
            },
            Ok(()) => {},
        }
        let actual = match self.editable_province_state(province_id) {
            Ok(s) => s,
            Err(e) => {
                return Err(e);
            },
        };
        if actual != state_id {
            return Err(StateEditError::ProvinceStateChanged {
                province_id,
                expected_state_id: state_id,
                actual_state_id: Some(actual),
            });
        }
        let before = self.working.province_data(Some(state_id), province_id);
        if before.same_as(&after) {
            proof {
                assert(opt_get(self.working.state_by_province@, province_id) == Some(state_id));
            }
            return Ok(false);
        }
        let command = StateEditCommand::UpdateProvinceData { province_id, state_id, before, after };
        let _ = self.commit_command(command, false);
        proof {
            assert(opt_get(self.working.state_by_province@, province_id) == Some(state_id));
        }
        Ok(true)
    }

    /// Why creating state `state_id` with `properties` and the listed
    /// provinces is refused, if it is.
    pub closed spec fn create_refused(&self, state_id: u32, properties: EditableStateProperties, ids: Seq<u32>) -> bool {
        self.new_id_error(state_id) is Some || !properties.valid_spec() || self.first_move_error(ids, Some(state_id)) is Some
    }

    fn build_create_command(&self, state_id: u32, properties: EditableStateProperties, ids: &[u32]) -> (r: Result<StateEditCommand, StateEditError>)
        requires
            self.wf(),
        ensures
            r is Ok <==> !self.create_refused(state_id, properties, ids@),
            self.new_id_error(state_id) matches Some(e) ==> r == Err::<StateEditCommand, StateEditError>(e),
            self.new_id_error(state_id) is None && !properties.valid_spec() ==> r matches Err(StateEditError::InvalidStateProperties(_)),
            self.new_id_error(state_id) is None && properties.valid_spec() ==> match self.first_move_error(ids@, Some(state_id)) {
                Some(e) => r == Err::<StateEditCommand, StateEditError>(e),
                None => r is Ok,
            },
            r matches Ok(c) ==> {
                &&& command_ok(self.index_view(), c, self.known_state_ids@, self.loaded_state_ids@)
                &&& created_id(c) == Some(state_id)
                &&& moved_by(c) == self.moving(ids@.to_set(), Some(state_id))
                &&& command_forward(self.index_view(), c).state_of == reassigned(self.state_of(), ids@.to_set(), Some(state_id))
            },
            r matches Ok(c) ==> (c matches StateEditCommand::CreateState { state, .. } && state.state_id == state_id
                && state.properties@ == properties@),
            r matches Ok(c) ==> (c matches StateEditCommand::CreateState { state, deltas } && {
                &&& state.victory_points@.len() == 0
                &&& state.province_buildings@ == Map::<u32, Buildings>::empty()
                &&& forall|k: int| 0 <= k < deltas@.len() ==> {
                    &&& (#[trigger] deltas@[k]).victory_points@ == self.working.points_owned(
                        deltas@[k].from_state_id,
                        deltas@[k].province_id,
                    )
                    &&& opt_buildings_view(deltas@[k].province_buildings) == opt_buildings_view(
                        self.working.buildings_of(deltas@[k].from_state_id, deltas@[k].province_id),
                    )
                }
            }),
    {
        match self.validate_new_state_id(state_id) {
            Err(e) => {
                return Err(e);
            },
            Ok(()) => {},
        }
        match properties.validate() {
            Err(message) => {
                return Err(StateEditError::InvalidStateProperties(message));
            },
            Ok(()) => {},
        }
        let deltas = match self.build_province_deltas(ids, Some(state_id)) {
            Ok(d) => d,
            Err(e) => {
                return Err(e);
            },
        };
        proof {
            lemma_reassigned(self.working.state_by_province@, deltas@, ids@.to_set(), Some(state_id));
            assert(self.moving(ids@.to_set(), Some(state_id)) =~= Set::new(|p: u32| ids@.to_set().contains(p)
                && opt_get(self.working.state_by_province@, p) != Some(state_id)));
        }
        let provinces: BTreeSet<u32> = BTreeSet::new();
        let snapshot = WorkingStateSnapshot {
            state_id,
            properties,
            provinces,
            victory_points: Vec::new(),
            province_buildings: BTreeMap::new(),
            origin: WorkingStateOrigin::CreatedInSession,
            has_dated_history: false,
        };
        Ok(StateEditCommand::CreateState { state: snapshot, deltas })
    }

    /// Creates state `state_id` with the listed provinces as one undoable
    /// step, and makes it the target.
    pub fn create_state_with_provinces(&mut self, state_id: u32, properties: EditableStateProperties, province_ids: &[u32]) -> (r: Result<(), StateEditError>)
        requires
            old(self).wf(),
        ensures
            final(self).wf(),
            r is Ok <==> !old(self).create_refused(state_id, properties, province_ids@),
            old(self).new_id_error(state_id) matches Some(e) ==> r == Err::<(), StateEditError>(e),
            r is Err ==> final(self).index_view() == old(self).index_view() && final(self).undo_len() == old(self).undo_len()
                && final(self).selection() == old(self).selection() && final(self).target() == old(self).target(),
            r is Ok ==> {
                &&& final(self).active() == old(self).active().insert(state_id)
                &&& final(self).state_of() == reassigned(old(self).state_of(), province_ids@.to_set(), Some(state_id))
                &&& final(self).target() == Some(state_id)
                &&& final(self).selection() == Set::<u32>::empty()
                &&& final(self).undo_len() == old(self).undo_len() + 1
                &&& final(self).undo_target() == old(self).index_view()
                &&& final(self).changed() == old(self).moving(province_ids@.to_set(), Some(state_id))
            },
            old(self).new_id_error(state_id) is None && !properties.valid_spec() ==> r matches Err(
                StateEditError::InvalidStateProperties(_),
            ),
            old(self).new_id_error(state_id) is None && properties.valid_spec() ==> match old(self).first_move_error(
                province_ids@,
                Some(state_id),
            ) {
                Some(e) => r == Err::<(), StateEditError>(e),
                None => r is Ok,
            },
            r is Ok ==> {
                &&& final(self).undo_len() == old(self).undo_len() + 1
                &&& final(self).redo_len() == 0
                &&& final(self).origins().contains_key(state_id)
                &&& final(self).origins()[state_id] is CreatedInSession
                &&& final(self).removed() == old(self).removed().remove(state_id)
                &&& final(self).properties_of().contains_key(state_id)
                &&& final(self).properties_of()[state_id]@ == properties@
                &&& final(self).dirty() == final(self).differing()
                &&& final(self).revision_spec() == old(self).revision_spec().wrapping_add(1)
            },
            r is Err ==> same_edits(*final(self), *old(self)),
            r is Ok ==> forall|p: u32| #[trigger] old(self).moving(province_ids@.to_set(), Some(state_id)).contains(p) ==> {
                &&& final(self).victory_point_at(p) == old(self).victory_point_at(p)
                &&& opt_buildings_view(final(self).buildings_at(p)) == opt_buildings_view(old(self).buildings_at(p))
            },
            r is Ok ==> final(self).known() == old(self).known() && (final(self).last_command() matches StateEditCommand::CreateState {
                state,
                ..
            } && state.state_id == state_id),
            r is Ok ==> final(self).created_in_history() == old(self).created_in_history().insert(state_id)
                && final(self).created_in_redo() == Set::<u32>::empty(),
    {
        let built = self.build_create_command(state_id, properties, province_ids);
        let ghost start = *self;
        self.last_changed_provinces.clear();
        proof {
            start.lemma_wf_frame(self);
        }
        let command = match built {
            Ok(c) => c,
            Err(e) => {
                return Err(e);
            },
        };
        let ghost dv = match &command {
            StateEditCommand::CreateState { deltas, .. } => (*deltas)@,
            _ => Seq::empty(),
        };
        let ghost w0 = self.working;
        let _ = self.commit_command(command, true);
        proof {
            let moving = old(self).moving(province_ids@.to_set(), Some(state_id));
            assert forall|p: u32| #[trigger] moving.contains(p) implies {
                &&& self.victory_point_at(p) == old(self).victory_point_at(p)
                &&& opt_buildings_view(self.buildings_at(p)) == opt_buildings_view(old(self).buildings_at(p))
            } by {
                assert(delta_provinces(dv).contains(p));
                lemma_delta_of_some(dv, p);
                lemma_last_target_some(dv, p);
                lemma_moved_forward_closed(w0.state_by_province@, dv, p);
                let x = delta_of(dv, p).unwrap();
                let k = choose|k: int| 0 <= k < dv.len() && dv[k] == x && x.province_id == p;
                lemma_forward_lands(w0.state_by_province@, dv, k);
                assert(x.to_state_id == Some(state_id));
                assert(x.from_state_id == opt_get(w0.state_by_province@, p));
            }
        }
        let ghost mid = *self;
        self.target_state_id = Some(state_id);
        self.selected_provinces.clear();
        proof {
            mid.lemma_wf_frame(self);
            assert(self.last_changed_provinces@ =~= old(self).moving(province_ids@.to_set(), Some(state_id)));
        }
        Ok(())
    }

    /// Creates a state, with the selected provinces when `use_selected`.
    pub fn create_state(&mut self, state_id: u32, properties: EditableStateProperties, use_selected: bool) -> (r: Result<(), StateEditError>)
        requires
            old(self).wf(),
        ensures
            final(self).wf(),
            old(self).new_id_error(state_id) matches Some(e) ==> r == Err::<(), StateEditError>(e),
            r is Err ==> final(self).index_view() == old(self).index_view() && final(self).undo_len() == old(self).undo_len(),
            r is Ok ==> {
                &&& final(self).active() == old(self).active().insert(state_id)
                &&& final(self).state_of() == reassigned(old(self).state_of(),
                    if use_selected { old(self).selection() } else { Set::empty() }, Some(state_id))
                &&& final(self).target() == Some(state_id)
                &&& final(self).selection() == Set::<u32>::empty()
                &&& final(self).undo_target() == old(self).index_view()
            },
            !use_selected ==> (r is Ok <==> old(self).new_id_error(state_id) is None && properties.valid_spec()),
            r is Ok ==> {
                &&& final(self).undo_len() == old(self).undo_len() + 1
                &&& final(self).redo_len() == 0
                &&& final(self).origins().contains_key(state_id)
                &&& final(self).origins()[state_id] is CreatedInSession
                &&& final(self).removed() == old(self).removed().remove(state_id)
                &&& final(self).properties_of().contains_key(state_id)
                &&& final(self).properties_of()[state_id]@ == properties@
                &&& final(self).dirty() == final(self).differing()
                &&& final(self).revision_spec() == old(self).revision_spec().wrapping_add(1)
            },
            r is Err ==> same_edits(*final(self), *old(self)),
            r is Ok && use_selected ==> forall|p: u32| #[trigger] old(self).moving(old(self).selection(), Some(state_id)).contains(p)
                ==> {
                &&& final(self).victory_point_at(p) == old(self).victory_point_at(p)
                &&& opt_buildings_view(final(self).buildings_at(p)) == opt_buildings_view(old(self).buildings_at(p))
            },
            r is Ok <==> !old(self).create_refused(state_id, properties, creation_ids(old(self).selection(), use_selected)),
            old(self).new_id_error(state_id) is None && !properties.valid_spec() ==> r matches Err(
                StateEditError::InvalidStateProperties(_),
            ),
            old(self).new_id_error(state_id) is None && properties.valid_spec() ==> match old(self).first_move_error(
                creation_ids(old(self).selection(), use_selected),
                Some(state_id),
            ) {
                Some(e) => r == Err::<(), StateEditError>(e),
                None => r is Ok,
            },
            r is Ok ==> final(self).known() == old(self).known() && (final(self).last_command() matches StateEditCommand::CreateState {
                state,
                ..
            } && state.state_id == state_id),
            r is Ok ==> final(self).created_in_history() == old(self).created_in_history().insert(state_id)
                && final(self).created_in_redo() == Set::<u32>::empty(),
    {
        let provinces = if use_selected {
            self.selected_list()
        } else {
            Vec::new()
        };
        proof {
            if !use_selected {
                assert(provinces@.to_set() =~= Set::<u32>::empty());
            }
        }
        self.create_state_with_provinces(state_id, properties, provinces.as_slice())
    }

    /// Creates a state holding the selected provinces.
    pub fn create_state_from_selection(&mut self, state_id: u32, properties: EditableStateProperties) -> (r: Result<(), StateEditError>)
        requires
            old(self).wf(),
        ensures
            final(self).wf(),
            old(self).new_id_error(state_id) matches Some(e) ==> r == Err::<(), StateEditError>(e),
            r is Err ==> final(self).index_view() == old(self).index_view(),
            r is Ok ==> final(self).active() == old(self).active().insert(state_id)
                && final(self).state_of() == reassigned(old(self).state_of(), old(self).selection(), Some(state_id)),
            r is Ok <==> !old(self).create_refused(state_id, properties, ascending_of(old(self).selection())),
            old(self).new_id_error(state_id) is None && !properties.valid_spec() ==> r matches Err(
                StateEditError::InvalidStateProperties(_),
            ),
            old(self).new_id_error(state_id) is None && properties.valid_spec() ==> match old(self).first_move_error(
                ascending_of(old(self).selection()),
                Some(state_id),
            ) {
                Some(e) => r == Err::<(), StateEditError>(e),
                None => r is Ok,
            },
            r is Ok ==> final(self).known() == old(self).known() && (final(self).last_command() matches StateEditCommand::CreateState {
                state,
                ..
            } && state.state_id == state_id),
            r is Ok ==> final(self).created_in_history() == old(self).created_in_history().insert(state_id)
                && final(self).created_in_redo() == Set::<u32>::empty(),
    {
        self.create_state(state_id, properties, true)
    }

    /// Checks whether a state could be created, without creating it.
    pub fn validate_state_creation(&self, state_id: u32, properties: &EditableStateProperties, use_selected: bool) -> (r: Result<(), StateEditError>)
        requires
            self.wf(),
        ensures
            self.new_id_error(state_id) matches Some(e) ==> r == Err::<(), StateEditError>(e),
            !use_selected ==> (r is Ok <==> self.new_id_error(state_id) is None && properties.valid_spec()),
            r is Ok <==> !self.create_refused(state_id, *properties, creation_ids(self.selection(), use_selected)),
            self.new_id_error(state_id) is None && !properties.valid_spec() ==> r matches Err(
                StateEditError::InvalidStateProperties(_),
            ),
            self.new_id_error(state_id) is None && properties.valid_spec() ==> match self.first_move_error(
                creation_ids(self.selection(), use_selected),
                Some(state_id),
            ) {
                Some(e) => r == Err::<(), StateEditError>(e),
                None => r is Ok,
            },
    {
        let provinces = if use_selected {
            self.selected_list()
        } else {
            Vec::new()
        };
        proof {
            if !use_selected {
                assert(provinces@ =~= Seq::<u32>::empty());
            }
        }
        match self.build_create_command(state_id, properties.duplicate_for_check(), provinces.as_slice()) {
            Ok(_) => Ok(()),
            Err(e) => Err(e),
        }
    }
}

impl StateEditSession {
    /// Why removing state `state_id` under `policy` is refused, if it is.
    pub closed spec fn remove_refused(&self, state_id: u32, policy: StateRemovalPolicy) -> bool {
        ||| self.removed_state_ids@.contains(state_id)
        ||| self.target_state_error(state_id) is Some
        ||| (policy matches StateRemovalPolicy::MoveToState(t) && (t == state_id || self.target_state_error(t) is Some))
        ||| !self.working.properties_by_state@.contains_key(state_id)
        ||| !self.origins_by_state@.contains_key(state_id)
        ||| exists|p: u32| #[trigger] preimage(self.working.state_by_province@, state_id).contains(p)
            && self.move_error(p, policy.target_spec()) is Some
    }

    fn build_remove_command(&self, state_id: u32, policy: StateRemovalPolicy) -> (r: Result<StateEditCommand, StateEditError>)
        requires
            self.wf(),
        ensures
            r is Ok <==> !self.remove_refused(state_id, policy),
            self.removed_state_ids@.contains(state_id) ==> r == Err::<StateEditCommand, StateEditError>(StateEditError::StateAlreadyRemoved(state_id)),
            !self.removed_state_ids@.contains(state_id) && self.target_state_error(state_id) is Some
                ==> r == Err::<StateEditCommand, StateEditError>(self.target_state_error(state_id).unwrap()),
            r matches Ok(c) ==> {
                &&& command_ok(self.index_view(), c, self.known_state_ids@, self.loaded_state_ids@)
                &&& moved_by(c) == preimage(self.state_of(), state_id)
                &&& command_forward(self.index_view(), c).state_of
                    == reassigned(self.state_of(), preimage(self.state_of(), state_id), policy.target_spec())
                &&& command_forward(self.index_view(), c).active == self.active().remove(state_id)
                &&& c matches StateEditCommand::RemoveState { deltas, .. } && forall|k: int| 0 <= k < deltas@.len() ==> {
                    &&& (#[trigger] deltas@[k]).victory_points@ == self.working.points_owned(
                        deltas@[k].from_state_id,
                        deltas@[k].province_id,
                    )
                    &&& self.move_error(deltas@[k].province_id, policy.target_spec()) is None
                    &&& opt_buildings_view(deltas@[k].province_buildings) == opt_buildings_view(
                        self.working.buildings_of(deltas@[k].from_state_id, deltas@[k].province_id),
                    )
                }
            },
    {
        match self.validate_removable_state(state_id) {
            Err(e) => {
                return Err(e);
            },
            Ok(()) => {},
        }
        let target = match policy {
            StateRemovalPolicy::MoveToState(t) => {
                if t == state_id {
                    return Err(StateEditError::StateRemovalTargetMatches(state_id));
                }
                match self.validate_target_state(t) {
                    Err(e) => {
                        return Err(e);
                    },
                    Ok(()) => {},
                }
                Some(t)
            },
            StateRemovalPolicy::Unassign => None,
        };
        let properties = match self.working.properties_by_state.get(&state_id) {
            Some(p) => p.duplicate(),
            None => {
                return Err(StateEditError::TargetStateNotFound(state_id));
            },
        };
        let provinces = match self.working.provinces_by_state.get(&state_id) {
            Some(list) => list.clone(),
            None => BTreeSet::new(),
        };
        let victory_points = match self.working.victory_points_by_state.get(&state_id) {
            Some(points) => copy_points(points),
            None => Vec::new(),
        };
        let province_buildings = match self.working.province_buildings_by_state.get(&state_id) {
            Some(b) => b.clone(),
            None => BTreeMap::new(),
        };
        let origin = match self.origins_by_state.get(&state_id) {
            Some(WorkingStateOrigin::Loaded { document_path }) => WorkingStateOrigin::Loaded { document_path: document_path.clone() },
            Some(WorkingStateOrigin::CreatedInSession) => WorkingStateOrigin::CreatedInSession,
            None => {
                return Err(StateEditError::TargetStateNotFound(state_id));
            },
        };
        let has_dated_history = self.working.dated_history_states.contains(&state_id);
        let ghost members = preimage(self.working.state_by_province@, state_id);
        proof {
            assert(self.index_view().listed.contains(state_id));
            assert(provinces@ == members);
        }
        let ids = set_items(&provinces);
        let built = self.build_province_deltas(ids.as_slice(), target);
        proof {
            self.lemma_first_error_none(ids@, target);
            assert(target == policy.target_spec());
            assert(self.moving(ids@.to_set(), target) =~= members) by {
                assert forall|p: u32| members.contains(p) implies opt_get(self.working.state_by_province@, p) != target by {}
            }
            if exists|p: u32| #[trigger] members.contains(p) && self.move_error(p, target) is Some {
                let p = choose|p: u32| #[trigger] members.contains(p) && self.move_error(p, target) is Some;
                assert(ids@.to_set().contains(p));
                let i = choose|i: int| 0 <= i < ids@.len() && ids@[i] == p;
            }
            if self.first_move_error(ids@, target) is Some {
                let e = self.first_move_error(ids@, target).unwrap();
                let i = choose|i: int| 0 <= i < ids@.len() && self.move_error(ids@[i], target) == Some(e);
                assert(ids@.to_set().contains(ids@[i]));
            }
        }
        let deltas = match built {
            Ok(d) => d,
            Err(e) => {
                return Err(e);
            },
        };
        proof {
            lemma_reassigned(self.working.state_by_province@, deltas@, members, target);
            assert(Set::new(|p: u32| members.contains(p) && opt_get(self.working.state_by_province@, p) != target) =~= members);
            assert(ids@.to_set() == members);
        }
        let snapshot = WorkingStateSnapshot {
            state_id,
            properties,
            provinces,
            victory_points,
            province_buildings,
            origin,
            has_dated_history,
        };
        Ok(StateEditCommand::RemoveState { state: snapshot, policy, deltas })
    }

    /// Removes a state as one undoable step; its provinces move to the
    /// policy's state or become unassigned.
    pub fn remove_state(&mut self, state_id: u32, policy: StateRemovalPolicy) -> (r: Result<(), StateEditError>)
        requires
            old(self).wf(),
        ensures
            final(self).wf(),
            r is Ok <==> !old(self).remove_refused(state_id, policy),
            old(self).removed().contains(state_id) ==> r == Err::<(), StateEditError>(StateEditError::StateAlreadyRemoved(state_id)),
            r is Err ==> final(self).index_view() == old(self).index_view() && final(self).undo_len() == old(self).undo_len()
                && final(self).selection() == old(self).selection() && final(self).target() == old(self).target(),
            r is Ok ==> {
                &&& final(self).active() == old(self).active().remove(state_id)
                &&& final(self).state_of() == reassigned(old(self).state_of(), preimage(old(self).state_of(), state_id), policy.target_spec())
                &&& final(self).undo_len() == old(self).undo_len() + 1
                &&& final(self).undo_target() == old(self).index_view()
                &&& final(self).target() == (if old(self).target() == Some(state_id) { policy.target_spec() } else { old(self).target() })
                &&& final(self).selection() == old(self).selection().intersect(
                    final(self).state_of().dom().union(final(self).unassigned()))
            },
            !old(self).removed().contains(state_id) && old(self).target_state_error(state_id) is Some
                ==> r == Err::<(), StateEditError>(old(self).target_state_error(state_id).unwrap()),
            r is Ok ==> {
                &&& final(self).removed() == old(self).removed().insert(state_id)
                &&& !final(self).properties_of().contains_key(state_id)
                &&& final(self).redo_len() == 0
                &&& final(self).dirty() == final(self).differing()
                &&& final(self).revision_spec() == old(self).revision_spec().wrapping_add(1)
            },
            r is Err ==> same_edits(*final(self), *old(self)),
            r is Ok ==> forall|p: u32| #[trigger] preimage(old(self).state_of(), state_id).contains(p)
                ==> final(self).victory_point_at(p) == (if old(self).points_at(p).len() == 0 {
                old(self).victory_point_in(policy.target_spec(), p)
            } else {
                old(self).victory_point_at(p)
            }),
            r is Ok ==> forall|p: u32| #[trigger] preimage(old(self).state_of(), state_id).contains(p) ==> opt_buildings_view(
                final(self).buildings_at(p),
            ) == (if old(self).buildings_at(p) is None {
                opt_buildings_view(old(self).buildings_in(policy.target_spec(), p))
            } else {
                opt_buildings_view(old(self).buildings_at(p))
            }),
    {
        let built = self.build_remove_command(state_id, policy);
        let ghost start = *self;
        self.last_changed_provinces.clear();
        proof {
            start.lemma_wf_frame(self);
        }
        let command = match built {
            Ok(c) => c,
            Err(e) => {
                return Err(e);
            },
        };
        let ghost dv = match &command {
            StateEditCommand::RemoveState { deltas, .. } => (*deltas)@,
            _ => Seq::empty(),
        };
        let ghost w0 = self.working;
        let _ = self.commit_command(command, true);
        proof {
            let members = preimage(old(self).state_of(), state_id);
            let target = policy.target_spec();
            assert forall|p: u32| #[trigger] members.contains(p) implies {
                &&& self.points_at(p) == arrived(w0.points_owned(target, p), target, old(self).points_at(p))
                &&& opt_buildings_view(self.buildings_at(p)) == (if old(self).buildings_at(p) is None {
                    opt_buildings_view(w0.buildings_of(target, p))
                } else {
                    opt_buildings_view(old(self).buildings_at(p))
                })
                &&& old(self).move_error(p, target) is None
            } by {
                assert(delta_provinces(dv).contains(p));
                lemma_delta_of_some(dv, p);
                lemma_last_target_some(dv, p);
                lemma_moved_forward_closed(w0.state_by_province@, dv, p);
                let x = delta_of(dv, p).unwrap();
                let k = choose|k: int| 0 <= k < dv.len() && dv[k] == x && x.province_id == p;
                lemma_forward_lands(w0.state_by_province@, dv, k);
                assert(x.to_state_id == target);
                assert(x.from_state_id == opt_get(w0.state_by_province@, p));
            }
        }
        let ghost mid = *self;
        if self.target_state_id == Some(state_id) {
            self.target_state_id = match policy {
                StateRemovalPolicy::MoveToState(t) => Some(t),
                StateRemovalPolicy::Unassign => None,
            };
        }
        let items = set_items(&self.selected_provinces);
        let mut kept: BTreeSet<u32> = BTreeSet::new();
        let mut i: usize = 0;
        while i < items.len()
            invariant
                i <= items@.len(),
                items@.to_set() == mid.selected_provinces@,
                kept@ == Set::new(|p: u32| items@.take(i as int).contains(p)
                    && (self.working.state_by_province@.contains_key(p) || self.working.unassigned_land_provinces@.contains(p))),
            decreases items@.len() - i,
        {
            let p = items[i];
            if self.working.state_by_province.contains_key(&p) || self.working.unassigned_land_provinces.contains(&p) {
                kept.insert(p);
            }
            proof {
                let x = items@.take(i as int);
                let y = items@.take(i + 1);
                assert forall|q: u32| y.contains(q) <==> x.contains(q) || q == p by {
                    if y.contains(q) {
                        let k = choose|k: int| 0 <= k < y.len() && y[k] == q;
                        if k < i {
                            assert(x[k] == q);
                        }
                    }
                    if x.contains(q) {
                        let k = choose|k: int| 0 <= k < x.len() && x[k] == q;
                        assert(y[k] == q);
                    }
                    if q == p {
                        assert(y[i as int] == p);
                    }
                }
                assert(kept@ =~= Set::new(|q: u32| y.contains(q)
                    && (self.working.state_by_province@.contains_key(q) || self.working.unassigned_land_provinces@.contains(q))));
            }
            i = i + 1;
        }
        proof {
            assert(items@.take(items@.len() as int) =~= items@);
            assert forall|p: u32| #[trigger] kept@.contains(p) <==> mid.selected_provinces@.contains(p)
                && (self.working.state_by_province@.contains_key(p) || self.working.unassigned_land_provinces@.contains(p)) by {
                if mid.selected_provinces@.contains(p) {
                    assert(items@.to_set().contains(p));
                }
                if items@.contains(p) {
                    assert(items@.to_set().contains(p));
                }
            }
            assert(kept@ =~= mid.selected_provinces@.intersect(
                self.working.state_by_province@.dom().union(self.working.unassigned_land_provinces@)));
        }
        self.selected_provinces = kept;
        proof {
            mid.lemma_wf_frame(self);
        }
        Ok(())
    }

    /// Checks whether a state could be removed, without removing it.
    pub fn validate_state_removal(&self, state_id: u32, policy: StateRemovalPolicy) -> (r: Result<(), StateEditError>)
        requires
            self.wf(),
        ensures
            r is Ok <==> !self.remove_refused(state_id, policy),
            self.removed().contains(state_id) ==> r == Err::<(), StateEditError>(StateEditError::StateAlreadyRemoved(state_id)),
    {
        match self.build_remove_command(state_id, policy) {
            Ok(_) => Ok(()),
            Err(e) => Err(e),
        }
    }
}

fn count_with_severity(d: &Vec<ProjectDiagnostic>, severity: DiagnosticSeverity) -> (r: usize)
    ensures
        r == count_severity(d@, severity),
{
    let mut count: usize = 0;
    let mut i: usize = 0;
    while i < d.len()
        invariant
            i <= d@.len(),
            count == count_severity(d@.take(i as int), severity),
            count <= i,
        decreases d@.len() - i,
    {
        proof {
            assert(d@.take(i + 1).drop_last() =~= d@.take(i as int));
        }
        if d[i].severity == severity {
            count = count + 1;
        }
        i = i + 1;
    }
    proof {
        assert(d@.take(d@.len() as int) =~= d@);
    }
    count
}

impl StateEditSession {
    /// The active states created in this session.
    pub closed spec fn created_states(&self) -> Set<u32> {
        Set::new(|s: u32| self.valid_state_ids@.contains(s) && self.origins_by_state@.contains_key(s)
            && self.origins_by_state@[s] == WorkingStateOrigin::CreatedInSession)
    }

    /// The selected provinces assigned to `state` (or unassigned, for `None`).
    pub closed spec fn selected_from(&self, state: Option<u32>) -> Set<u32> {
        Set::new(|p: u32| self.selected_provinces@.contains(p) && opt_get(self.working.state_by_province@, p) == state)
    }

    /// Counts that describe the session.
    pub fn summary(&self) -> (r: StateEditSummary)
        ensures
            r.assigned_provinces == self.state_of().len(),
            r.unassigned_land_provinces == self.unassigned().len(),
            r.commands == self.undo_len(),
            r.redo_commands == self.redo_len(),
            r.modified_states == self.dirty().len(),
            r.selected_provinces == self.selection().len(),
            r.target_state_id == self.target(),
            r.session_errors == count_severity(self.diagnostics_spec(), DiagnosticSeverity::Error),
            r.session_warnings == count_severity(self.diagnostics_spec(), DiagnosticSeverity::Warning),
            r.active_states == self.active().len(),
            r.created_states == self.created_states().len(),
            r.removed_states == self.removed().len(),
            r.reserved_state_ids == self.reserved().len(),
    {
        let items = set_items(&self.valid_state_ids);
        let mut created: BTreeSet<u32> = BTreeSet::new();
        let mut i: usize = 0;
        while i < items.len()
            invariant
                i <= items@.len(),
                items@.to_set() == self.valid_state_ids@,
                created@ == Set::new(|s: u32| items@.take(i as int).contains(s) && self.origins_by_state@.contains_key(s)
                    && self.origins_by_state@[s] == WorkingStateOrigin::CreatedInSession),
            decreases items@.len() - i,
        {
            let s = items[i];
            let is_created = match self.origins_by_state.get(&s) {
                Some(WorkingStateOrigin::CreatedInSession) => true,
                _ => false,
            };
            if is_created {
                created.insert(s);
            }
            proof {
                let x = items@.take(i as int);
                let y = items@.take(i + 1);
                assert forall|q: u32| y.contains(q) <==> x.contains(q) || q == s by {
                    if y.contains(q) {
                        let k = choose|k: int| 0 <= k < y.len() && y[k] == q;
                        if k < i {
                            assert(x[k] == q);
                        }
                    }
                    if x.contains(q) {
                        let k = choose|k: int| 0 <= k < x.len() && x[k] == q;
                        assert(y[k] == q);
                    }
                    if q == s {
                        assert(y[i as int] == s);
                    }
                }
                assert(created@ =~= Set::new(|q: u32| y.contains(q) && self.origins_by_state@.contains_key(q)
                    && self.origins_by_state@[q] == WorkingStateOrigin::CreatedInSession));
            }
            i = i + 1;
        }
        proof {
            assert(items@.take(items@.len() as int) =~= items@);
            assert forall|q: u32| #[trigger] created@.contains(q) <==> self.created_states().contains(q) by {
                if self.valid_state_ids@.contains(q) {
                    assert(items@.to_set().contains(q));
                }
                if items@.contains(q) {
                    assert(items@.to_set().contains(q));
                }
            }
            assert(created@ =~= self.created_states());
        }
        StateEditSummary {
            assigned_provinces: self.working.state_by_province.len(),
            unassigned_land_provinces: self.working.unassigned_land_provinces.len(),
            commands: self.undo_stack.len(),
            redo_commands: self.redo_stack.len(),
            modified_states: self.dirty_state_ids.len(),
            selected_provinces: self.selected_provinces.len(),
            target_state_id: self.target_state_id,
            session_errors: count_with_severity(&self.session_diagnostics, DiagnosticSeverity::Error),
            session_warnings: count_with_severity(&self.session_diagnostics, DiagnosticSeverity::Warning),
            active_states: self.valid_state_ids.len(),
            created_states: created.len(),
            removed_states: self.removed_state_ids.len(),
            reserved_state_ids: self.reserved_state_ids().len(),
        }
    }

    /// Where the selected provinces come from: how many are unassigned and
    /// how many belong to each state, listing only sources that occur.
    pub fn selection_sources(&self) -> (r: Vec<(Option<u32>, usize)>)
        ensures
            forall|i: int| 0 <= i < r@.len() ==> (#[trigger] r@[i]).1 == self.selected_from(r@[i].0).len()
                && r@[i].1 > 0,
            forall|i: int, j: int| 0 <= i < j < r@.len() ==> r@[i].0 != r@[j].0,
            forall|k: Option<u32>| #[trigger] self.selected_from(k) != Set::<u32>::empty()
                ==> exists|i: int| 0 <= i < r@.len() && r@[i].0 == k,
    {
        let items = set_items(&self.selected_provinces);
        let mut unassigned: BTreeSet<u32> = BTreeSet::new();
        let mut groups: BTreeMap<u32, BTreeSet<u32>> = BTreeMap::new();
        let mut i: usize = 0;
        while i < items.len()
            invariant
                i <= items@.len(),
                items@.to_set() == self.selected_provinces@,
                unassigned@ == Set::new(|p: u32| items@.take(i as int).contains(p) && opt_get(self.working.state_by_province@, p) is None),
                forall|s: u32| #[trigger] groups@.contains_key(s) ==> groups@[s]@ == Set::new(|p: u32| items@.take(i as int).contains(p)
                    && opt_get(self.working.state_by_province@, p) == Some(s)),
                forall|s: u32| #[trigger] groups@.contains_key(s) <==> exists|p: u32| items@.take(i as int).contains(p)
                    && opt_get(self.working.state_by_province@, p) == Some(s),
            decreases items@.len() - i,
        {
            let p = items[i];
            let ghost x = items@.take(i as int);
            let ghost y = items@.take(i + 1);
            proof {
                assert forall|q: u32| y.contains(q) <==> x.contains(q) || q == p by {
                    if y.contains(q) {
                        let k = choose|k: int| 0 <= k < y.len() && y[k] == q;
                        if k < i {
                            assert(x[k] == q);
                        }
                    }
                    if x.contains(q) {
                        let k = choose|k: int| 0 <= k < x.len() && x[k] == q;
                        assert(y[k] == q);
                    }
                    if q == p {
                        assert(y[i as int] == p);
                    }
                }
            }
            let ghost before = groups@;
            match self.province_state_id(p) {
                None => {
                    unassigned.insert(p);
                },
                Some(s) => {
                    let mut group = match groups.remove(&s) {
                        Some(g) => g,
                        None => BTreeSet::new(),
                    };
                    group.insert(p);
                    groups.insert(s, group);
                },
            }
            proof {
                assert(unassigned@ =~= Set::new(|q: u32| y.contains(q) && opt_get(self.working.state_by_province@, q) is None));
                assert forall|s: u32| #[trigger] groups@.contains_key(s) implies groups@[s]@ == Set::new(|q: u32| y.contains(q)
                    && opt_get(self.working.state_by_province@, q) == Some(s)) by {
                    if before.contains_key(s) {
                        assert(before[s]@ == Set::new(|q: u32| x.contains(q) && opt_get(self.working.state_by_province@, q) == Some(s)));
                    } else if opt_get(self.working.state_by_province@, p) == Some(s) {
                        assert forall|q: u32| !(x.contains(q) && opt_get(self.working.state_by_province@, q) == Some(s)) by {
                            if x.contains(q) && opt_get(self.working.state_by_province@, q) == Some(s) {
                                assert(before.contains_key(s));
                            }
                        }
                    }
                    assert(groups@[s]@ =~= Set::new(|q: u32| y.contains(q) && opt_get(self.working.state_by_province@, q) == Some(s)));
                }
                assert forall|s: u32| #[trigger] groups@.contains_key(s) <==> exists|q: u32| y.contains(q)
                    && opt_get(self.working.state_by_province@, q) == Some(s) by {
                    if groups@.contains_key(s) && !before.contains_key(s) {
                        assert(y.contains(p) && opt_get(self.working.state_by_province@, p) == Some(s));
                    }
                    if exists|q: u32| y.contains(q) && opt_get(self.working.state_by_province@, q) == Some(s) {
                        let q = choose|q: u32| y.contains(q) && opt_get(self.working.state_by_province@, q) == Some(s);
                        if q != p {
                            assert(x.contains(q));
                        }
                    }
                }
            }
            i = i + 1;
        }
        proof {
            assert(items@.take(items@.len() as int) =~= items@);
            assert forall|q: u32| items@.contains(q) <==> self.selected_provinces@.contains(q) by {
                if self.selected_provinces@.contains(q) {
                    assert(items@.to_set().contains(q));
                }
                if items@.contains(q) {
                    assert(items@.to_set().contains(q));
                }
            }
            assert(unassigned@ =~= self.selected_from(None));
            assert forall|s: u32| #[trigger] groups@.contains_key(s) implies groups@[s]@ == self.selected_from(Some(s)) by {
                assert(groups@[s]@ =~= self.selected_from(Some(s)));
            }
        }
        proof {
            vstd::seq_lib::seq_to_set_is_finite(items@);
            assert forall|k: Option<u32>| #[trigger] self.selected_from(k).finite()
                && (self.selected_from(k) != Set::<u32>::empty() ==> self.selected_from(k).len() > 0) by {
                vstd::set_lib::lemma_set_subset_finite(items@.to_set(), self.selected_from(k));
                vstd::set_lib::lemma_set_empty_equivalency_len(self.selected_from(k));
            }
            assert forall|t: u32| #[trigger] groups@.contains_key(t) <==> self.selected_from(Some(t)) != Set::<u32>::empty() by {
                if groups@.contains_key(t) {
                    let q = choose|q: u32| items@.contains(q) && opt_get(self.working.state_by_province@, q) == Some(t);
                    assert(self.selected_from(Some(t)).contains(q));
                }
                if self.selected_from(Some(t)) != Set::<u32>::empty() {
                    vstd::set_lib::lemma_set_empty_equivalency_len(self.selected_from(Some(t)));
                    let q = choose|q: u32| self.selected_from(Some(t)).contains(q);
                    assert(items@.contains(q));
                }
            }
        }
        let mut out: Vec<(Option<u32>, usize)> = Vec::new();
        if unassigned.len() > 0 {
            out.push((None, unassigned.len()));
        }
        let states = map_keys(&groups);
        let mut j: usize = 0;
        while j < states.len()
            invariant
                j <= states@.len(),
                states@.to_set() == groups@.dom(),
                states@.no_duplicates(),
                forall|s: u32| #[trigger] groups@.contains_key(s) ==> groups@[s]@ == self.selected_from(Some(s)),
                forall|s: u32| #[trigger] groups@.contains_key(s) <==> self.selected_from(Some(s)) != Set::<u32>::empty(),
                unassigned@ == self.selected_from(None),
                out@.len() == j + (if unassigned@.len() > 0 { 1int } else { 0int }),
                unassigned@.len() > 0 ==> out@[0].0 == None::<u32> && out@[0].1 == unassigned@.len(),
                forall|k: int| 0 <= k < j ==> out@[k + (if unassigned@.len() > 0 { 1int } else { 0int })].0 == Some(#[trigger] states@[k])
                    && out@[k + (if unassigned@.len() > 0 { 1int } else { 0int })].1 == groups@[states@[k]]@.len(),
            decreases states@.len() - j,
        {
            let s = states[j];
            proof {
                assert(states@.to_set().contains(s));
            }
            let group = groups.get(&s).unwrap();
            out.push((Some(s), group.len()));
            j = j + 1;
        }
        proof {
            let off: int = if unassigned@.len() > 0 { 1int } else { 0int };
            assert forall|i: int| 0 <= i < out@.len() implies (#[trigger] out@[i]).1 == self.selected_from(out@[i].0).len()
                && out@[i].1 > 0 by {
                if i < off {
                    assert(self.selected_from(None).finite());
                    assert(out@[i].0 == None::<u32>);
                    assert(unassigned@.len() > 0);
                } else {
                    let k = i - off;
                    assert(out@[k + off].0 == Some(states@[k]));
                    let s = states@[k];
                    assert(states@.to_set().contains(s));
                    assert(groups@.contains_key(s));
                    assert(self.selected_from(Some(s)).finite());
                }
            }
            assert forall|a: int, b: int| 0 <= a < b < out@.len() implies out@[a].0 != out@[b].0 by {
                let kb = b - off;
                assert(out@[kb + off].0 == Some(states@[kb]));
                if a >= off {
                    let ka = a - off;
                    assert(out@[ka + off].0 == Some(states@[ka]));
                    assert(states@[ka] != states@[kb]);
                } else {
                    assert(out@[a].0 == None::<u32>);
                }
            }
            assert forall|k: Option<u32>| #[trigger] self.selected_from(k) != Set::<u32>::empty()
                implies exists|i: int| 0 <= i < out@.len() && out@[i].0 == k by {
                match k {
                    None => {
                        assert(self.selected_from(None).finite());
                        assert(out@[0].0 == k);
                    },
                    Some(s) => {
                        assert(groups@.contains_key(s));
                        assert(states@.to_set().contains(s));
                        let x = choose|x: int| 0 <= x < states@.len() && states@[x] == s;
                        assert(out@[x + off].0 == Some(states@[x]));
                    },
                }
            }
        }
        out
    }
}

} // verus!
