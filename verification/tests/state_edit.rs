use std::collections::{BTreeMap, BTreeSet};

use hoi4_editor::diagnostics::{DiagnosticSeverity, ProjectDiagnostic, ProjectDiagnosticKind};
use hoi4_editor::edit::{
    document_structurally_valid, LoadedState, StateEditError, StateEditSession, StateEditSource, WorkingStateLifecycle,
};
use hoi4_editor::edit_model::{StateRemovalPolicy, WorkingStateOrigin};
use hoi4_editor::state::{
    BuildingLevel, Buildings, EditableProvinceData, EditableStateProperties, ProvinceKind, VictoryPoint,
};
use hoi4_editor::tools::{BrushProvinceClassification, LassoSelectionMode, StateBrushMode};

fn buildings(name: &str, level: i64) -> Buildings {
    Buildings { levels: vec![BuildingLevel { name: name.to_owned(), level }] }
}

fn loaded(id: u32) -> LoadedState {
    LoadedState {
        state_id: id,
        document_path: format!("{id}.txt"),
        properties: EditableStateProperties::default(),
        victory_points: Vec::new(),
        province_buildings: BTreeMap::new(),
        has_dated_history: false,
        structurally_valid: true,
    }
}

fn source() -> StateEditSource {
    let mut first = loaded(1);
    first.victory_points.push(VictoryPoint { province_id: 10, value: 5 });
    first.province_buildings.insert(11, buildings("bunker", 2));
    StateEditSource {
        province_kinds: BTreeMap::from([
            (10, ProvinceKind::Land),
            (11, ProvinceKind::Land),
            (12, ProvinceKind::Land),
            (20, ProvinceKind::Land),
            (30, ProvinceKind::Land),
            (40, ProvinceKind::Sea),
            (41, ProvinceKind::Lake),
        ]),
        state_by_province: BTreeMap::from([(10, 1), (11, 1), (12, 1), (30, 2)]),
        states: vec![first, loaded(2)],
        known_state_ids: BTreeSet::from([1, 2]),
        ambiguous_provinces: BTreeSet::new(),
    }
}

fn session() -> StateEditSession {
    StateEditSession::new(&source())
}

fn temporary_properties() -> EditableStateProperties {
    EditableStateProperties {
        name: Some("Temporary State".to_owned()),
        buildings_max_level_factor_bits: Some(1.0f64.to_bits()),
        local_supplies_bits: Some(0.0f64.to_bits()),
        ..Default::default()
    }
}

#[test]
fn state_edit_moves_one_province_atomically() {
    let mut edit = session();
    edit.reassign_provinces(&[10], Some(2)).unwrap();
    assert_eq!(edit.state_by_province().get(&10), Some(&2));
    assert!(!edit.state_data(1).unwrap().provinces.contains(&10));
    assert!(edit.state_data(2).unwrap().provinces.contains(&10));
    assert_eq!(edit.dirty_state_ids(), &BTreeSet::from([1, 2]));
    assert_eq!(edit.summary().commands, 1);
    edit.validate_invariants().unwrap();
}

#[test]
fn province_and_property_changes_share_one_ordered_history() {
    let mut edit = session();
    edit.reassign_provinces(&[10, 11, 12], Some(2)).unwrap();
    assert_eq!(edit.summary().commands, 1);
    assert_eq!(edit.last_command_description().as_deref(), Some("Reassigned 3 province(s)"));
    let mut properties = edit.state_data(2).unwrap().properties;
    properties.manpower = Some(150_000);
    assert!(edit.update_state_properties(2, properties).unwrap());
    assert_eq!(edit.summary().commands, 2);
    assert_eq!(edit.state_data(2).unwrap().properties.manpower, Some(150_000));

    assert!(edit.undo());
    assert_eq!(edit.state_data(2).unwrap().properties.manpower, None);
    assert_eq!(edit.state_by_province().get(&10), Some(&2));
    assert!(edit.undo());
    assert_eq!(edit.state_by_province().get(&10), Some(&1));
    assert!(edit.redo());
    assert!(edit.redo());
    assert_eq!(edit.state_data(2).unwrap().properties.manpower, Some(150_000));
}

#[test]
fn reassign_can_assign_unassigned_land_to_state() {
    let mut edit = session();
    assert!(edit.unassigned_land_provinces().contains(&20));
    edit.reassign_provinces(&[20], Some(2)).unwrap();
    assert_eq!(edit.state_by_province().get(&20), Some(&2));
    assert!(!edit.unassigned_land_provinces().contains(&20));
}

#[test]
fn reassign_can_unassign_land_from_state() {
    let mut edit = session();
    edit.reassign_provinces(&[10], None).unwrap();
    assert_eq!(edit.state_by_province().get(&10), None);
    assert!(edit.unassigned_land_provinces().contains(&10));
}

#[test]
fn reassign_noop_does_not_create_history() {
    let mut edit = session();
    edit.reassign_provinces(&[10], Some(1)).unwrap();
    assert!(!edit.can_undo());
    assert_eq!(edit.revision(), 0);
}

#[test]
fn reassign_failure_is_atomic() {
    let mut edit = session();
    let err = edit.reassign_provinces(&[10, 99999], Some(2)).unwrap_err();
    assert_eq!(err, StateEditError::ProvinceNotFound(99999));
    assert_eq!(edit.state_by_province().get(&10), Some(&1));
    assert!(!edit.can_undo());
    assert!(!edit.is_dirty());
}

#[test]
fn reassign_rejects_invalid_target() {
    let mut edit = session();
    assert_eq!(edit.reassign_provinces(&[10], Some(999)).unwrap_err(), StateEditError::TargetStateNotFound(999));
    assert_eq!(edit.state_by_province().get(&10), Some(&1));
}

#[test]
fn reassign_rejects_an_empty_selection() {
    let mut edit = session();
    assert_eq!(edit.reassign_provinces(&[], Some(2)).unwrap_err(), StateEditError::EmptySelection);
    assert_eq!(edit.unassign_selection().unwrap_err(), StateEditError::EmptySelection);
}

#[test]
fn province_selection_rejects_sea_lake_and_ambiguous() {
    let mut source = source();
    source.ambiguous_provinces.insert(12);
    let mut edit = StateEditSession::new(&source);
    assert_eq!(edit.toggle_selected_province(40).unwrap_err(), StateEditError::ProvinceIsNotLand(40));
    assert_eq!(edit.toggle_selected_province(41).unwrap_err(), StateEditError::ProvinceIsNotLand(41));
    assert_eq!(edit.toggle_selected_province(12).unwrap_err(), StateEditError::AmbiguousProvince(12));
}

#[test]
fn province_selection_toggles_and_target_stays_separate_without_dirtying() {
    let mut edit = session();
    assert!(edit.toggle_selected_province(10).unwrap());
    edit.set_target_state(Some(2)).unwrap();
    assert_eq!(edit.selected_provinces(), &BTreeSet::from([10]));
    assert_eq!(edit.target_state_id(), Some(2));
    assert!(!edit.is_dirty());
    assert!(!edit.can_undo());
    assert!(!edit.toggle_selected_province(10).unwrap());
}

#[test]
fn province_selection_can_select_all_land_in_target_state() {
    let mut edit = session();
    edit.set_target_state(Some(1)).unwrap();
    assert_eq!(edit.select_target_state_provinces().unwrap(), 3);
    assert_eq!(edit.selected_provinces(), &BTreeSet::from([10, 11, 12]));
    assert_eq!(edit.target_state_id(), Some(1));
    assert!(!edit.is_dirty());
}

#[test]
fn selection_moves_to_target_and_reports_sources() {
    let mut edit = session();
    assert_eq!(edit.apply_lasso_selection(&BTreeSet::from([10, 20, 30]), LassoSelectionMode::Replace).unwrap(), 3);
    assert_eq!(edit.selection_sources(), vec![(None, 1), (Some(1), 1), (Some(2), 1)]);
    assert!(!edit.can_move_selection_to_target());
    edit.set_target_state(Some(2)).unwrap();
    assert!(edit.can_move_selection_to_target());
    edit.move_selection_to_target().unwrap();
    assert_eq!(edit.province_state_id(10), Some(2));
    assert_eq!(edit.province_state_id(20), Some(2));
    assert_eq!(edit.apply_lasso_selection(&BTreeSet::from([30]), LassoSelectionMode::Remove).unwrap(), 2);
    assert_eq!(edit.apply_lasso_selection(&BTreeSet::from([40]), LassoSelectionMode::Add).unwrap_err(), StateEditError::ProvinceIsNotLand(40));
    assert!(edit.clear_selected_provinces());
    assert!(!edit.clear_selected_provinces());
}

#[test]
fn state_edit_moves_victory_points_and_undo_restores_them() {
    let mut edit = session();
    edit.reassign_provinces(&[10], Some(2)).unwrap();
    assert!(edit.state_data(1).unwrap().victory_points.is_empty());
    assert_eq!(edit.state_data(2).unwrap().victory_points, vec![VictoryPoint { province_id: 10, value: 5 }]);
    assert!(edit.undo());
    assert_eq!(edit.state_data(1).unwrap().victory_points, vec![VictoryPoint { province_id: 10, value: 5 }]);
}

#[test]
fn state_edit_moves_province_buildings_and_undo_restores_them() {
    let mut edit = session();
    edit.reassign_provinces(&[11], Some(2)).unwrap();
    assert!(!edit.state_data(1).unwrap().province_buildings.contains_key(&11));
    assert_eq!(edit.state_data(2).unwrap().province_buildings[&11].get("bunker"), Some(2));
    assert!(edit.undo());
    assert_eq!(edit.state_data(1).unwrap().province_buildings[&11].get("bunker"), Some(2));
}

#[test]
fn state_edit_conflicting_provincial_data_blocks_whole_command() {
    let mut source = source();
    source.states[1].province_buildings.insert(11, buildings("dockyard", 1));
    let mut edit = StateEditSession::new(&source);
    assert_eq!(
        edit.reassign_provinces(&[10, 11], Some(2)).unwrap_err(),
        StateEditError::ProvincialDataConflict { province_id: 11, target_state_id: 2 }
    );
    assert_eq!(edit.province_state_id(10), Some(1));
    assert!(!edit.can_undo());
}

#[test]
fn state_brush_classifies_samples_and_reuses_atomic_reassign() {
    let mut source = source();
    source.ambiguous_provinces.insert(12);
    source.state_by_province.insert(20, 99);
    let edit = StateEditSession::new(&source);
    let preview_commands = edit.summary().commands;
    assert_eq!(edit.classify_brush_province(10, StateBrushMode::AssignToTarget, Some(2)), BrushProvinceClassification::Selectable);
    assert_eq!(edit.classify_brush_province(30, StateBrushMode::AssignToTarget, Some(2)), BrushProvinceClassification::NoOp);
    assert_eq!(edit.classify_brush_province(40, StateBrushMode::AssignToTarget, Some(2)), BrushProvinceClassification::IgnoredNonLand);
    assert_eq!(edit.classify_brush_province(0, StateBrushMode::AssignToTarget, Some(2)), BrushProvinceClassification::IgnoredNonLand);
    assert_eq!(edit.classify_brush_province(12, StateBrushMode::AssignToTarget, Some(2)), BrushProvinceClassification::BlockedAmbiguous);
    assert_eq!(edit.classify_brush_province(20, StateBrushMode::AssignToTarget, Some(2)), BrushProvinceClassification::BlockedInvalidState);
    assert_eq!(edit.classify_brush_province(999, StateBrushMode::AssignToTarget, Some(2)), BrushProvinceClassification::Unknown);
    assert_eq!(edit.classify_brush_province(10, StateBrushMode::Unassign, None), BrushProvinceClassification::Selectable);
    assert!(edit.validate_brush_target(StateBrushMode::AssignToTarget, None).is_err());
    assert_eq!(edit.validate_brush_target(StateBrushMode::Unassign, None), Ok(None));
    assert_eq!(edit.summary().commands, preview_commands);

    let mut edit = session();
    edit.create_state(3, EditableStateProperties::default(), false).unwrap();
    assert_eq!(edit.validate_brush_target(StateBrushMode::AssignToTarget, Some(3)), Ok(Some(3)));
    edit.reassign_provinces(&[10, 11, 30], Some(3)).unwrap();
    assert_eq!(edit.summary().commands, 2);
    assert_eq!(edit.province_state_id(10), Some(3));
    assert_eq!(edit.province_data(10).unwrap().victory_point, Some(5));
    assert_eq!(edit.province_data(11).unwrap().buildings.get("bunker"), Some(2));
    assert!(edit.undo());
    assert_eq!(edit.province_state_id(10), Some(1));
    assert!(edit.redo());
    assert_eq!(edit.province_state_id(10), Some(3));
}

#[test]
fn undo_redo_discard_and_edit_invariants_roundtrip() {
    let mut edit = session();
    let baseline = edit.state_by_province().clone();
    assert_eq!(edit.revision(), 0);
    edit.reassign_provinces(&[10, 11], Some(2)).unwrap();
    assert!(edit.undo());
    edit.validate_invariants().unwrap();
    assert_eq!(edit.state_by_province(), &baseline);
    assert!(!edit.is_dirty());
    assert!(edit.redo());
    edit.validate_invariants().unwrap();
    assert_ne!(edit.state_by_province(), &baseline);
    assert_eq!(edit.summary().commands, 1);
    assert!(edit.undo());
    edit.reassign_provinces(&[12], Some(2)).unwrap();
    assert!(!edit.can_redo());
    edit.discard();
    assert_eq!(edit.state_by_province(), &baseline);
    assert!(!edit.is_dirty());
    assert!(!edit.can_undo());
    assert!(!edit.can_redo());
    assert!(edit.dirty_state_ids().is_empty());
    assert!(edit.diagnostics().is_empty());
    assert_eq!(edit.revision(), 6);
}

#[test]
fn province_data_update_is_atomic_and_follows_reassignment() {
    let mut edit = session();
    let after = EditableProvinceData { victory_point: Some(10), buildings: buildings("custom_test_building", 2) };
    assert!(edit.update_province_data(10, 1, after.clone()).unwrap());
    assert_eq!(edit.summary().commands, 1);
    assert!(edit.take_last_changed_provinces().is_empty());
    assert_eq!(edit.province_data(10), Some(after.clone()));

    edit.reassign_provinces(&[10], Some(2)).unwrap();
    assert_eq!(edit.province_state_id(10), Some(2));
    assert_eq!(edit.province_data(10), Some(after.clone()));
    assert!(edit.undo());
    assert_eq!(edit.province_state_id(10), Some(1));
    assert_eq!(edit.province_data(10), Some(after.clone()));
    assert!(edit.undo());
    assert_eq!(edit.province_data(10).unwrap().victory_point, Some(5));
    assert!(edit.redo());
    assert!(edit.redo());
    assert_eq!(edit.province_data(10), Some(after.clone()));

    edit.reassign_provinces(&[10], None).unwrap();
    assert_eq!(edit.province_state_id(10), None);
    assert_eq!(edit.province_data(10), Some(after));
    assert!(edit.undo());
    assert_eq!(edit.province_state_id(10), Some(2));

    edit.discard();
    assert_eq!(edit.province_state_id(10), Some(1));
    assert_eq!(edit.province_data(10).unwrap().victory_point, Some(5));
    assert!(!edit.is_dirty());
    assert!(!edit.can_undo());
}

#[test]
fn province_data_update_rejects_bad_data_and_moved_provinces() {
    let mut edit = session();
    let negative = EditableProvinceData { victory_point: Some(-1), buildings: Buildings::default() };
    assert!(matches!(edit.update_province_data(10, 1, negative), Err(StateEditError::InvalidProvinceData(_))));
    let data = EditableProvinceData { victory_point: Some(1), buildings: Buildings::default() };
    assert_eq!(
        edit.update_province_data(10, 2, data.clone()),
        Err(StateEditError::ProvinceStateChanged { province_id: 10, expected_state_id: 2, actual_state_id: Some(1) })
    );
    assert_eq!(edit.update_province_data(20, 1, data), Err(StateEditError::ProvinceUnassigned(20)));
    assert!(!edit.can_undo());
}

#[test]
fn edit_history_new_command_after_undo_clears_redo() {
    let mut edit = session();
    edit.reassign_provinces(&[10], Some(2)).unwrap();
    assert!(edit.undo());
    assert!(edit.can_redo());
    edit.reassign_provinces(&[12], Some(2)).unwrap();
    assert!(!edit.can_redo());
    edit.validate_invariants().unwrap();
}

#[test]
fn state_lifecycle_create_remove_history_and_data_roundtrip() {
    let mut source = source();
    source.known_state_ids.insert(111);
    let mut edit = StateEditSession::new(&source);
    assert_eq!(edit.suggest_next_state_id(), 112);
    edit.toggle_selected_province(10).unwrap();
    let properties = temporary_properties();
    let before = edit.state_by_province().clone();
    assert_eq!(
        edit.create_state_with_provinces(113, properties.clone(), &[10, 99999]),
        Err(StateEditError::ProvinceNotFound(99999))
    );
    assert_eq!(edit.state_by_province(), &before);
    assert!(!edit.is_state_id_reserved(113));
    assert_eq!(edit.selected_provinces(), &BTreeSet::from([10]));

    edit.create_state(112, properties.clone(), true).unwrap();
    assert!(edit.is_state_active(112));
    assert!(edit.selected_provinces().is_empty());
    assert_eq!(edit.target_state_id(), Some(112));
    assert_eq!(edit.state_origin(112), Some(&WorkingStateOrigin::CreatedInSession));
    assert_eq!(edit.province_state_id(10), Some(112));
    assert_eq!(edit.province_data(10).unwrap().victory_point, Some(5));
    assert_eq!(edit.summary().commands, 1);
    assert_eq!(edit.summary().created_states, 1);
    assert!(edit.undo());
    assert!(!edit.is_state_active(112));
    assert!(edit.selected_provinces().is_empty());
    assert_eq!(edit.target_state_id(), None);
    assert_eq!(edit.validate_new_state_id(112), Err(StateEditError::StateIdReserved(112)));
    assert!(edit.redo());
    assert_eq!(edit.target_state_id(), Some(112));
    assert_eq!(edit.state_data(112).unwrap().properties.name.as_deref(), Some("Temporary State"));

    edit.remove_state(112, StateRemovalPolicy::MoveToState(1)).unwrap();
    assert_eq!(edit.state_lifecycle(112), Some(WorkingStateLifecycle::RemovedInSession));
    assert_eq!(edit.province_state_id(10), Some(1));
    assert_eq!(edit.province_data(10).unwrap().victory_point, Some(5));
    assert!(!edit.is_dirty());
    assert!(edit.undo());
    assert_eq!(edit.province_state_id(10), Some(112));
    assert_eq!(edit.province_data(10).unwrap().victory_point, Some(5));
    assert!(edit.redo());
    assert!(!edit.is_dirty());

    edit.discard();
    let baseline = edit.state_by_province().clone();
    edit.remove_state(1, StateRemovalPolicy::Unassign).unwrap();
    assert_eq!(edit.state_lifecycle(1), Some(WorkingStateLifecycle::RemovedInSession));
    assert_eq!(edit.province_state_id(10), None);
    assert_eq!(edit.province_data(10).unwrap().victory_point, Some(5));
    assert!(edit.undo());
    assert_eq!(edit.state_by_province(), &baseline);
    assert!(!edit.is_dirty());
    assert!(edit.redo());
    edit.discard();
    assert_eq!(edit.state_by_province(), &baseline);
    assert!(!edit.is_dirty());
    edit.validate_invariants().unwrap();

    let mut conflict_source = self::source();
    conflict_source.states[1].province_buildings.insert(11, buildings("dockyard", 1));
    let mut conflict = StateEditSession::new(&conflict_source);
    assert_eq!(
        conflict.remove_state(1, StateRemovalPolicy::MoveToState(2)),
        Err(StateEditError::ProvincialDataConflict { province_id: 11, target_state_id: 2 })
    );
    assert!(conflict.is_state_active(1));
    assert!(!conflict.can_undo());

    let mut reservation = session();
    reservation.create_state(3, properties.clone(), false).unwrap();
    assert!(reservation.undo());
    assert_eq!(reservation.validate_new_state_id(3), Err(StateEditError::StateIdReserved(3)));
    reservation.create_state(4, properties, false).unwrap();
    assert!(reservation.validate_new_state_id(3).is_ok());
}

#[test]
fn invalid_duplicate_like_target_is_rejected_as_invalid() {
    let mut source = source();
    source.states.push(loaded(2));
    let mut edit = StateEditSession::new(&source);
    assert!(!edit.is_state_active(2));
    assert_eq!(edit.reassign_provinces(&[10], Some(2)).unwrap_err(), StateEditError::TargetStateInvalid(2));
    assert_eq!(edit.state_by_province().get(&10), Some(&1));
}

#[test]
fn removing_a_state_twice_or_onto_itself_is_refused() {
    let mut edit = session();
    assert_eq!(edit.remove_state(1, StateRemovalPolicy::MoveToState(1)), Err(StateEditError::StateRemovalTargetMatches(1)));
    edit.remove_state(2, StateRemovalPolicy::Unassign).unwrap();
    assert_eq!(edit.remove_state(2, StateRemovalPolicy::Unassign), Err(StateEditError::StateAlreadyRemoved(2)));
    assert_eq!(edit.validate_state_removal(2, StateRemovalPolicy::Unassign), Err(StateEditError::StateAlreadyRemoved(2)));
    assert!(edit.unassigned_land_provinces().contains(&30));
}

#[test]
fn new_state_ids_exclude_zero_and_reserved_ids() {
    let edit = session();
    assert_eq!(edit.validate_new_state_id(0), Err(StateEditError::StateIdInvalid(0)));
    assert_eq!(edit.validate_new_state_id(2), Err(StateEditError::StateIdReserved(2)));
    assert_eq!(edit.validate_new_state_id(3), Ok(()));
    assert_eq!(edit.suggest_next_state_id(), 3);
    let empty = EditableStateProperties { name: Some(String::new()), ..Default::default() };
    assert!(matches!(edit.validate_state_creation(3, &empty, false), Err(StateEditError::InvalidStateProperties(_))));
}

#[test]
fn documents_with_errors_or_without_data_are_not_editable() {
    let warning = ProjectDiagnostic::new(
        ProjectDiagnosticKind::MissingStateName,
        DiagnosticSeverity::Warning,
        None,
        None,
        "no name".to_owned(),
    );
    let error = ProjectDiagnostic::new(
        ProjectDiagnosticKind::SyntaxError,
        DiagnosticSeverity::Error,
        None,
        None,
        "broken".to_owned(),
    );
    assert!(document_structurally_valid(true, &vec![warning.clone()]));
    assert!(!document_structurally_valid(true, &vec![warning, error]));
    assert!(!document_structurally_valid(false, &Vec::new()));
}

#[test]
fn a_new_session_holds_the_loaded_province_data() {
    let s = session();
    assert_eq!(s.province_data(10).unwrap().victory_point, Some(5));
    assert!(!s.province_data(11).unwrap().buildings.levels.is_empty());
}
