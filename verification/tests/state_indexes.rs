use std::collections::BTreeSet;

use hoi4_editor::diagnostics::{DiagnosticSeverity, ProjectDiagnosticKind};
use hoi4_editor::indexes::{index_state_documents, ParsedState, StateDocument, StateIndexes};

fn document(path: &str, data: ParsedState) -> StateDocument {
    StateDocument { path: path.to_owned(), data: Some(data), diagnostics: Vec::new() }
}

fn state(id: u32, provinces: &[u32]) -> ParsedState {
    ParsedState { id: Some(id), provinces: provinces.to_vec() }
}

fn ids(values: &[u32]) -> BTreeSet<u32> {
    values.iter().copied().collect()
}

fn kinds(indexes: &StateIndexes) -> Vec<ProjectDiagnosticKind> {
    indexes.diagnostics.iter().map(|diagnostic| diagnostic.kind).collect()
}

#[test]
fn first_valid_state_id_wins_and_duplicate_is_not_indexed() {
    let documents = vec![
        document("first.txt", state(1, &[10])),
        document("duplicate.txt", state(1, &[11])),
        document("second.txt", state(2, &[12])),
    ];

    let indexes = index_state_documents(&documents, &ids(&[10, 11, 12]), &BTreeSet::new());

    assert_eq!(indexes.states_by_id.get(&1), Some(&0));
    assert_eq!(indexes.states_by_id.get(&2), Some(&2));
    assert_eq!(indexes.state_by_province.get(&10), Some(&1));
    assert_eq!(indexes.state_by_province.get(&11), None);
    assert_eq!(indexes.state_by_province.get(&12), Some(&2));
    assert!(kinds(&indexes).contains(&ProjectDiagnosticKind::DuplicateStateId));
}

#[test]
fn province_conflicts_keep_first_state_and_record_all_ambiguous_states() {
    let documents = vec![
        document("a.txt", state(1, &[10, 11])),
        document("b.txt", state(2, &[10])),
        document("c.txt", state(3, &[10])),
    ];

    let indexes = index_state_documents(&documents, &ids(&[10, 11]), &BTreeSet::new());

    assert_eq!(indexes.state_by_province.get(&10), Some(&1));
    assert_eq!(indexes.ambiguous_provinces.get(&10), Some(&vec![1, 2, 3]));
    assert_eq!(
        indexes
            .diagnostics
            .iter()
            .filter(|diagnostic| diagnostic.kind == ProjectDiagnosticKind::ProvinceInMultipleStates)
            .count(),
        2
    );
}

#[test]
fn sparse_province_values_are_valid_state_keys_without_dense_indexes() {
    let documents = vec![document("sparse.txt", state(1, &[1, 7, 42, 500]))];
    let valid = ids(&[1, 7, 42, 500]);
    let indexes = index_state_documents(&documents, &valid, &valid);

    for province_id in [1, 7, 42, 500] {
        assert_eq!(indexes.state_by_province.get(&province_id), Some(&1));
    }
    assert!(indexes.unassigned_land_provinces.is_empty());
    assert!(!kinds(&indexes).contains(&ProjectDiagnosticKind::UnknownProvince));
}

#[test]
fn unknown_and_zero_provinces_are_diagnosed_and_excluded() {
    let documents = vec![document("state.txt", state(1, &[0, 10, 99]))];

    let indexes = index_state_documents(&documents, &ids(&[10]), &BTreeSet::new());

    assert_eq!(indexes.state_by_province.get(&10), Some(&1));
    assert_eq!(indexes.state_by_province.get(&0), None);
    assert_eq!(indexes.state_by_province.get(&99), None);
    assert_eq!(
        indexes
            .diagnostics
            .iter()
            .filter(|diagnostic| diagnostic.kind == ProjectDiagnosticKind::UnknownProvince)
            .count(),
        2
    );
}

#[test]
fn land_without_state_is_warned_only_for_known_land() {
    let documents = vec![document("state.txt", state(1, &[10]))];

    let indexes = index_state_documents(&documents, &ids(&[10, 11]), &ids(&[10, 11, 99]));

    assert_eq!(indexes.land_without_state_count, 1);
    assert_eq!(indexes.unassigned_land_provinces, BTreeSet::from([11]));
    assert!(indexes.diagnostics.iter().any(|diagnostic| {
        diagnostic.kind == ProjectDiagnosticKind::LandProvinceWithoutState
            && diagnostic.severity == DiagnosticSeverity::Warning
            && diagnostic.message.contains("11")
    }));
}

#[test]
fn missing_and_zero_state_ids_are_counted_as_parsed_but_not_indexed() {
    let documents = vec![
        StateDocument {
            path: "missing.txt".to_owned(),
            data: Some(ParsedState { id: None, provinces: vec![10] }),
            diagnostics: Vec::new(),
        },
        document("zero.txt", state(0, &[10])),
        StateDocument { path: "unparsed.txt".to_owned(), data: None, diagnostics: Vec::new() },
    ];

    let indexes = index_state_documents(&documents, &ids(&[10]), &ids(&[10]));

    assert_eq!(indexes.document_count, 3);
    assert_eq!(indexes.parsed_state_count, 2);
    assert_eq!(indexes.indexed_state_count, 0);
    assert_eq!(indexes.indexed_province_count, 0);
    assert_eq!(
        kinds(&indexes),
        vec![
            ProjectDiagnosticKind::MissingStateId,
            ProjectDiagnosticKind::ZeroStateId,
            ProjectDiagnosticKind::LandProvinceWithoutState,
        ]
    );
    assert_eq!(indexes.diagnostics[0].path.as_deref(), Some("missing.txt"));
    assert_eq!(indexes.diagnostics[2].message, "land province 10 is not assigned to any state");
}

#[test]
fn duplicate_state_id_names_the_first_document() {
    let documents = vec![document("first.txt", state(4, &[])), document("again.txt", state(4, &[]))];

    let indexes = index_state_documents(&documents, &ids(&[]), &ids(&[]));

    assert_eq!(indexes.diagnostics.len(), 1);
    assert_eq!(indexes.diagnostics[0].message, "state id 4 is already used");
    assert_eq!(indexes.diagnostics[0].path.as_deref(), Some("again.txt"));
    assert_eq!(indexes.diagnostics[0].related_path.as_deref(), Some("first.txt"));
    assert_eq!(indexes.ambiguous_province_count, 0);
}
