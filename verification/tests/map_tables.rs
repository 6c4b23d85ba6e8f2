use hoi4_editor::map_construction::{adjacency_endpoints, construct_province_table, MapLoadError};
use hoi4_editor::province_id_index::ProvinceIdIndexError;

fn definitions() -> Vec<(u32, [u8; 3])> {
    vec![(1, [10, 0, 0]), (2, [0, 20, 0]), (3, [0, 0, 30])]
}

fn pixels() -> Vec<[u8; 3]> {
    vec![[10, 0, 0], [10, 0, 0], [0, 0, 30], [5, 5, 5]]
}

#[test]
fn loaded_provinces_are_the_definitions_on_the_map() {
    let table = construct_province_table(&definitions(), &pixels()).unwrap();
    assert_eq!(table.definitions.len(), 3);
    assert_eq!(table.loaded.ids(), vec![1, 3]);
    assert_eq!(table.loaded.color_for_id(3), Some([0, 0, 30]));
    assert_eq!(table.loaded.color_for_id(2), None);
    assert_eq!(table.pixel_counts.get(&[10, 0, 0]), Some(&2));
    assert_eq!(table.pixel_counts.get(&[0, 0, 30]), Some(&1));
    assert_eq!(table.pixel_counts.get(&[5, 5, 5]), Some(&1));
    assert_eq!(table.pixel_counts.len(), 3);
}

#[test]
fn adjacency_endpoints_need_both_loaded_provinces() {
    let table = construct_province_table(&definitions(), &pixels()).unwrap();
    assert_eq!(adjacency_endpoints(&table.loaded, 1, 3), Some(([10, 0, 0], [0, 0, 30])));
    assert_eq!(adjacency_endpoints(&table.loaded, 1, 2), None);
}

#[test]
fn definition_records_are_checked_first() {
    let empty = construct_province_table(&Vec::new(), &pixels()).err().unwrap();
    assert_eq!(empty, MapLoadError::NoRecords);
    assert_eq!(empty.message(), "definition.csv contains no province records");
    let duplicate = construct_province_table(&vec![(1, [1, 1, 1]), (1, [2, 2, 2])], &pixels()).err().unwrap();
    assert_eq!(duplicate, MapLoadError::Definitions(ProvinceIdIndexError::DuplicateId(1)));
    assert_eq!(duplicate.message(), "definition.csv duplicate province ID 1");
    assert_eq!(
        MapLoadError::TooManyRecords.message(),
        "definition.csv contains too many province records"
    );
}

#[test]
fn sparse_definition_ids_load_with_their_exact_external_identity() {
    let colors = [[10, 20, 30], [40, 50, 60], [70, 80, 90], [100, 110, 120]];
    let definitions: Vec<(u32, [u8; 3])> = [1u32, 7, 42, 500].into_iter().zip(colors).collect();
    let table = construct_province_table(&definitions, &colors.to_vec()).unwrap();
    assert_eq!(table.pixel_counts.len(), 4);
    assert_eq!(table.loaded.max_id(), Some(500));
    assert_eq!(table.loaded.ids(), vec![1, 7, 42, 500]);
    assert!(!table.loaded.contains_id(2));
}

#[test]
fn empty_definition_table_returns_error_instead_of_panicking() {
    assert!(construct_province_table(&Vec::new(), &vec![[0, 0, 0]]).is_err());
}
