use hoi4_editor::id_assignment::{assign_province_ids, IdAssignmentError};
use hoi4_editor::province_id_index::{ProvinceIdIndex, ProvinceIdIndexError};

fn index(pairs: &[(u32, [u8; 3])]) -> ProvinceIdIndex {
    ProvinceIdIndex::from_pairs(pairs.to_vec()).unwrap()
}

#[test]
fn indexed_ids_stay_and_new_colors_take_the_next_ids_in_color_order() {
    let index = index(&[(1, [10, 0, 0]), (7, [0, 20, 0])]);
    let colors = vec![[10, 0, 0], [5, 5, 5], [0, 20, 0], [1, 0, 0], [5, 5, 5]];
    let (table, changes) = assign_province_ids(&index, &colors).unwrap();
    assert_eq!(
        table,
        vec![(1, [10, 0, 0]), (7, [0, 20, 0]), (8, [1, 0, 0]), (9, [5, 5, 5])]
    );
    assert_eq!(changes, vec![8, 9]);
    let (unchanged, none) = assign_province_ids(&index, &vec![[0, 20, 0], [10, 0, 0]]).unwrap();
    assert_eq!(unchanged, vec![(1, [10, 0, 0]), (7, [0, 20, 0])]);
    assert!(none.is_empty());
}

#[test]
fn an_indexed_color_missing_from_the_map_is_refused() {
    let index = index(&[(1, [10, 0, 0]), (7, [0, 20, 0]), (9, [0, 0, 9])]);
    let error = assign_province_ids(&index, &vec![[10, 0, 0]]).unwrap_err();
    assert_eq!(error, IdAssignmentError::ColorMissingFromMap(7));
    assert_eq!(error.message(), "province ID 7 refers to a color missing from the map");
}

#[test]
fn high_sparse_ids_do_not_create_gap_records_and_overflow_is_an_error() {
    let sparse = index(&[(1, [10, 20, 30]), (10_000, [30, 20, 30])]);
    let (definitions, _) = assign_province_ids(&sparse, &vec![[10, 20, 30], [30, 20, 30]]).unwrap();
    assert_eq!(definitions.len(), 2);
    assert_eq!(definitions.iter().map(|(id, _)| *id).collect::<Vec<_>>(), vec![1, 10_000]);

    let exhausted = index(&[(1, [10, 20, 30]), (u32::MAX, [30, 20, 30])]);
    let error = assign_province_ids(&exhausted, &vec![[10, 20, 30], [30, 20, 30], [1, 2, 3]]).unwrap_err();
    assert!(error.message().contains("u32::MAX"));
    assert_eq!(error, IdAssignmentError::Allocation(ProvinceIdIndexError::AllocationOverflow));
}

#[test]
fn new_ids_stop_at_the_last_id() {
    let high = index(&[(u32::MAX - 1, [1, 1, 1])]);
    let (table, changes) = assign_province_ids(&high, &vec![[1, 1, 1], [2, 2, 2]]).unwrap();
    assert_eq!(table, vec![(u32::MAX - 1, [1, 1, 1]), (u32::MAX, [2, 2, 2])]);
    assert_eq!(changes, vec![u32::MAX]);
    let error = assign_province_ids(&high, &vec![[1, 1, 1], [2, 2, 2], [3, 3, 3]]).unwrap_err();
    assert_eq!(error.message(), "no province ID is available after u32::MAX");
}
