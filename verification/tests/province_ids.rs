use hoi4_editor::province_id_index::{ProvinceIdIndex, ProvinceIdIndexError};

#[test]
fn indexes_contiguous_sparse_and_high_ids_bidirectionally() {
    let index = ProvinceIdIndex::from_pairs(vec![
        (42, [4, 2, 0]),
        (1, [1, 0, 0]),
        (500, [5, 0, 0]),
        (7, [0, 7, 0]),
    ])
    .unwrap();

    assert_eq!(index.province_count(), 4);
    assert_eq!(index.min_province_id(), Some(1));
    assert_eq!(index.max_province_id(), Some(500));
    assert!(index.contains_id(42));
    assert_eq!(index.color_for_id(7), Some([0, 7, 0]));
    assert_eq!(index.id_for_color([5, 0, 0]), Some(500));
    assert!(!index.is_contiguous_from_one());
}

#[test]
fn iterates_pairs_in_ascending_id_order() {
    let index =
        ProvinceIdIndex::from_pairs(vec![(3, [3, 0, 0]), (1, [1, 0, 0]), (2, [2, 0, 0])]).unwrap();
    assert_eq!(index.iter(), vec![(1, [1, 0, 0]), (2, [2, 0, 0]), (3, [3, 0, 0])]);
    assert!(index.is_contiguous_from_one());
}

#[test]
fn empty_index_has_no_bounds_and_allocates_one() {
    let index = ProvinceIdIndex::default();
    assert!(index.is_empty());
    assert_eq!(index.province_count(), 0);
    assert_eq!(index.min_province_id(), None);
    assert_eq!(index.max_province_id(), None);
    assert_eq!(index.next_allocatable_id(), Ok(1));
}

#[test]
fn supports_high_ids_without_using_them_as_dense_indexes() {
    let index = ProvinceIdIndex::from_pairs(vec![(1, [1, 0, 0]), (10_000, [0, 1, 0])]).unwrap();
    assert_eq!(index.province_count(), 2);
    assert_eq!(index.max_province_id(), Some(10_000));
    assert_eq!(index.next_allocatable_id(), Ok(10_001));
}

#[test]
fn rejects_duplicate_ids_and_colors() {
    assert_eq!(
        ProvinceIdIndex::from_pairs(vec![(0, [1, 0, 0])]),
        Err(ProvinceIdIndexError::InvalidIdZero)
    );
    assert_eq!(
        ProvinceIdIndex::from_pairs(vec![(1, [1, 0, 0]), (1, [2, 0, 0])]),
        Err(ProvinceIdIndexError::DuplicateId(1))
    );
    assert_eq!(
        ProvinceIdIndex::from_pairs(vec![(1, [1, 0, 0]), (2, [1, 0, 0])]),
        Err(ProvinceIdIndexError::DuplicateColor([1, 0, 0]))
    );
}

#[test]
fn next_allocation_uses_maximum_and_reports_overflow() {
    let index = ProvinceIdIndex::from_pairs(vec![(7, [7, 0, 0]), (42, [4, 2, 0])]).unwrap();
    assert_eq!(index.next_allocatable_id(), Ok(43));

    let exhausted = ProvinceIdIndex::from_pairs(vec![(u32::MAX, [1, 2, 3])]).unwrap();
    assert_eq!(exhausted.next_allocatable_id(), Err(ProvinceIdIndexError::AllocationOverflow));
}

#[test]
fn refused_insert_leaves_the_index_unchanged() {
    let mut index = ProvinceIdIndex::from_pairs(vec![(5, [9, 9, 9])]).unwrap();
    assert_eq!(index.insert(6, [9, 9, 9]), Err(ProvinceIdIndexError::DuplicateColor([9, 9, 9])));
    assert_eq!(index.insert(5, [1, 1, 1]), Err(ProvinceIdIndexError::DuplicateId(5)));
    assert_eq!(index.insert(0, [1, 1, 1]), Err(ProvinceIdIndexError::InvalidIdZero));
    assert_eq!(index.ids(), vec![5]);
    assert_eq!(index.insert(6, [1, 1, 1]), Ok(()));
    assert_eq!(index.ids(), vec![5, 6]);
    assert_eq!(index.id_for_color([1, 1, 1]), Some(6));
}

#[test]
fn removing_and_rekeying_colors_keeps_both_directions() {
    let mut index =
        ProvinceIdIndex::from_pairs(vec![(1, [1, 0, 0]), (2, [2, 0, 0]), (3, [3, 0, 0])]).unwrap();
    index.remove_color([2, 0, 0]);
    assert_eq!(index.ids(), vec![1, 3]);
    assert_eq!(index.id_for_color([2, 0, 0]), None);
    index.remove_color([8, 8, 8]);
    assert_eq!(index.len(), 2);

    index.rekey_color([3, 0, 0], [7, 7, 7]);
    assert_eq!(index.color_for_id(3), Some([7, 7, 7]));
    assert_eq!(index.id_for_color([7, 7, 7]), Some(3));
    assert_eq!(index.id_for_color([3, 0, 0]), None);
    index.rekey_color([7, 7, 7], [3, 0, 0]);
    assert_eq!(
        index,
        ProvinceIdIndex::from_pairs(vec![(1, [1, 0, 0]), (3, [3, 0, 0])]).unwrap()
    );
    assert!(!index.is_contiguous_from_one());
}

#[test]
fn errors_read_as_sentences() {
    assert_eq!(ProvinceIdIndexError::InvalidIdZero.message(), "province ID 0 is reserved");
    assert_eq!(ProvinceIdIndexError::DuplicateId(17).message(), "duplicate province ID 17");
    assert_eq!(
        ProvinceIdIndexError::DuplicateColor([255, 0, 12]).message(),
        "duplicate province color [255, 0, 12]"
    );
    assert_eq!(
        ProvinceIdIndexError::AllocationOverflow.message(),
        "no province ID is available after u32::MAX"
    );
}

#[test]
fn empty_index_counts_as_contiguous() {
    let index = ProvinceIdIndex::new();
    assert!(index.is_contiguous_from_one());
    assert_eq!(index.iter(), Vec::new());
}
