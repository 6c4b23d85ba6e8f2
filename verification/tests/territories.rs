use std::collections::BTreeSet;

use hoi4_editor::territory::{TerritoryAnchorIndex, TerritoryProvince};

fn land(id: u32, pixel_count: u64) -> TerritoryProvince {
    TerritoryProvince { id, is_land: true, pixel_count }
}

fn ids(values: &[u32]) -> BTreeSet<u32> {
    values.iter().copied().collect()
}

#[test]
fn territory_is_the_largest_connected_landmass() {
    let index = TerritoryAnchorIndex::new(&vec![land(1, 90), land(2, 80), land(3, 5)], &vec![(1, 2)]);
    let territory = index.territory(&ids(&[1, 2, 3])).unwrap();
    assert_eq!(territory.provinces, ids(&[1, 2]));
    assert_eq!(territory.pixels, 170);
}

#[test]
fn sea_provinces_give_no_territory() {
    let index = TerritoryAnchorIndex::new(
        &vec![TerritoryProvince { id: 1, is_land: false, pixel_count: 20 }],
        &vec![],
    );
    assert!(index.territory(&ids(&[1])).is_none());
    assert!(index.territory(&ids(&[])).is_none());
    assert!(index.territory(&ids(&[9])).is_none());
}

#[test]
fn parts_are_joined_only_through_owned_land() {
    let provinces = vec![
        land(1, 10),
        land(2, 10),
        land(3, 10),
        land(4, 50),
        land(5, 1),
        land(6, 5),
        TerritoryProvince { id: 7, is_land: false, pixel_count: 1000 },
    ];
    let pairs = vec![(1, 2), (2, 3), (4, 5), (5, 5), (3, 7), (7, 4)];
    let index = TerritoryAnchorIndex::new(&provinces, &pairs);
    let owned = ids(&[1, 2, 3, 4, 5, 6, 7]);
    assert_eq!(index.land_only(&owned), ids(&[1, 2, 3, 4, 5, 6]));
    let territory = index.territory(&owned).unwrap();
    assert_eq!(territory.provinces, ids(&[4, 5]));
    assert_eq!(territory.pixels, 51);
    assert_eq!(index.largest_component(&ids(&[1, 3, 6])), Some(ids(&[1])));
    assert_eq!(index.largest_component(&ids(&[2, 3, 6])), Some(ids(&[2, 3])));
}

#[test]
fn equal_parts_keep_the_one_with_the_smallest_id() {
    let index = TerritoryAnchorIndex::new(
        &vec![land(8, 7), land(3, 7), land(5, 7), land(6, 0)],
        &vec![(5, 6)],
    );
    assert_eq!(index.largest_component(&ids(&[8, 3, 5, 6])), Some(ids(&[3])));
    assert_eq!(index.pixels_of_set(&ids(&[5, 6, 99])), 7);
}

#[test]
fn a_later_province_entry_replaces_an_earlier_one() {
    let index = TerritoryAnchorIndex::new(&vec![land(1, 5), land(1, 40)], &vec![]);
    assert_eq!(index.pixels_of_set(&ids(&[1])), 40);
}
