use std::collections::{BTreeMap, BTreeSet};

use hoi4_editor::lasso::{classify_lasso_hits, LassoHit};
use hoi4_editor::state::ProvinceKind;
use hoi4_editor::tools::{ProvinceInclusionMode, StateLassoError};

fn hit(province_id: u32, kind: ProvinceKind, total: u64, inside: u64, centroid: bool) -> LassoHit {
    LassoHit { province_id, kind, total_pixels: total, pixels_inside: inside, centroid_inside: centroid }
}

fn hits() -> Vec<LassoHit> {
    vec![
        hit(10, ProvinceKind::Land, 10, 6, true),
        hit(11, ProvinceKind::Land, 10, 5, false),
        hit(12, ProvinceKind::Land, 10, 1, true),
        hit(40, ProvinceKind::Sea, 10, 10, true),
        hit(20, ProvinceKind::Land, 10, 9, true),
        hit(30, ProvinceKind::Land, 10, 9, true),
    ]
}

#[test]
fn lasso_classifies_taken_in_provinces() {
    let selected = BTreeSet::from([10]);
    let state_by_province = BTreeMap::from([(10, 1), (11, 1), (12, 1), (30, 9)]);
    let ambiguous = BTreeSet::from([20]);
    let valid = BTreeSet::from([1]);
    let any = classify_lasso_hits(
        4, &hits(), ProvinceInclusionMode::AnyIntersection, &selected, &state_by_province, &ambiguous, &valid, 3, 60,
    )
    .unwrap();
    assert_eq!(any.selectable, BTreeSet::from([10, 11, 12]));
    assert_eq!(any.already_selected, BTreeSet::from([10]));
    assert_eq!(any.ambiguous, BTreeSet::from([20]));
    assert_eq!(any.invalid_state, BTreeSet::from([30]));
    assert_eq!(any.blocked, BTreeSet::from([20, 30]));
    assert_eq!(any.ignored_non_land, 1);
    assert_eq!((any.ignored_unknown_pixels, any.scanned_pixels), (3, 60));

    let majority = classify_lasso_hits(
        4, &hits(), ProvinceInclusionMode::MajorityInside, &selected, &state_by_province, &ambiguous, &valid, 0, 0,
    )
    .unwrap();
    assert_eq!(majority.selectable, BTreeSet::from([10]));
    let centroid = classify_lasso_hits(
        4, &hits(), ProvinceInclusionMode::CentroidInside, &selected, &state_by_province, &ambiguous, &valid, 0, 0,
    )
    .unwrap();
    assert_eq!(centroid.selectable, BTreeSet::from([10, 12]));
}

#[test]
fn lasso_needs_three_points() {
    let result = classify_lasso_hits(
        2, &hits(), ProvinceInclusionMode::AnyIntersection, &BTreeSet::new(), &BTreeMap::new(), &BTreeSet::new(),
        &BTreeSet::new(), 0, 0,
    );
    assert_eq!(result.err(), Some(StateLassoError::NotEnoughPoints));
}
