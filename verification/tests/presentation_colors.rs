use hoi4_editor::map_layers::{political_fallback_color, MapBaseView};
use hoi4_editor::political::{
    political_labels_visible_in_view, CountryColorResolution, CountryColorResolutionKind, PoliticalOwnerResolution,
};
use hoi4_editor::presentation::{
    category_color, checked_export_dimensions, MANPOWER_MISSING_COLOR, MANPOWER_ZERO_COLOR, UNCATEGORIZED_COLOR,
};

#[test]
fn labels_are_restricted_to_political_view() {
    assert!(political_labels_visible_in_view(MapBaseView::Political));
    assert!(!political_labels_visible_in_view(MapBaseView::States));
    assert!(!political_labels_visible_in_view(MapBaseView::Terrain));
}

#[test]
fn dimensions_support_existing_scales_and_custom_maps() {
    assert_eq!(checked_export_dimensions(3, 2, 4).unwrap(), [12, 8]);
    assert_eq!(checked_export_dimensions(130, 70, 2).unwrap(), [260, 140]);
    assert!(checked_export_dimensions(u32::MAX, u32::MAX, 4).is_err());
}

#[test]
fn export_refuses_odd_scales_and_huge_images() {
    assert_eq!(checked_export_dimensions(3, 2, 3).unwrap_err(), "Export scale must be 1x, 2x, or 4x");
    assert_eq!(checked_export_dimensions(u32::MAX, 1, 2).unwrap_err(), "Export width overflows supported dimensions");
    assert_eq!(checked_export_dimensions(1, u32::MAX, 2).unwrap_err(), "Export height overflows supported dimensions");
    assert_eq!(checked_export_dimensions(u32::MAX, u32::MAX, 1).unwrap_err(), "Export image size overflows supported memory");
    assert_eq!(
        checked_export_dimensions(16385, 8192, 1).unwrap_err(),
        "Export image is too large (limit: 512 MiB of RGBA pixels)"
    );
    assert_eq!(checked_export_dimensions(16384, 8192, 1).unwrap(), [16384, 8192]);
}

#[test]
fn category_colors_are_deterministic_and_grey_without_a_category() {
    assert_eq!(category_color(Some("modded_category")), category_color(Some("modded_category")));
    assert_ne!(category_color(Some("modded_category")), category_color(None));
    assert_eq!(category_color(None), UNCATEGORIZED_COLOR);
    assert_eq!(category_color(Some("")), UNCATEGORIZED_COLOR);
    assert_ne!(MANPOWER_ZERO_COLOR, MANPOWER_MISSING_COLOR);
}

#[test]
fn owner_resolution_colors_and_lines() {
    let missing = PoliticalOwnerResolution::OwnerMissing;
    assert_eq!(missing.color_for_map(), [0x68, 0x68, 0x68]);
    assert_eq!(missing.diagnostic_lines(), vec!["Owner tag: <missing>", "Resolution: owner missing (neutral grey)"]);

    let fallback = PoliticalOwnerResolution::Country(CountryColorResolution {
        kind: CountryColorResolutionKind::ColorMissing,
        tag: "BRA".to_owned(),
        rgb: None,
        source_path: None,
        source_type: None,
    });
    assert_eq!(fallback.color_for_map(), political_fallback_color("BRA"));
    assert_eq!(
        fallback.diagnostic_lines(),
        vec![
            "Owner tag: BRA",
            "Resolved country tag: BRA",
            "Resolved RGB: <fallback>",
            "Fallback reason: country known but color missing",
        ]
    );

    let resolved = PoliticalOwnerResolution::Country(CountryColorResolution {
        kind: CountryColorResolutionKind::Resolved,
        tag: "GER".to_owned(),
        rgb: Some([1, 20, 255]),
        source_path: Some("common/countries/colors.txt".to_owned()),
        source_type: Some("colors".to_owned()),
    });
    assert_eq!(resolved.color_for_map(), [1, 20, 255]);
    assert_eq!(
        resolved.diagnostic_lines(),
        vec![
            "Owner tag: GER",
            "Resolved country tag: GER",
            "Resolved RGB: 1, 20, 255",
            "Resolution source type: colors",
            "Resolution source path: common/countries/colors.txt",
        ]
    );
}
