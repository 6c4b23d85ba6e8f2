use hoi4_editor::map_layers::{
    image_overlay_is_aligned, is_reserved_diagnostic_color, political_fallback_color,
    validate_image_overlay_metadata, ImageOverlayMetadata, ImageOverlayValidationIssue, MapBaseView,
    WorkspaceMode, WorkspaceViewPreferences,
};
use hoi4_editor::province_save::ProvinceSaveMode;

#[test]
fn canonical_shortcuts_select_seven_distinct_map_views() {
    let views = ['1', '2', '3', '4', '5', '6', '7']
        .into_iter()
        .filter_map(MapBaseView::from_canonical_shortcut)
        .collect::<Vec<_>>();
    assert_eq!(views.len(), 7);
    assert_eq!(MapBaseView::from_canonical_shortcut('1'), Some(MapBaseView::ProvinceColors));
    assert_eq!(MapBaseView::from_canonical_shortcut('6'), Some(MapBaseView::States));
    assert_eq!(MapBaseView::from_canonical_shortcut('7'), Some(MapBaseView::Political));
    assert_eq!(MapBaseView::from_canonical_shortcut('8'), None);
}

#[test]
fn workspace_view_preferences_keep_independent_last_views() {
    let mut preferences = WorkspaceViewPreferences::default();
    assert_eq!(preferences.get(WorkspaceMode::Provinces), MapBaseView::ProvinceColors);
    assert_eq!(preferences.get(WorkspaceMode::States), MapBaseView::States);

    preferences.remember(WorkspaceMode::States, MapBaseView::Political);
    assert_eq!(preferences.get(WorkspaceMode::Provinces), MapBaseView::ProvinceColors);
    assert_eq!(preferences.get(WorkspaceMode::States), MapBaseView::Political);
    assert_eq!(WorkspaceMode::Provinces.next(), WorkspaceMode::States);
    assert_eq!(WorkspaceMode::States.next(), WorkspaceMode::Provinces);
}

#[test]
fn resources_requires_loaded_state_history_without_claiming_a_new_shortcut() {
    assert!(MapBaseView::Resources.requires_state_history());
    assert_eq!(MapBaseView::from_canonical_shortcut('8'), None);
}

#[test]
fn political_fallback_color_is_deterministic_and_not_diagnostic() {
    assert_eq!(political_fallback_color("bra"), political_fallback_color("BRA"));
    assert_ne!(political_fallback_color("BRA"), political_fallback_color("ARG"));
    assert!(!is_reserved_diagnostic_color(political_fallback_color("BRA")));
}

#[test]
fn political_fallback_color_ignores_surrounding_whitespace() {
    assert_eq!(political_fallback_color("  ger "), political_fallback_color("GER"));
}

#[test]
fn image_overlay_validation_reports_existence_dimensions_and_alignment() {
    assert_eq!(
        validate_image_overlay_metadata(ImageOverlayMetadata { exists: false, dimensions: None }, [5632, 2048]),
        vec![ImageOverlayValidationIssue::Missing, ImageOverlayValidationIssue::MissingDimensions]
    );
    assert_eq!(
        validate_image_overlay_metadata(ImageOverlayMetadata { exists: true, dimensions: Some([1, 2]) }, [2, 2]),
        vec![ImageOverlayValidationIssue::DimensionMismatch { expected: [2, 2], actual: [1, 2] }]
    );
    assert!(image_overlay_is_aligned(ImageOverlayMetadata { exists: true, dimensions: Some([2, 2]) }, [2, 2]));
}

#[test]
fn workspace_modes_alternate() {
    assert_eq!(WorkspaceMode::Provinces.next().next(), WorkspaceMode::Provinces);
}

#[test]
fn only_project_save_clears_province_dirty_state() {
    assert!(ProvinceSaveMode::Save.clears_dirty());
    assert!(!ProvinceSaveMode::Export.clears_dirty());
}
