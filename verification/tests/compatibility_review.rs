use hoi4_editor::compatibility_harness::{
    redact_path, redact_stripped_path,
    compare_findings, normalize_editor_diagnostic, normalize_herbix_finding, ComparisonClass,
    CompatibilityFinding, CompatibilitySnapshot, CompatibilitySnapshotError,
    CompatibilitySnapshotProvenance, ExpectedDifference, FindingSeverity, ReviewClassification,
    HERBIX_REFERENCE_TOOL, HERBIX_REFERENCE_VERSION, SNAPSHOT_SCHEMA_VERSION,
};
use hoi4_editor::diagnostics::ProjectDiagnosticKind;
use hoi4_editor::problems_ui::{
    ProjectValidationDiagnostic, ProjectValidationDomain, ValidationSeverity,
};

fn finding(rule: &str) -> CompatibilityFinding {
    CompatibilityFinding {
        rule: rule.to_owned(),
        severity: FindingSeverity::Error,
        province_ids: vec![42, 7, 42],
        state_ids: Vec::new(),
        coordinate: Some([3, 2]),
        logical_source: Some("C:\\work\\map\\provinces.bmp".to_owned()),
        detail: None,
    }
}

#[test]
fn exact_match_is_structured_and_deterministic() {
    let comparison = compare_findings(
        "synthetic_x_crossing",
        vec!["province_geometry".to_owned()],
        vec![finding("province.x_crossing")],
        vec![finding("province.x_crossing")],
        vec![],
    );
    assert_eq!(comparison.differences[0].class, ComparisonClass::Match);
    assert!(comparison.is_strictly_clean());
    assert_eq!(
        comparison.differences[0]
            .editor
            .as_ref()
            .unwrap()
            .province_ids,
        [7, 42]
    );
    let again = compare_findings(
        "synthetic_x_crossing",
        vec!["province_geometry".to_owned()],
        vec![finding("province.x_crossing")],
        vec![finding("province.x_crossing")],
        vec![],
    );
    assert_eq!(comparison, again);
}

#[test]
fn narrow_policy_approval_does_not_mask_other_findings() {
    let expected = ExpectedDifference {
        case: "tiny_map".to_owned(),
        rule: "project.dimension.non_256".to_owned(),
        province_ids: Vec::new(),
        state_ids: Vec::new(),
        coordinate: None,
        classification: ReviewClassification::DifferentPolicy,
        note: None,
    };
    let reference = CompatibilityFinding {
        rule: "project.dimension.non_256".to_owned(),
        severity: FindingSeverity::Warning,
        province_ids: Vec::new(),
        state_ids: Vec::new(),
        coordinate: None,
        logical_source: None,
        detail: None,
    };
    let comparison = compare_findings("tiny_map", vec![], vec![], vec![reference], vec![expected]);
    assert_eq!(
        comparison.differences[0].class,
        ComparisonClass::PolicyDifference
    );
    assert_eq!(
        comparison.differences[0].review,
        ReviewClassification::DifferentPolicy
    );
}

#[test]
fn strategic_regions_are_explicitly_unsupported_by_editor() {
    let comparison = compare_findings(
        "reference_domain",
        vec!["strategic_regions".to_owned()],
        vec![],
        vec![finding("strategic_region.missing_province")],
        vec![],
    );
    assert_eq!(
        comparison.differences[0].class,
        ComparisonClass::UnsupportedByUs
    );
}

#[test]
fn additional_or_different_details_remain_visible_for_review() {
    let mut reference = finding("river.no_source");
    reference.coordinate = Some([1, 1]);
    let comparison = compare_findings(
        "river_fixture",
        vec!["rivers".to_owned()],
        vec![finding("river.no_source"), finding("river.possible_loop")],
        vec![reference],
        vec![],
    );
    assert!(
        comparison
            .differences
            .iter()
            .any(|difference| difference.class == ComparisonClass::DifferentDetails)
    );
    assert!(
        comparison
            .differences
            .iter()
            .any(|difference| difference.class == ComparisonClass::EditorOnly)
    );
    assert!(!comparison.is_strictly_clean());
}

fn snapshot() -> CompatibilitySnapshot {
    CompatibilitySnapshot {
        schema_version: SNAPSHOT_SCHEMA_VERSION,
        provenance: CompatibilitySnapshotProvenance {
            reference_tool: HERBIX_REFERENCE_TOOL.to_owned(),
            reference_version: HERBIX_REFERENCE_VERSION.to_owned(),
            source_identifier: "local-wrapper".to_owned(),
            project_fingerprint: "sha256:known".to_owned(),
            normalization_version: 1,
        },
        findings: vec![finding("province.x_crossing")],
    }
}

#[test]
fn snapshots_reject_stale_or_drifted_reference_metadata() {
    let snapshot = snapshot();
    assert!(matches!(
        snapshot.validate_for_project("sha256:changed"),
        Err(CompatibilitySnapshotError::StaleReferenceSnapshot { .. })
    ));
    let mut mismatched = snapshot.clone();
    mismatched.provenance.reference_version = "0.17.0".to_owned();
    assert!(matches!(
        mismatched.validate_for_project("sha256:known"),
        Err(CompatibilitySnapshotError::ReferenceVersionMismatch { .. })
    ));
    let normalized = snapshot.clone().normalized();
    assert_eq!(normalized.clone().normalized(), normalized);
}

#[test]
fn snapshot_checks_report_each_mismatch_with_both_values() {
    let snapshot = snapshot();
    assert_eq!(snapshot.validate_for_project("sha256:known"), Ok(()));
    let mut schema = snapshot.clone();
    schema.schema_version = 2;
    assert_eq!(
        schema.validate_for_project("sha256:known"),
        Err(CompatibilitySnapshotError::SchemaVersionMismatch {
            expected: 1,
            found: 2
        })
    );
    let mut tool = snapshot.clone();
    tool.provenance.reference_tool = "other".to_owned();
    assert_eq!(
        tool.validate_for_project("sha256:known"),
        Err(CompatibilitySnapshotError::ReferenceToolMismatch {
            expected: "hoi4modutilities".to_owned(),
            found: "other".to_owned()
        })
    );
    assert_eq!(
        snapshot.validate_for_project("sha256:other"),
        Err(CompatibilitySnapshotError::StaleReferenceSnapshot {
            expected: "sha256:other".to_owned(),
            found: "sha256:known".to_owned()
        })
    );
}

#[test]
fn snapshot_normalization_sorts_and_keeps_each_finding_once() {
    let mut snapshot = snapshot();
    snapshot.findings = vec![
        finding("river.no_source"),
        finding("province.x_crossing"),
        finding("river.no_source"),
    ];
    let normalized = snapshot.normalized();
    assert_eq!(normalized.findings.len(), 2);
    assert_eq!(normalized.findings[0].rule, "province.x_crossing");
    assert_eq!(normalized.findings[1].rule, "river.no_source");
    assert_eq!(normalized.findings[1].province_ids, vec![7, 42]);
    assert_eq!(
        normalized.findings[1].logical_source.as_deref(),
        Some("C:/work/map/provinces.bmp")
    );
}

#[test]
fn reference_findings_are_normalized_like_editor_findings() {
    let normalized = normalize_herbix_finding(finding("river.no_source"));
    assert_eq!(normalized.province_ids, vec![7, 42]);
    assert_eq!(
        normalized.logical_source.as_deref(),
        Some("C:/work/map/provinces.bmp")
    );
    assert_eq!(normalized.rule, "river.no_source");
}

#[test]
fn editor_diagnostics_map_to_reference_rules_with_relative_sources() {
    let diagnostic = ProjectValidationDiagnostic {
        kind: ProjectDiagnosticKind::DuplicateProvinceRgb,
        severity: ValidationSeverity::Warning,
        domain: ProjectValidationDomain::Province,
        code: "DUPLICATE_RGB".to_owned(),
        message_key: "ignored".to_owned(),
        path: Some("map/definition.csv".to_owned()),
        related_path: None,
        span: None,
        province_id: Some(7),
        state_id: Some(3),
        strategic_region_ids: Vec::new(),
        map_location: Some([3, 2]),
        related_province_ids: vec![42, 1],
        blocks_save: false,
        message: "human wording is not part of comparison identity".to_owned(),
    };
    let normalized = normalize_editor_diagnostic(&diagnostic, ".").unwrap();
    assert_eq!(normalized.rule, "province.duplicate_color");
    assert_eq!(normalized.severity, FindingSeverity::Warning);
    assert_eq!(normalized.province_ids, [1, 7, 42]);
    assert_eq!(normalized.state_ids, [3]);
    assert_eq!(normalized.coordinate, Some([3, 2]));
    assert_eq!(normalized.detail.as_deref(), Some("DUPLICATE_RGB"));
    assert_eq!(
        normalized.logical_source.as_deref(),
        Some("map/definition.csv")
    );
    let mut unmapped = diagnostic.clone();
    unmapped.kind = ProjectDiagnosticKind::MissingOwner;
    assert_eq!(normalize_editor_diagnostic(&unmapped, "."), None);
}

#[test]
fn comparison_report_groups_rules_under_their_class() {
    let comparison = compare_findings(
        "river_fixture",
        vec!["rivers".to_owned(), "states".to_owned()],
        vec![finding("river.no_source"), finding("river.possible_loop")],
        vec![finding("river.no_source")],
        vec![],
    );
    assert_eq!(
        comparison.human_report(),
        "Case: river_fixture\nCoverage: rivers, states\n\nMatch\n  river.no_source (Unreviewed)\n\nEditorOnly\n  river.possible_loop (Unreviewed)\n"
    );
}

#[test]
fn redacted_paths_use_forward_slashes() {
    assert_eq!(
        redact_stripped_path(Some("history\\states\\1-France.txt".to_string()), "C:\\mod\\history\\states\\1-France.txt"),
        "history/states/1-France.txt"
    );
    assert_eq!(redact_stripped_path(None, "D:\\other\\map\\definition.csv"), "D:/other/map/definition.csv");
}

#[test]
fn redacted_paths_drop_the_project_root() {
    assert_eq!(redact_path("/mods/demo", "/mods/demo"), "");
    assert_eq!(redact_path("/mods/demo/history/states/1.txt", "/mods/demo"), "history/states/1.txt");
    assert_eq!(redact_path("/elsewhere/map/definition.csv", "/mods/demo"), "/elsewhere/map/definition.csv");
}
