use hoi4_editor::diagnostics::{
    DiagnosticDomain, DiagnosticSeverity, DiagnosticSummary, ProjectDiagnostic, ProjectDiagnosticKind,
    TextSpan,
};

#[test]
fn diagnostics_are_sorted_deduplicated_and_summarized_by_stable_identity() {
    let warning = ProjectDiagnostic::new(
        ProjectDiagnosticKind::LandProvinceWithoutState,
        DiagnosticSeverity::Warning,
        None,
        None,
        "warning".to_owned(),
    )
    .with_province(2);
    let duplicate = ProjectDiagnostic {
        message: "translated warning".to_owned(),
        ..warning.clone()
    };
    let error = ProjectDiagnostic::new(
        ProjectDiagnosticKind::UnknownProvince,
        DiagnosticSeverity::Error,
        Some("history/states/1.txt".to_owned()),
        None,
        "error".to_owned(),
    )
    .with_state(1)
    .with_province(9);
    let info = ProjectDiagnostic::new(
        ProjectDiagnosticKind::StateEditSession,
        DiagnosticSeverity::Information,
        None,
        None,
        "info".to_owned(),
    );
    let mut diagnostics = vec![warning, info, duplicate, error];

    ProjectDiagnostic::sort_and_dedup(&mut diagnostics);

    assert_eq!(diagnostics.len(), 3);
    assert_eq!(diagnostics[0].severity, DiagnosticSeverity::Error);
    assert_eq!(diagnostics[0].code, "cross.province.unknown");
    assert_eq!(diagnostics[0].location().state_id, Some(1));
    assert_eq!(
        ProjectDiagnostic::summary(&diagnostics),
        DiagnosticSummary {
            total: 3,
            information: 1,
            warnings: 1,
            errors: 1,
            blocking: 1
        }
    );
}

#[test]
fn the_first_of_equal_diagnostics_is_kept_and_order_follows_the_key() {
    let first = ProjectDiagnostic::new(
        ProjectDiagnosticKind::InvalidField,
        DiagnosticSeverity::Warning,
        Some("b.txt".to_owned()),
        Some(TextSpan::new(4, 2)),
        "first wording".to_owned(),
    );
    let second = ProjectDiagnostic {
        message: "second wording".to_owned(),
        ..first.clone()
    };
    let earlier_path = ProjectDiagnostic::new(
        ProjectDiagnosticKind::InvalidField,
        DiagnosticSeverity::Warning,
        Some("a.txt".to_owned()),
        None,
        "other".to_owned(),
    );
    let no_path = earlier_path.clone().with_domain(DiagnosticDomain::States);
    let mut no_path = no_path;
    no_path.path = None;
    let mut diagnostics = vec![second.clone(), first.clone(), earlier_path.clone(), no_path.clone()];
    ProjectDiagnostic::sort_and_dedup(&mut diagnostics);
    assert_eq!(diagnostics.len(), 3);
    assert_eq!(diagnostics[0].path, None);
    assert_eq!(diagnostics[1].path.as_deref(), Some("a.txt"));
    assert_eq!(diagnostics[2].message, "second wording");
}
