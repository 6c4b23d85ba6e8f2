use hoi4_editor::diagnostics::ProjectDiagnosticKind;
use hoi4_editor::problems_ui::{
    project_validation_blockers, validation_problem_matches, validation_problem_summary, DiagnosticAction,
    ProblemsRequest, ProblemsUiState, ProjectProblemsController, ProjectValidationDiagnostic,
    ProjectValidationDomain, ValidationSeverity, ValidationSeverityFilter, ValidationSourceFilter,
};

fn diagnostic() -> ProjectValidationDiagnostic {
    ProjectValidationDiagnostic {
        kind: ProjectDiagnosticKind::UnknownProvince,
        severity: ValidationSeverity::Error,
        domain: ProjectValidationDomain::State,
        code: "unknown-province".to_owned(),
        message_key: "unknown-province".to_owned(),
        path: None,
        related_path: None,
        span: None,
        province_id: Some(501),
        state_id: Some(123),
        strategic_region_ids: Vec::new(),
        map_location: Some([7, 3]),
        related_province_ids: vec![42],
        blocks_save: true,
        message: "Province reference is invalid".to_owned(),
    }
}

#[test]
fn request_conversion_keeps_navigation_and_source_shapes() {
    assert_eq!(ProblemsRequest::from(DiagnosticAction::GoToProvince(7)), ProblemsRequest::SelectProvince(7));
    assert_eq!(ProblemsRequest::from(DiagnosticAction::GoToState(4)), ProblemsRequest::SelectState(4));
    assert_eq!(ProblemsRequest::from(DiagnosticAction::GoToLocation([2, 3])), ProblemsRequest::FocusLocation([2, 3]));
}

#[test]
fn filters_keep_current_issues_and_blocking_scope() {
    let state = ProblemsUiState::default();
    let value = diagnostic();
    assert!(validation_problem_matches(&state, ValidationSourceFilter::Unchanged, &value));
    assert!(!validation_problem_matches(&state, ValidationSourceFilter::Resolved, &value));
    let blocking = ProblemsUiState { blocking_only: true, ..ProblemsUiState::default() };
    assert!(validation_problem_matches(&blocking, ValidationSourceFilter::New, &value));
    assert!(!validation_problem_matches(&blocking, ValidationSourceFilter::Unchanged, &value));
}

#[test]
fn summary_keeps_severity_source_and_navigation_context() {
    let summary = validation_problem_summary(&ValidationSourceFilter::New, &diagnostic());
    assert!(summary.contains("Province 501"));
    assert!(summary.contains("State 123"));
    assert!(summary.contains("Province reference is invalid"));
}

#[test]
fn summary_has_exact_layout() {
    let summary = validation_problem_summary(&ValidationSourceFilter::New, &diagnostic());
    assert_eq!(summary, "Error · New · Province 501 · State 123 · Blocks Save — Province reference is invalid");
}

#[test]
fn reset_clears_selection_and_filters() {
    let mut controller = ProjectProblemsController::default();
    controller.state.filters_expanded = true;
    controller.state.selected = 4;
    controller.open(true, ValidationSourceFilter::Aggravated);
    assert!(controller.state.blocking_only);
    assert_eq!(controller.state.source, ValidationSourceFilter::Aggravated);
    controller.reset();
    assert_eq!(controller.state.selected, 0);
    assert_eq!(controller.state.source, ValidationSourceFilter::All);
    assert!(!controller.state.blocking_only);
}

#[test]
fn cycling_a_filter_resets_the_selection() {
    let mut controller = ProjectProblemsController::default();
    controller.state.selected = 3;
    controller.state.action_index = 2;
    controller.cycle_severity();
    assert_eq!(controller.state.severity, ValidationSeverityFilter::Errors);
    assert_eq!(controller.state.selected, 0);
    assert_eq!(controller.state.action_index, 0);
}

#[test]
fn actions_step_through_several_requests_and_otherwise_toggle_details() {
    let mut controller = ProjectProblemsController::default();
    controller.next_action_or_details(3);
    assert_eq!(controller.state.action_index, 1);
    controller.next_action_or_details(3);
    controller.next_action_or_details(3);
    assert_eq!(controller.state.action_index, 0);
    controller.next_action_or_details(1);
    assert!(controller.state.show_technical_details);
}

#[test]
fn blockers_are_new_or_aggravated_errors() {
    let mut warning = diagnostic();
    warning.severity = ValidationSeverity::Warning;
    let items = vec![
        (ValidationSourceFilter::New, diagnostic()),
        (ValidationSourceFilter::Unchanged, diagnostic()),
        (ValidationSourceFilter::Aggravated, warning),
        (ValidationSourceFilter::Aggravated, diagnostic()),
    ];
    assert_eq!(project_validation_blockers(&items), vec![0, 3]);
    let controller = ProjectProblemsController::default();
    assert_eq!(controller.visible(&items), vec![0, 1, 2, 3]);
    assert_eq!(controller.selected(&items), Some(0));
}
