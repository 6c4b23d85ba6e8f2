//! The project problems list: validation diagnostics, the filters that pick
//! which of them are shown, the list's state, and the navigation requests a
//! selected problem can make.
use vstd::prelude::*;
use crate::diagnostics::{ProjectDiagnosticKind, TextSpan};
use crate::text::{decimal, push_decimal};

verus! {

/// How serious a validation problem is.
#[derive(Debug, Clone, Copy, PartialEq, Eq, Structural)]
pub enum ValidationSeverity {
    Information,
    Warning,
    Error,
}

impl ValidationSeverity {
    /// Sort rank: errors first, then warnings, then information.
    pub open spec fn rank_spec(self) -> u8 {
        match self {
            ValidationSeverity::Error => 0,
            ValidationSeverity::Warning => 1,
            ValidationSeverity::Information => 2,
        }
    }
}

/// The part of the project a validation problem concerns.
#[derive(Debug, Clone, Copy, PartialEq, Eq, Structural)]
pub enum ProjectValidationDomain {
    Province,
    Definition,
    State,
    Syntax,
    Resource,
    Building,
    CrossDomain,
}

/// One problem found by project validation.
#[derive(Debug, Clone, PartialEq, Eq)]
pub struct ProjectValidationDiagnostic {
    pub kind: ProjectDiagnosticKind,
    pub severity: ValidationSeverity,
    pub domain: ProjectValidationDomain,
    pub code: String,
    pub message_key: String,
    pub path: Option<String>,
    pub related_path: Option<String>,
    pub span: Option<TextSpan>,
    pub province_id: Option<u32>,
    pub state_id: Option<u32>,
    pub strategic_region_ids: Vec<u32>,
    pub map_location: Option<[u32; 2]>,
    pub related_province_ids: Vec<u32>,
    pub blocks_save: bool,
    pub message: String,
}

/// A navigation step a diagnostic offers.
#[derive(Debug, Clone, PartialEq, Eq)]
pub enum DiagnosticAction {
    GoToProvince(u32),
    GoToState(u32),
    GoToLocation([u32; 2]),
    OpenSource(String),
    RevealSource(String),
    CopySourcePath(String),
}

/// Which severities the list shows.
#[derive(Debug, Clone, Copy, PartialEq, Eq, Structural)]
pub enum ValidationSeverityFilter {
    All,
    Errors,
    Warnings,
    Information,
}

impl ValidationSeverityFilter {
    pub fn cycle(self) -> (r: Self)
        ensures
            r == (match self {
                ValidationSeverityFilter::All => ValidationSeverityFilter::Errors,
                ValidationSeverityFilter::Errors => ValidationSeverityFilter::Warnings,
                ValidationSeverityFilter::Warnings => ValidationSeverityFilter::Information,
                ValidationSeverityFilter::Information => ValidationSeverityFilter::All,
            }),
    {
        match self {
            ValidationSeverityFilter::All => ValidationSeverityFilter::Errors,
            ValidationSeverityFilter::Errors => ValidationSeverityFilter::Warnings,
            ValidationSeverityFilter::Warnings => ValidationSeverityFilter::Information,
            ValidationSeverityFilter::Information => ValidationSeverityFilter::All,
        }
    }

    pub open spec fn matches_spec(self, severity: ValidationSeverity) -> bool {
        match self {
            ValidationSeverityFilter::All => true,
            ValidationSeverityFilter::Errors => severity == ValidationSeverity::Error,
            ValidationSeverityFilter::Warnings => severity == ValidationSeverity::Warning,
            ValidationSeverityFilter::Information => severity == ValidationSeverity::Information,
        }
    }

    pub fn matches(self, severity: ValidationSeverity) -> (r: bool)
        ensures
            r == self.matches_spec(severity),
    {
        match self {
            ValidationSeverityFilter::All => true,
            ValidationSeverityFilter::Errors => severity == ValidationSeverity::Error,
            ValidationSeverityFilter::Warnings => severity == ValidationSeverity::Warning,
            ValidationSeverityFilter::Information => severity == ValidationSeverity::Information,
        }
    }

    pub fn label(self) -> (r: &'static str)
        ensures
            r@ == (match self {
                ValidationSeverityFilter::All => "All"@,
                ValidationSeverityFilter::Errors => "Errors"@,
                ValidationSeverityFilter::Warnings => "Warnings"@,
                ValidationSeverityFilter::Information => "Information"@,
            }),
    {
        match self {
            ValidationSeverityFilter::All => "All",
            ValidationSeverityFilter::Errors => "Errors",
            ValidationSeverityFilter::Warnings => "Warnings",
            ValidationSeverityFilter::Information => "Information",
        }
    }
}

/// How a problem changed since the previous validation, or which changes
/// the list shows.
#[derive(Debug, Clone, Copy, PartialEq, Eq, Structural)]
pub enum ValidationSourceFilter {
    All,
    New,
    Aggravated,
    Unchanged,
    Resolved,
    Improved,
}

impl ValidationSourceFilter {
    pub fn cycle(self) -> (r: Self)
        ensures
            r == (match self {
                ValidationSourceFilter::All => ValidationSourceFilter::New,
                ValidationSourceFilter::New => ValidationSourceFilter::Aggravated,
                ValidationSourceFilter::Aggravated => ValidationSourceFilter::Unchanged,
                ValidationSourceFilter::Unchanged => ValidationSourceFilter::Resolved,
                ValidationSourceFilter::Resolved => ValidationSourceFilter::Improved,
                ValidationSourceFilter::Improved => ValidationSourceFilter::All,
            }),
    {
        match self {
            ValidationSourceFilter::All => ValidationSourceFilter::New,
            ValidationSourceFilter::New => ValidationSourceFilter::Aggravated,
            ValidationSourceFilter::Aggravated => ValidationSourceFilter::Unchanged,
            ValidationSourceFilter::Unchanged => ValidationSourceFilter::Resolved,
            ValidationSourceFilter::Resolved => ValidationSourceFilter::Improved,
            ValidationSourceFilter::Improved => ValidationSourceFilter::All,
        }
    }

    pub fn matches(self, source: Self) -> (r: bool)
        ensures
            r == (self == ValidationSourceFilter::All || self == source),
    {
        self == ValidationSourceFilter::All || self == source
    }

    pub open spec fn label_spec(self) -> Seq<char> {
        match self {
            ValidationSourceFilter::All => "All"@,
            ValidationSourceFilter::New => "New"@,
            ValidationSourceFilter::Aggravated => "Aggravated"@,
            ValidationSourceFilter::Unchanged => "Unchanged"@,
            ValidationSourceFilter::Resolved => "Resolved"@,
            ValidationSourceFilter::Improved => "Improved"@,
        }
    }

    pub fn label(self) -> (r: &'static str)
        ensures
            r@ == self.label_spec(),
    {
        match self {
            ValidationSourceFilter::All => "All",
            ValidationSourceFilter::New => "New",
            ValidationSourceFilter::Aggravated => "Aggravated",
            ValidationSourceFilter::Unchanged => "Unchanged",
            ValidationSourceFilter::Resolved => "Resolved",
            ValidationSourceFilter::Improved => "Improved",
        }
    }
}

/// Which parts of the project the list shows.
#[derive(Debug, Clone, Copy, PartialEq, Eq, Structural)]
pub enum ValidationDomainFilter {
    All,
    ProvinceMap,
    Definition,
    States,
    CrossDomain,
}

impl ValidationDomainFilter {
    pub fn cycle(self) -> (r: Self)
        ensures
            r == (match self {
                ValidationDomainFilter::All => ValidationDomainFilter::ProvinceMap,
                ValidationDomainFilter::ProvinceMap => ValidationDomainFilter::Definition,
                ValidationDomainFilter::Definition => ValidationDomainFilter::States,
                ValidationDomainFilter::States => ValidationDomainFilter::CrossDomain,
                ValidationDomainFilter::CrossDomain => ValidationDomainFilter::All,
            }),
    {
        match self {
            ValidationDomainFilter::All => ValidationDomainFilter::ProvinceMap,
            ValidationDomainFilter::ProvinceMap => ValidationDomainFilter::Definition,
            ValidationDomainFilter::Definition => ValidationDomainFilter::States,
            ValidationDomainFilter::States => ValidationDomainFilter::CrossDomain,
            ValidationDomainFilter::CrossDomain => ValidationDomainFilter::All,
        }
    }

    /// The state filter also takes syntax, resource and building problems.
    pub open spec fn matches_spec(self, domain: ProjectValidationDomain) -> bool {
        match self {
            ValidationDomainFilter::All => true,
            ValidationDomainFilter::ProvinceMap => domain == ProjectValidationDomain::Province,
            ValidationDomainFilter::Definition => domain == ProjectValidationDomain::Definition,
            ValidationDomainFilter::States => domain == ProjectValidationDomain::State
                || domain == ProjectValidationDomain::Syntax || domain == ProjectValidationDomain::Resource
                || domain == ProjectValidationDomain::Building,
            ValidationDomainFilter::CrossDomain => domain == ProjectValidationDomain::CrossDomain,
        }
    }

    pub fn matches(self, domain: ProjectValidationDomain) -> (r: bool)
        ensures
            r == self.matches_spec(domain),
    {
        match self {
            ValidationDomainFilter::All => true,
            ValidationDomainFilter::ProvinceMap => domain == ProjectValidationDomain::Province,
            ValidationDomainFilter::Definition => domain == ProjectValidationDomain::Definition,
            ValidationDomainFilter::States => domain == ProjectValidationDomain::State
                || domain == ProjectValidationDomain::Syntax || domain == ProjectValidationDomain::Resource
                || domain == ProjectValidationDomain::Building,
            ValidationDomainFilter::CrossDomain => domain == ProjectValidationDomain::CrossDomain,
        }
    }

    pub fn label(self) -> (r: &'static str)
        ensures
            r@ == (match self {
                ValidationDomainFilter::All => "All"@,
                ValidationDomainFilter::ProvinceMap => "Province Map"@,
                ValidationDomainFilter::Definition => "Definition"@,
                ValidationDomainFilter::States => "States"@,
                ValidationDomainFilter::CrossDomain => "Cross Domain"@,
            }),
    {
        match self {
            ValidationDomainFilter::All => "All",
            ValidationDomainFilter::ProvinceMap => "Province Map",
            ValidationDomainFilter::Definition => "Definition",
            ValidationDomainFilter::States => "States",
            ValidationDomainFilter::CrossDomain => "Cross Domain",
        }
    }
}

/// The filters, selection and display options of the problems list.
#[derive(Debug, Clone, Copy, PartialEq, Eq, Structural)]
pub struct ProblemsUiState {
    pub severity: ValidationSeverityFilter,
    pub source: ValidationSourceFilter,
    pub domain: ValidationDomainFilter,
    pub selected: usize,
    pub offset: usize,
    pub filters_expanded: bool,
    pub show_technical_details: bool,
    pub blocking_only: bool,
    pub action_index: usize,
}

impl ProblemsUiState {
    pub open spec fn initial() -> Self {
        ProblemsUiState {
            severity: ValidationSeverityFilter::All,
            source: ValidationSourceFilter::All,
            domain: ValidationDomainFilter::All,
            selected: 0,
            offset: 0,
            filters_expanded: false,
            show_technical_details: false,
            blocking_only: false,
            action_index: 0,
        }
    }
}

impl Default for ProblemsUiState {
    /// Every filter open, nothing selected, no option set.
    fn default() -> (r: Self)
        ensures
            r == ProblemsUiState::initial(),
    {
        ProblemsUiState {
            severity: ValidationSeverityFilter::All,
            source: ValidationSourceFilter::All,
            domain: ValidationDomainFilter::All,
            selected: 0,
            offset: 0,
            filters_expanded: false,
            show_technical_details: false,
            blocking_only: false,
            action_index: 0,
        }
    }
}

/// Whether the list shows a problem with the given change: never a resolved
/// one; otherwise it must pass the three filters, and when only blocking
/// problems are wanted, block saving and be new or aggravated.
pub open spec fn problem_shown(state: ProblemsUiState, source: ValidationSourceFilter, d: ProjectValidationDiagnostic) -> bool {
    &&& source != ValidationSourceFilter::Resolved
    &&& (state.source == ValidationSourceFilter::All || state.source == source)
    &&& state.severity.matches_spec(d.severity)
    &&& state.domain.matches_spec(d.domain)
    &&& (!state.blocking_only || (d.blocks_save && (source == ValidationSourceFilter::New
        || source == ValidationSourceFilter::Aggravated)))
}

pub fn validation_problem_matches(state: &ProblemsUiState, source: ValidationSourceFilter, diagnostic: &ProjectValidationDiagnostic) -> (r: bool)
    ensures
        r == problem_shown(*state, source, *diagnostic),
{
    source != ValidationSourceFilter::Resolved && state.source.matches(source) && state.severity.matches(diagnostic.severity)
        && state.domain.matches(diagnostic.domain) && (!state.blocking_only || (diagnostic.blocks_save && (
    source == ValidationSourceFilter::New || source == ValidationSourceFilter::Aggravated)))
}

/// The problems list.
#[derive(Debug, Clone, Copy, PartialEq, Eq, Structural)]
pub struct ProjectProblemsController {
    pub state: ProblemsUiState,
}

impl Default for ProjectProblemsController {
    fn default() -> (r: Self)
        ensures
            r.state == ProblemsUiState::initial(),
    {
        ProjectProblemsController { state: ProblemsUiState::default() }
    }
}

impl ProjectProblemsController {
    /// Back to every filter open and nothing selected.
    pub fn reset(&mut self)
        ensures
            final(self).state == ProblemsUiState::initial(),
    {
        self.state = ProblemsUiState::default();
    }

    /// Opens the list with the given scope and change filter, everything
    /// else reset.
    pub fn open(&mut self, blocking_only: bool, source: ValidationSourceFilter)
        ensures
            final(self).state == (ProblemsUiState { blocking_only, source, ..ProblemsUiState::initial() }),
    {
        let mut state = ProblemsUiState::default();
        state.blocking_only = blocking_only;
        state.source = source;
        self.state = state;
    }

    fn reset_selection(&mut self)
        ensures
            final(self).state == (ProblemsUiState { selected: 0, offset: 0, action_index: 0, ..old(self).state }),
    {
        self.state.selected = 0;
        self.state.offset = 0;
        self.state.action_index = 0;
    }

    pub fn cycle_severity(&mut self)
        ensures
            final(self).state == (ProblemsUiState {
                severity: match old(self).state.severity {
                    ValidationSeverityFilter::All => ValidationSeverityFilter::Errors,
                    ValidationSeverityFilter::Errors => ValidationSeverityFilter::Warnings,
                    ValidationSeverityFilter::Warnings => ValidationSeverityFilter::Information,
                    ValidationSeverityFilter::Information => ValidationSeverityFilter::All,
                },
                selected: 0,
                offset: 0,
                action_index: 0,
                ..old(self).state
            }),
    {
        self.state.severity = self.state.severity.cycle();
        self.reset_selection();
    }

    pub fn cycle_source(&mut self)
        ensures
            final(self).state == (ProblemsUiState {
                source: match old(self).state.source {
                    ValidationSourceFilter::All => ValidationSourceFilter::New,
                    ValidationSourceFilter::New => ValidationSourceFilter::Aggravated,
                    ValidationSourceFilter::Aggravated => ValidationSourceFilter::Unchanged,
                    ValidationSourceFilter::Unchanged => ValidationSourceFilter::Resolved,
                    ValidationSourceFilter::Resolved => ValidationSourceFilter::Improved,
                    ValidationSourceFilter::Improved => ValidationSourceFilter::All,
                },
                selected: 0,
                offset: 0,
                action_index: 0,
                ..old(self).state
            }),
    {
        self.state.source = self.state.source.cycle();
        self.reset_selection();
    }

    pub fn cycle_domain(&mut self)
        ensures
            final(self).state == (ProblemsUiState {
                domain: match old(self).state.domain {
                    ValidationDomainFilter::All => ValidationDomainFilter::ProvinceMap,
                    ValidationDomainFilter::ProvinceMap => ValidationDomainFilter::Definition,
                    ValidationDomainFilter::Definition => ValidationDomainFilter::States,
                    ValidationDomainFilter::States => ValidationDomainFilter::CrossDomain,
                    ValidationDomainFilter::CrossDomain => ValidationDomainFilter::All,
                },
                selected: 0,
                offset: 0,
                action_index: 0,
                ..old(self).state
            }),
    {
        self.state.domain = self.state.domain.cycle();
        self.reset_selection();
    }

    /// With several requests, steps to the next one; otherwise toggles the
    /// technical details.
    pub fn next_action_or_details(&mut self, request_count: usize)
        ensures
            request_count > 1 ==> final(self).state == (ProblemsUiState {
                action_index: ((old(self).state.action_index + 1) % (request_count as int)) as usize,
                ..old(self).state
            }),
            request_count <= 1 ==> final(self).state == (ProblemsUiState {
                show_technical_details: !old(self).state.show_technical_details,
                ..old(self).state
            }),
    {
        if request_count > 1 {
            self.state.action_index = ((self.state.action_index as u128 + 1) % (request_count as u128)) as usize;
        } else {
            self.state.show_technical_details = !self.state.show_technical_details;
        }
    }

    /// The positions of the shown problems among `items`.
    pub fn visible(&self, items: &Vec<(ValidationSourceFilter, ProjectValidationDiagnostic)>) -> (r: Vec<usize>)
        ensures
            forall|k: int| 0 <= k < r@.len() ==> r@[k] < items@.len() && problem_shown(self.state, items@[r@[k] as int].0, items@[r@[k] as int].1),
            forall|k: int, l: int| 0 <= k < l < r@.len() ==> r@[k] < r@[l],
            forall|i: int| 0 <= i < items@.len() && problem_shown(self.state, items@[i].0, items@[i].1)
                ==> exists|k: int| 0 <= k < r@.len() && r@[k] == i,
    {
        let mut out: Vec<usize> = Vec::new();
        let mut i: usize = 0;
        while i < items.len()
            invariant
                i <= items@.len(),
                forall|k: int| 0 <= k < out@.len() ==> out@[k] < i && problem_shown(self.state, items@[out@[k] as int].0, items@[out@[k] as int].1),
                forall|k: int, l: int| 0 <= k < l < out@.len() ==> out@[k] < out@[l],
                forall|j: int| 0 <= j < i && problem_shown(self.state, items@[j].0, items@[j].1)
                    ==> exists|k: int| 0 <= k < out@.len() && out@[k] == j,
            decreases items@.len() - i,
        {
            if validation_problem_matches(&self.state, items[i].0, &items[i].1) {
                let ghost before = out@;
                out.push(i);
                proof {
                    assert forall|j: int| 0 <= j < i + 1 && problem_shown(self.state, items@[j].0, items@[j].1)
                        implies exists|k: int| 0 <= k < out@.len() && out@[k] == j by {
                        if j < i {
                            let k = choose|k: int| 0 <= k < before.len() && before[k] == j;
                            assert(out@[k] == j);
                        } else {
                            assert(out@[out@.len() - 1] == j);
                        }
                    }
                }
            }
            i = i + 1;
        }
        out
    }

    /// The position among `items` of the selected problem, if any is shown;
    /// a selection past the end selects the last one.
    pub fn selected(&self, items: &Vec<(ValidationSourceFilter, ProjectValidationDiagnostic)>) -> (r: Option<usize>)
        ensures
            r matches Some(i) ==> i < items@.len() && problem_shown(self.state, items@[i as int].0, items@[i as int].1),
            r is None ==> forall|i: int| 0 <= i < items@.len() ==> !problem_shown(self.state, items@[i].0, items@[i].1),
    {
        let shown = self.visible(items);
        if shown.len() == 0 {
            proof {
                assert forall|i: int| 0 <= i < items@.len() implies !problem_shown(self.state, items@[i].0, items@[i].1) by {
                    if problem_shown(self.state, items@[i].0, items@[i].1) {
                        let k = choose|k: int| 0 <= k < shown@.len() && shown@[k] == i;
                    }
                }
            }
            return None;
        }
        let last = shown.len() - 1;
        let index = if self.state.selected < last {
            self.state.selected
        } else {
            last
        };
        Some(shown[index])
    }
}

/// Where a selected problem asks the application to go.
#[derive(Debug, Clone, PartialEq, Eq)]
pub enum ProblemsRequest {
    SelectProvince(u32),
    SelectState(u32),
    FocusLocation([u32; 2]),
    OpenSource(String),
    RevealSource(String),
    CopyDetails(String),
}

pub open spec fn request_for(action: DiagnosticAction) -> ProblemsRequest {
    match action {
        DiagnosticAction::GoToProvince(id) => ProblemsRequest::SelectProvince(id),
        DiagnosticAction::GoToState(id) => ProblemsRequest::SelectState(id),
        DiagnosticAction::GoToLocation(location) => ProblemsRequest::FocusLocation(location),
        DiagnosticAction::OpenSource(path) => ProblemsRequest::OpenSource(path),
        DiagnosticAction::RevealSource(path) => ProblemsRequest::RevealSource(path),
        DiagnosticAction::CopySourcePath(path) => ProblemsRequest::CopyDetails(path),
    }
}

impl From<DiagnosticAction> for ProblemsRequest {
    fn from(action: DiagnosticAction) -> (r: Self) {
        match action {
            DiagnosticAction::GoToProvince(id) => ProblemsRequest::SelectProvince(id),
            DiagnosticAction::GoToState(id) => ProblemsRequest::SelectState(id),
            DiagnosticAction::GoToLocation(location) => ProblemsRequest::FocusLocation(location),
            DiagnosticAction::OpenSource(path) => ProblemsRequest::OpenSource(path),
            DiagnosticAction::RevealSource(path) => ProblemsRequest::RevealSource(path),
            DiagnosticAction::CopySourcePath(path) => ProblemsRequest::CopyDetails(path),
        }
    }
}

impl vstd::std_specs::convert::FromSpecImpl<DiagnosticAction> for ProblemsRequest {
    open spec fn obeys_from_spec() -> bool {
        true
    }

    open spec fn from_spec(action: DiagnosticAction) -> Self {
        request_for(action)
    }
}

/// The label of the button that makes a request.
pub fn problems_request_label(request: &ProblemsRequest) -> (r: &'static str)
    ensures
        r@ == (match request {
            ProblemsRequest::SelectProvince(_) => "Go to province"@,
            ProblemsRequest::SelectState(_) => "Go to state"@,
            ProblemsRequest::FocusLocation(_) => "Go to location"@,
            ProblemsRequest::OpenSource(_) => "Open source file"@,
            ProblemsRequest::RevealSource(_) => "Reveal source"@,
            ProblemsRequest::CopyDetails(_) => "Copy source path"@,
        }),
{
    match request {
        ProblemsRequest::SelectProvince(_) => "Go to province",
        ProblemsRequest::SelectState(_) => "Go to state",
        ProblemsRequest::FocusLocation(_) => "Go to location",
        ProblemsRequest::OpenSource(_) => "Open source file",
        ProblemsRequest::RevealSource(_) => "Reveal source",
        ProblemsRequest::CopyDetails(_) => "Copy source path",
    }
}

pub open spec fn severity_label(severity: ValidationSeverity) -> Seq<char> {
    match severity {
        ValidationSeverity::Information => "Info"@,
        ValidationSeverity::Warning => "Warning"@,
        ValidationSeverity::Error => "Error"@,
    }
}

pub open spec fn separator() -> Seq<char> {
    " · "@
}

/// The one-line summary of a problem: severity, change, province, state
/// and whether it blocks saving, joined by a dot, then a dash and the
/// message.
pub open spec fn summary_text(source: ValidationSourceFilter, d: ProjectValidationDiagnostic) -> Seq<char> {
    let head = severity_label(d.severity) + separator() + source.label_spec();
    let with_province = match d.province_id {
        Some(id) => head + separator() + "Province "@ + decimal(id as nat),
        None => head,
    };
    let with_state = match d.state_id {
        Some(id) => with_province + separator() + "State "@ + decimal(id as nat),
        None => with_province,
    };
    let context = if d.blocks_save {
        with_state + separator() + "Blocks Save"@
    } else {
        with_state
    };
    context + " — "@ + d.message@
}

pub fn validation_problem_summary(source: &ValidationSourceFilter, diagnostic: &ProjectValidationDiagnostic) -> (r: String)
    ensures
        r@ == summary_text(*source, *diagnostic),
{
    let mut out = match diagnostic.severity {
        ValidationSeverity::Information => String::from_str("Info"),
        ValidationSeverity::Warning => String::from_str("Warning"),
        ValidationSeverity::Error => String::from_str("Error"),
    };
    out.append(" · ");
    out.append(source.label());
    if let Some(id) = diagnostic.province_id {
        out.append(" · ");
        out.append("Province ");
        push_decimal(&mut out, id as u64);
    }
    if let Some(id) = diagnostic.state_id {
        out.append(" · ");
        out.append("State ");
        push_decimal(&mut out, id as u64);
    }
    if diagnostic.blocks_save {
        out.append(" · ");
        out.append("Blocks Save");
    }
    out.append(" — ");
    out.append(diagnostic.message.as_str());
    proof {
        assert(out@ =~= summary_text(*source, *diagnostic));
    }
    out
}

/// The shown problems that block saving: errors that are new or
/// aggravated, as positions among `items`.
pub fn project_validation_blockers(items: &Vec<(ValidationSourceFilter, ProjectValidationDiagnostic)>) -> (r: Vec<usize>)
    ensures
        forall|k: int| 0 <= k < r@.len() ==> r@[k] < items@.len() && {
            let (source, d) = items@[r@[k] as int];
            d.severity == ValidationSeverity::Error && (source == ValidationSourceFilter::New || source == ValidationSourceFilter::Aggravated)
        },
        forall|k: int, l: int| 0 <= k < l < r@.len() ==> r@[k] < r@[l],
        forall|i: int| 0 <= i < items@.len() && items@[i].1.severity == ValidationSeverity::Error
            && (items@[i].0 == ValidationSourceFilter::New || items@[i].0 == ValidationSourceFilter::Aggravated)
            ==> exists|k: int| 0 <= k < r@.len() && r@[k] == i,
{
    let mut out: Vec<usize> = Vec::new();
    let mut i: usize = 0;
    while i < items.len()
        invariant
            i <= items@.len(),
            forall|k: int| 0 <= k < out@.len() ==> out@[k] < i && {
                let (source, d) = items@[out@[k] as int];
                d.severity == ValidationSeverity::Error && (source == ValidationSourceFilter::New || source == ValidationSourceFilter::Aggravated)
            },
            forall|k: int, l: int| 0 <= k < l < out@.len() ==> out@[k] < out@[l],
            forall|j: int| 0 <= j < i && items@[j].1.severity == ValidationSeverity::Error
                && (items@[j].0 == ValidationSourceFilter::New || items@[j].0 == ValidationSourceFilter::Aggravated)
                ==> exists|k: int| 0 <= k < out@.len() && out@[k] == j,
        decreases items@.len() - i,
    {
        let source = items[i].0;
        if items[i].1.severity == ValidationSeverity::Error && (source == ValidationSourceFilter::New || source == ValidationSourceFilter::Aggravated) {
            let ghost before = out@;
            out.push(i);
            proof {
                assert forall|j: int| 0 <= j < i + 1 && items@[j].1.severity == ValidationSeverity::Error
                    && (items@[j].0 == ValidationSourceFilter::New || items@[j].0 == ValidationSourceFilter::Aggravated)
                    implies exists|k: int| 0 <= k < out@.len() && out@[k] == j by {
                    if j < i {
                        let k = choose|k: int| 0 <= k < before.len() && before[k] == j;
                        assert(out@[k] == j);
                    } else {
                        assert(out@[out@.len() - 1] == j);
                    }
                }
            }
        }
        i = i + 1;
    }
    out
}

/// What the problems list shows: with the initial filters it shows every
/// problem that is not resolved, and never a resolved one; each filter lets
/// through only problems of its own kind; asking for blocking problems only
/// hides every problem that does not block saving; narrowing a filter never
/// shows a problem that the open filter hides. Errors sort before warnings,
/// and warnings before information.
pub proof fn lemma_problem_filter_laws(
    state: ProblemsUiState,
    source: ValidationSourceFilter,
    d: ProjectValidationDiagnostic,
)
    ensures
        problem_shown(ProblemsUiState::initial(), source, d) <==> source != ValidationSourceFilter::Resolved,
        !problem_shown(state, ValidationSourceFilter::Resolved, d),
        state.severity == ValidationSeverityFilter::Errors && problem_shown(state, source, d) ==> d.severity
            == ValidationSeverity::Error,
        state.severity == ValidationSeverityFilter::Warnings && problem_shown(state, source, d) ==> d.severity
            == ValidationSeverity::Warning,
        state.severity == ValidationSeverityFilter::Information && problem_shown(state, source, d) ==> d.severity
            == ValidationSeverity::Information,
        state.domain == ValidationDomainFilter::ProvinceMap && problem_shown(state, source, d) ==> d.domain
            == ProjectValidationDomain::Province,
        state.domain == ValidationDomainFilter::Definition && problem_shown(state, source, d) ==> d.domain
            == ProjectValidationDomain::Definition,
        state.domain == ValidationDomainFilter::CrossDomain && problem_shown(state, source, d) ==> d.domain
            == ProjectValidationDomain::CrossDomain,
        state.blocking_only && problem_shown(state, source, d) ==> d.blocks_save,
        problem_shown(state, source, d) ==> problem_shown(
            ProblemsUiState { severity: ValidationSeverityFilter::All, domain: ValidationDomainFilter::All, blocking_only: false, ..state },
            source,
            d,
        ),
        ValidationSeverity::Error.rank_spec() < ValidationSeverity::Warning.rank_spec(),
        ValidationSeverity::Warning.rank_spec() < ValidationSeverity::Information.rank_spec(),
{
}

} // verus!
