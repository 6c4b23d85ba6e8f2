//! Project diagnostics: stable codes, domains, severities and summaries.
use vstd::prelude::*;
use crate::lexicographic::{
    enc, enc_opt, lemma_lex_asymmetric, lemma_lex_irreflexive, lemma_lex_total, lemma_lex_transitive,
    lex_less, lex_less_exec, opt_text_code, push_enc, text_code, text_code_vec,
};
use crate::state::opt_str_view;
use crate::fields::{first_match, lemma_first_match};

verus! {

/// A byte range inside a source text.
#[derive(Debug, Clone, Copy, PartialEq, Eq, Default, Structural)]
pub struct TextSpan {
    pub start: usize,
    pub len: usize,
}

impl TextSpan {
    pub fn new(start: usize, len: usize) -> (r: Self)
        ensures
            r.start == start,
            r.len == len,
    {
        TextSpan { start, len }
    }
}

#[derive(Debug, Clone, Copy, PartialEq, Eq, PartialOrd, Ord, Structural)]
pub enum DiagnosticSeverity {
    Info,
    Warning,
    Error,
}

impl DiagnosticSeverity {
    /// Another name for `Info`.
    #[allow(non_upper_case_globals)]
    pub const Information: DiagnosticSeverity = DiagnosticSeverity::Info;

    /// Sort rank: errors first, then warnings, then information.
    pub open spec fn rank_spec(self) -> u8 {
        match self {
            DiagnosticSeverity::Error => 0,
            DiagnosticSeverity::Warning => 1,
            DiagnosticSeverity::Info => 2,
        }
    }

    pub fn rank(self) -> (r: u8)
        ensures
            r == self.rank_spec(),
    {
        match self {
            DiagnosticSeverity::Error => 0,
            DiagnosticSeverity::Warning => 1,
            DiagnosticSeverity::Info => 2,
        }
    }
}

#[derive(Debug, Clone, Copy, PartialEq, Eq, PartialOrd, Ord, Structural)]
pub enum DiagnosticDomain {
    Project,
    ProvinceMap,
    Definition,
    States,
    CrossDomain,
    Transaction,
}

#[derive(Debug, Clone, Copy, PartialEq, Eq, PartialOrd, Ord, Structural)]
pub enum ProjectDiagnosticKind {
    InvalidStateFile,
    EmptyStateFile,
    SyntaxError,
    MissingStateBlock,
    MultipleStateBlocks,
    MissingStateId,
    InvalidStateId,
    ZeroStateId,
    DuplicateStateId,
    MissingProvinces,
    EmptyProvinces,
    DuplicateProvinceInState,
    ProvinceInMultipleStates,
    UnknownProvince,
    LandProvinceWithoutState,
    MissingStateCategory,
    InvalidManpower,
    InvalidResource,
    InvalidBuilding,
    InvalidField,
    MissingStateName,
    MissingOwner,
    MissingHistory,
    StateNameIdMismatch,
    ProvinceBuildingOutsideState,
    VictoryPointOutsideState,
    StateEditSession,
    InvalidProvinceBitmap,
    InvalidDefinition,
    DuplicateProvinceId,
    DuplicateProvinceRgb,
    MissingDefinitionForColor,
    UnusedDefinition,
    InvalidProvinceType,
    InvalidCoastal,
    InvalidContinent,
    SeaOrLakeAssigned,
    NavalBaseNonCoastal,
    CandidateMismatch,
    ExternalChange,
    TransactionFailure,
}

/// The stable machine-readable code of each diagnostic kind.
pub open spec fn kind_code(kind: ProjectDiagnosticKind) -> Seq<char> {
    match kind {
        ProjectDiagnosticKind::InvalidStateFile => "states.file.invalid"@,
        ProjectDiagnosticKind::EmptyStateFile => "states.file.empty"@,
        ProjectDiagnosticKind::SyntaxError => "states.syntax.error"@,
        ProjectDiagnosticKind::MissingStateBlock => "states.block.missing"@,
        ProjectDiagnosticKind::MultipleStateBlocks => "states.block.multiple"@,
        ProjectDiagnosticKind::MissingStateId => "states.id.missing"@,
        ProjectDiagnosticKind::InvalidStateId => "states.id.invalid"@,
        ProjectDiagnosticKind::ZeroStateId => "states.id.zero"@,
        ProjectDiagnosticKind::DuplicateStateId => "states.id.duplicate"@,
        ProjectDiagnosticKind::MissingProvinces => "states.provinces.missing"@,
        ProjectDiagnosticKind::EmptyProvinces => "states.provinces.empty"@,
        ProjectDiagnosticKind::DuplicateProvinceInState => "states.province.duplicate"@,
        ProjectDiagnosticKind::ProvinceInMultipleStates => "cross.province.multiple_states"@,
        ProjectDiagnosticKind::UnknownProvince => "cross.province.unknown"@,
        ProjectDiagnosticKind::LandProvinceWithoutState => "cross.land.unassigned"@,
        ProjectDiagnosticKind::MissingStateCategory => "states.category.missing"@,
        ProjectDiagnosticKind::InvalidManpower => "states.manpower.invalid"@,
        ProjectDiagnosticKind::InvalidResource => "states.resource.invalid"@,
        ProjectDiagnosticKind::InvalidBuilding => "states.building.invalid"@,
        ProjectDiagnosticKind::InvalidField => "states.field.invalid"@,
        ProjectDiagnosticKind::MissingStateName => "states.name.missing"@,
        ProjectDiagnosticKind::MissingOwner => "states.owner.missing"@,
        ProjectDiagnosticKind::MissingHistory => "states.history.missing"@,
        ProjectDiagnosticKind::StateNameIdMismatch => "states.name_id.mismatch"@,
        ProjectDiagnosticKind::ProvinceBuildingOutsideState => "cross.building.outside_state"@,
        ProjectDiagnosticKind::VictoryPointOutsideState => "cross.victory_point.outside_state"@,
        ProjectDiagnosticKind::StateEditSession => "states.edit.session"@,
        ProjectDiagnosticKind::InvalidProvinceBitmap => "province.bitmap.invalid"@,
        ProjectDiagnosticKind::InvalidDefinition => "definition.invalid"@,
        ProjectDiagnosticKind::DuplicateProvinceId => "definition.id.duplicate"@,
        ProjectDiagnosticKind::DuplicateProvinceRgb => "definition.rgb.duplicate"@,
        ProjectDiagnosticKind::MissingDefinitionForColor => "cross.bitmap_color.missing_definition"@,
        ProjectDiagnosticKind::UnusedDefinition => "cross.definition.unused"@,
        ProjectDiagnosticKind::InvalidProvinceType => "definition.type.invalid"@,
        ProjectDiagnosticKind::InvalidCoastal => "definition.coastal.invalid"@,
        ProjectDiagnosticKind::InvalidContinent => "definition.continent.invalid"@,
        ProjectDiagnosticKind::SeaOrLakeAssigned => "cross.non_land.assigned"@,
        ProjectDiagnosticKind::NavalBaseNonCoastal => "cross.naval_base.non_coastal"@,
        ProjectDiagnosticKind::CandidateMismatch => "project.candidate.mismatch"@,
        ProjectDiagnosticKind::ExternalChange => "transaction.external_change"@,
        ProjectDiagnosticKind::TransactionFailure => "transaction.failure"@,
    }
}

/// The domain each diagnostic kind belongs to.
pub open spec fn kind_domain(kind: ProjectDiagnosticKind) -> DiagnosticDomain {
    match kind {
        ProjectDiagnosticKind::InvalidProvinceBitmap => DiagnosticDomain::ProvinceMap,
        ProjectDiagnosticKind::InvalidDefinition
        | ProjectDiagnosticKind::DuplicateProvinceId
        | ProjectDiagnosticKind::DuplicateProvinceRgb
        | ProjectDiagnosticKind::InvalidProvinceType
        | ProjectDiagnosticKind::InvalidCoastal
        | ProjectDiagnosticKind::InvalidContinent => DiagnosticDomain::Definition,
        ProjectDiagnosticKind::ProvinceInMultipleStates
        | ProjectDiagnosticKind::UnknownProvince
        | ProjectDiagnosticKind::LandProvinceWithoutState
        | ProjectDiagnosticKind::ProvinceBuildingOutsideState
        | ProjectDiagnosticKind::VictoryPointOutsideState
        | ProjectDiagnosticKind::MissingDefinitionForColor
        | ProjectDiagnosticKind::UnusedDefinition
        | ProjectDiagnosticKind::SeaOrLakeAssigned
        | ProjectDiagnosticKind::NavalBaseNonCoastal => DiagnosticDomain::CrossDomain,
        ProjectDiagnosticKind::ExternalChange
        | ProjectDiagnosticKind::TransactionFailure => DiagnosticDomain::Transaction,
        ProjectDiagnosticKind::CandidateMismatch => DiagnosticDomain::Project,
        _ => DiagnosticDomain::States,
    }
}

impl ProjectDiagnosticKind {
    pub fn code(self) -> (r: &'static str)
        ensures
            r@ == kind_code(self),
    {
        match self {
            ProjectDiagnosticKind::InvalidStateFile => "states.file.invalid",
            ProjectDiagnosticKind::EmptyStateFile => "states.file.empty",
            ProjectDiagnosticKind::SyntaxError => "states.syntax.error",
            ProjectDiagnosticKind::MissingStateBlock => "states.block.missing",
            ProjectDiagnosticKind::MultipleStateBlocks => "states.block.multiple",
            ProjectDiagnosticKind::MissingStateId => "states.id.missing",
            ProjectDiagnosticKind::InvalidStateId => "states.id.invalid",
            ProjectDiagnosticKind::ZeroStateId => "states.id.zero",
            ProjectDiagnosticKind::DuplicateStateId => "states.id.duplicate",
            ProjectDiagnosticKind::MissingProvinces => "states.provinces.missing",
            ProjectDiagnosticKind::EmptyProvinces => "states.provinces.empty",
            ProjectDiagnosticKind::DuplicateProvinceInState => "states.province.duplicate",
            ProjectDiagnosticKind::ProvinceInMultipleStates => "cross.province.multiple_states",
            ProjectDiagnosticKind::UnknownProvince => "cross.province.unknown",
            ProjectDiagnosticKind::LandProvinceWithoutState => "cross.land.unassigned",
            ProjectDiagnosticKind::MissingStateCategory => "states.category.missing",
            ProjectDiagnosticKind::InvalidManpower => "states.manpower.invalid",
            ProjectDiagnosticKind::InvalidResource => "states.resource.invalid",
            ProjectDiagnosticKind::InvalidBuilding => "states.building.invalid",
            ProjectDiagnosticKind::InvalidField => "states.field.invalid",
            ProjectDiagnosticKind::MissingStateName => "states.name.missing",
            ProjectDiagnosticKind::MissingOwner => "states.owner.missing",
            ProjectDiagnosticKind::MissingHistory => "states.history.missing",
            ProjectDiagnosticKind::StateNameIdMismatch => "states.name_id.mismatch",
            ProjectDiagnosticKind::ProvinceBuildingOutsideState => "cross.building.outside_state",
            ProjectDiagnosticKind::VictoryPointOutsideState => "cross.victory_point.outside_state",
            ProjectDiagnosticKind::StateEditSession => "states.edit.session",
            ProjectDiagnosticKind::InvalidProvinceBitmap => "province.bitmap.invalid",
            ProjectDiagnosticKind::InvalidDefinition => "definition.invalid",
            ProjectDiagnosticKind::DuplicateProvinceId => "definition.id.duplicate",
            ProjectDiagnosticKind::DuplicateProvinceRgb => "definition.rgb.duplicate",
            ProjectDiagnosticKind::MissingDefinitionForColor => "cross.bitmap_color.missing_definition",
            ProjectDiagnosticKind::UnusedDefinition => "cross.definition.unused",
            ProjectDiagnosticKind::InvalidProvinceType => "definition.type.invalid",
            ProjectDiagnosticKind::InvalidCoastal => "definition.coastal.invalid",
            ProjectDiagnosticKind::InvalidContinent => "definition.continent.invalid",
            ProjectDiagnosticKind::SeaOrLakeAssigned => "cross.non_land.assigned",
            ProjectDiagnosticKind::NavalBaseNonCoastal => "cross.naval_base.non_coastal",
            ProjectDiagnosticKind::CandidateMismatch => "project.candidate.mismatch",
            ProjectDiagnosticKind::ExternalChange => "transaction.external_change",
            ProjectDiagnosticKind::TransactionFailure => "transaction.failure",
        }
    }

    pub fn domain(self) -> (r: DiagnosticDomain)
        ensures
            r == kind_domain(self),
    {
        match self {
            ProjectDiagnosticKind::InvalidProvinceBitmap => DiagnosticDomain::ProvinceMap,
            ProjectDiagnosticKind::InvalidDefinition
            | ProjectDiagnosticKind::DuplicateProvinceId
            | ProjectDiagnosticKind::DuplicateProvinceRgb
            | ProjectDiagnosticKind::InvalidProvinceType
            | ProjectDiagnosticKind::InvalidCoastal
            | ProjectDiagnosticKind::InvalidContinent => DiagnosticDomain::Definition,
            ProjectDiagnosticKind::ProvinceInMultipleStates
            | ProjectDiagnosticKind::UnknownProvince
            | ProjectDiagnosticKind::LandProvinceWithoutState
            | ProjectDiagnosticKind::ProvinceBuildingOutsideState
            | ProjectDiagnosticKind::VictoryPointOutsideState
            | ProjectDiagnosticKind::MissingDefinitionForColor
            | ProjectDiagnosticKind::UnusedDefinition
            | ProjectDiagnosticKind::SeaOrLakeAssigned
            | ProjectDiagnosticKind::NavalBaseNonCoastal => DiagnosticDomain::CrossDomain,
            ProjectDiagnosticKind::ExternalChange
            | ProjectDiagnosticKind::TransactionFailure => DiagnosticDomain::Transaction,
            ProjectDiagnosticKind::CandidateMismatch => DiagnosticDomain::Project,
            _ => DiagnosticDomain::States,
        }
    }
}

/// Where a diagnostic points: file, related file, span, line/column, province and state.
#[derive(Debug, Clone, PartialEq, Eq, Default)]
pub struct DiagnosticLocation {
    pub file_path: Option<String>,
    pub related_path: Option<String>,
    pub byte_span: Option<TextSpan>,
    pub line: Option<usize>,
    pub column: Option<usize>,
    pub province_id: Option<u32>,
    pub state_id: Option<u32>,
}

#[derive(Debug, Clone, PartialEq, Eq, Default)]
pub struct DiagnosticSummary {
    pub total: usize,
    pub information: usize,
    pub warnings: usize,
    pub errors: usize,
    pub blocking: usize,
}

#[derive(Debug, Clone, PartialEq, Eq)]
pub struct ProjectDiagnostic {
    pub kind: ProjectDiagnosticKind,
    pub severity: DiagnosticSeverity,
    pub domain: DiagnosticDomain,
    pub code: String,
    pub message_key: String,
    pub path: Option<String>,
    pub related_path: Option<String>,
    pub span: Option<TextSpan>,
    pub line: Option<usize>,
    pub column: Option<usize>,
    pub province_id: Option<u32>,
    pub state_id: Option<u32>,
    pub message: String,
    pub blocks_save: bool,
}

/// Plain-value view of a diagnostic.
pub struct DiagnosticView {
    pub kind: ProjectDiagnosticKind,
    pub severity: DiagnosticSeverity,
    pub domain: DiagnosticDomain,
    pub code: Seq<char>,
    pub message_key: Seq<char>,
    pub path: Option<Seq<char>>,
    pub related_path: Option<Seq<char>>,
    pub span: Option<TextSpan>,
    pub line: Option<usize>,
    pub column: Option<usize>,
    pub province_id: Option<u32>,
    pub state_id: Option<u32>,
    pub message: Seq<char>,
    pub blocks_save: bool,
}

impl View for ProjectDiagnostic {
    type V = DiagnosticView;

    open spec fn view(&self) -> DiagnosticView {
        DiagnosticView {
            kind: self.kind,
            severity: self.severity,
            domain: self.domain,
            code: self.code@,
            message_key: self.message_key@,
            path: opt_string_view(self.path),
            related_path: opt_string_view(self.related_path),
            span: self.span,
            line: self.line,
            column: self.column,
            province_id: self.province_id,
            state_id: self.state_id,
            message: self.message@,
            blocks_save: self.blocks_save,
        }
    }
}

/// The view of a new diagnostic: what `ProjectDiagnostic::new` makes.
pub open spec fn new_diagnostic_view(
    kind: ProjectDiagnosticKind,
    severity: DiagnosticSeverity,
    path: Option<Seq<char>>,
    span: Option<TextSpan>,
    message: Seq<char>,
) -> DiagnosticView {
    DiagnosticView {
        kind,
        severity,
        domain: kind_domain(kind),
        code: kind_code(kind),
        message_key: "diagnostic."@ + kind_code(kind),
        path,
        related_path: None,
        span,
        line: None,
        column: None,
        province_id: None,
        state_id: None,
        message,
        blocks_save: severity == DiagnosticSeverity::Error,
    }
}

pub open spec fn opt_string_view(s: Option<String>) -> Option<Seq<char>> {
    match s {
        Some(v) => Some(v@),
        None => None,
    }
}

pub fn clone_opt_string(s: &Option<String>) -> (r: Option<String>)
    ensures
        opt_string_view(r) == opt_string_view(*s),
{
    match s {
        Some(v) => Some(v.clone()),
        None => None,
    }
}

/// Number of diagnostics in `s` with the given severity.
pub open spec fn count_severity(s: Seq<ProjectDiagnostic>, severity: DiagnosticSeverity) -> nat
    decreases s.len(),
{
    if s.len() == 0 {
        0
    } else {
        count_severity(s.drop_last(), severity) + (if s.last().severity == severity {
            1nat
        } else {
            0nat
        })
    }
}

/// Number of diagnostics in `s` that block saving.
pub open spec fn count_blocking(s: Seq<ProjectDiagnostic>) -> nat
    decreases s.len(),
{
    if s.len() == 0 {
        0
    } else {
        count_blocking(s.drop_last()) + (if s.last().blocks_save {
            1nat
        } else {
            0nat
        })
    }
}

proof fn lemma_counts_bounded(s: Seq<ProjectDiagnostic>, severity: DiagnosticSeverity)
    ensures
        count_severity(s, severity) <= s.len(),
        count_blocking(s) <= s.len(),
    decreases s.len(),
{
    if s.len() > 0 {
        lemma_counts_bounded(s.drop_last(), severity);
    }
}

impl ProjectDiagnostic {
    /// A diagnostic with the kind's domain and code, `diagnostic.<code>` as its
    /// message key, no province, state, line or related path, and blocking
    /// saves exactly when it is an error.
    pub fn new(
        kind: ProjectDiagnosticKind,
        severity: DiagnosticSeverity,
        path: Option<String>,
        span: Option<TextSpan>,
        message: String,
    ) -> (r: Self)
        ensures
            r.kind == kind,
            r.severity == severity,
            r.domain == kind_domain(kind),
            r.code@ == kind_code(kind),
            r.message_key@ == "diagnostic."@ + kind_code(kind),
            opt_string_view(r.path) == opt_string_view(path),
            r.related_path is None,
            r.span == span,
            r.line is None,
            r.column is None,
            r.province_id is None,
            r.state_id is None,
            r.message@ == message@,
            r.blocks_save == (severity == DiagnosticSeverity::Error),
            r@ == new_diagnostic_view(kind, severity, opt_string_view(path), span, message@),
    {
        let code = kind.code();
        let mut message_key = String::from_str("diagnostic.");
        message_key.append(code);
        ProjectDiagnostic {
            kind,
            severity,
            domain: kind.domain(),
            code: code.to_owned(),
            message_key,
            path,
            related_path: None,
            span,
            line: None,
            column: None,
            province_id: None,
            state_id: None,
            message,
            blocks_save: severity == DiagnosticSeverity::Error,
        }
    }

    pub fn with_domain(self, domain: DiagnosticDomain) -> (r: Self)
        ensures
            r == (ProjectDiagnostic { domain, ..self }),
    {
        let mut out = self;
        out.domain = domain;
        out
    }

    pub fn with_province(self, province_id: u32) -> (r: Self)
        ensures
            r == (ProjectDiagnostic { province_id: Some(province_id), ..self }),
    {
        let mut out = self;
        out.province_id = Some(province_id);
        out
    }

    pub fn with_state(self, state_id: u32) -> (r: Self)
        ensures
            r == (ProjectDiagnostic { state_id: Some(state_id), ..self }),
    {
        let mut out = self;
        out.state_id = Some(state_id);
        out
    }

    pub fn with_line_column(self, line: usize, column: usize) -> (r: Self)
        ensures
            r == (ProjectDiagnostic { line: Some(line), column: Some(column), ..self }),
    {
        let mut out = self;
        out.line = Some(line);
        out.column = Some(column);
        out
    }

    pub fn with_blocks_save(self, blocks_save: bool) -> (r: Self)
        ensures
            r == (ProjectDiagnostic { blocks_save, ..self }),
    {
        let mut out = self;
        out.blocks_save = blocks_save;
        out
    }

    pub fn location(&self) -> (r: DiagnosticLocation)
        ensures
            opt_string_view(r.file_path) == opt_string_view(self.path),
            opt_string_view(r.related_path) == opt_string_view(self.related_path),
            r.byte_span == self.span,
            r.line == self.line,
            r.column == self.column,
            r.province_id == self.province_id,
            r.state_id == self.state_id,
    {
        DiagnosticLocation {
            file_path: clone_opt_string(&self.path),
            related_path: clone_opt_string(&self.related_path),
            byte_span: self.span,
            line: self.line,
            column: self.column,
            province_id: self.province_id,
            state_id: self.state_id,
        }
    }

    /// A copy of the diagnostic.
    pub fn duplicate(&self) -> (r: Self)
        ensures
            r@ == self@,
    {
        ProjectDiagnostic {
            kind: self.kind,
            severity: self.severity,
            domain: self.domain,
            code: self.code.clone(),
            message_key: self.message_key.clone(),
            path: clone_opt_string(&self.path),
            related_path: clone_opt_string(&self.related_path),
            span: self.span,
            line: self.line,
            column: self.column,
            province_id: self.province_id,
            state_id: self.state_id,
            message: self.message.clone(),
            blocks_save: self.blocks_save,
        }
    }

    /// Counts of all, information, warning, error and save-blocking diagnostics.
    pub fn summary(diagnostics: &[ProjectDiagnostic]) -> (r: DiagnosticSummary)
        ensures
            r.total == diagnostics@.len(),
            r.information == count_severity(diagnostics@, DiagnosticSeverity::Info),
            r.warnings == count_severity(diagnostics@, DiagnosticSeverity::Warning),
            r.errors == count_severity(diagnostics@, DiagnosticSeverity::Error),
            r.blocking == count_blocking(diagnostics@),
    {
        let mut summary = DiagnosticSummary {
            total: diagnostics.len(),
            information: 0,
            warnings: 0,
            errors: 0,
            blocking: 0,
        };
        let mut i: usize = 0;
        while i < diagnostics.len()
            invariant
                i <= diagnostics@.len(),
                summary.total == diagnostics@.len(),
                summary.information == count_severity(diagnostics@.take(i as int), DiagnosticSeverity::Info),
                summary.warnings == count_severity(diagnostics@.take(i as int), DiagnosticSeverity::Warning),
                summary.errors == count_severity(diagnostics@.take(i as int), DiagnosticSeverity::Error),
                summary.blocking == count_blocking(diagnostics@.take(i as int)),
            decreases diagnostics@.len() - i,
        {
            let ghost prefix = diagnostics@.take(i as int);
            let ghost next = diagnostics@.take(i + 1);
            proof {
                assert(next.drop_last() =~= prefix);
                lemma_counts_bounded(prefix, DiagnosticSeverity::Info);
                lemma_counts_bounded(prefix, DiagnosticSeverity::Warning);
                lemma_counts_bounded(prefix, DiagnosticSeverity::Error);
            }
            match diagnostics[i].severity {
                DiagnosticSeverity::Info => summary.information = summary.information + 1,
                DiagnosticSeverity::Warning => summary.warnings = summary.warnings + 1,
                DiagnosticSeverity::Error => summary.errors = summary.errors + 1,
            }
            if diagnostics[i].blocks_save {
                summary.blocking = summary.blocking + 1;
            }
            i = i + 1;
        }
        proof {
            assert(diagnostics@.take(diagnostics@.len() as int) =~= diagnostics@);
        }
        summary
    }
}

pub open spec fn domain_code(d: DiagnosticDomain) -> u64 {
    match d {
        DiagnosticDomain::Project => 0,
        DiagnosticDomain::ProvinceMap => 1,
        DiagnosticDomain::Definition => 2,
        DiagnosticDomain::States => 3,
        DiagnosticDomain::CrossDomain => 4,
        DiagnosticDomain::Transaction => 5,
    }
}

fn domain_code_exec(d: DiagnosticDomain) -> (r: u64)
    ensures
        r == domain_code(d),
{
    match d {
        DiagnosticDomain::Project => 0,
        DiagnosticDomain::ProvinceMap => 1,
        DiagnosticDomain::Definition => 2,
        DiagnosticDomain::States => 3,
        DiagnosticDomain::CrossDomain => 4,
        DiagnosticDomain::Transaction => 5,
    }
}

pub open spec fn opt_id_key(o: Option<u32>) -> Seq<u64> {
    match o {
        None => seq![0u64],
        Some(v) => seq![1u64, v as u64],
    }
}

pub open spec fn opt_span_key(o: Option<TextSpan>) -> Seq<u64> {
    match o {
        None => seq![0u64],
        Some(t) => seq![1u64, t.start as u64, t.len as u64],
    }
}

/// The order of diagnostics: severity (errors first), domain, path,
/// state, province, code, then span; absent before present, texts by code
/// point. Two diagnostics with the same key are the same finding told twice.
pub open spec fn diagnostic_key(d: ProjectDiagnostic) -> Seq<u64> {
    seq![d.severity.rank_spec() as u64, domain_code(d.domain)] + enc_opt(
        opt_text_code(opt_str_view(d.path)),
    ) + opt_id_key(d.state_id) + opt_id_key(d.province_id) + enc(text_code(d.code@))
        + opt_span_key(d.span)
}

fn push_opt_id(out: &mut Vec<u64>, o: Option<u32>)
    ensures
        final(out)@ == old(out)@ + opt_id_key(o),
{
    match o {
        None => {
            out.push(0);
        },
        Some(v) => {
            out.push(1);
            out.push(v as u64);
        },
    }
    assert(final(out)@ =~= old(out)@ + opt_id_key(o));
}

fn diagnostic_key_vec(d: &ProjectDiagnostic) -> (r: Vec<u64>)
    ensures
        r@ == diagnostic_key(*d),
{
    let mut out: Vec<u64> = Vec::new();
    out.push(d.severity.rank() as u64);
    out.push(domain_code_exec(d.domain));
    let s0 = Ghost(out@);
    match &d.path {
        None => {
            out.push(0);
        },
        Some(p) => {
            out.push(1);
            let code = text_code_vec(p.as_str());
            proof {
                crate::lexicographic::lemma_text_code(p@, p@);
            }
            push_enc(&mut out, &code);
        },
    }
    assert(out@ =~= s0@ + enc_opt(opt_text_code(opt_str_view(d.path))));
    push_opt_id(&mut out, d.state_id);
    push_opt_id(&mut out, d.province_id);
    let code = text_code_vec(d.code.as_str());
    proof {
        crate::lexicographic::lemma_text_code(d.code@, d.code@);
    }
    push_enc(&mut out, &code);
    let s5 = Ghost(out@);
    match d.span {
        None => {
            out.push(0);
        },
        Some(t) => {
            out.push(1);
            out.push(t.start as u64);
            out.push(t.len as u64);
        },
    }
    assert(out@ =~= s5@ + opt_span_key(d.span));
    assert(out@ =~= diagnostic_key(*d));
    out
}

fn same_key(a: &Vec<u64>, b: &Vec<u64>) -> (r: bool)
    ensures
        r == (a@ == b@),
{
    let less = lex_less_exec(a, b);
    let more = lex_less_exec(b, a);
    proof {
        lemma_lex_total(a@, b@);
        lemma_lex_irreflexive(a@);
    }
    !less && !more
}

/// Whether some diagnostic of `s` has key `k`.
pub open spec fn has_key(s: Seq<ProjectDiagnostic>, k: Seq<u64>) -> bool {
    exists|i: int| 0 <= i < s.len() && diagnostic_key(#[trigger] s[i]) == k
}

/// The first diagnostic of `s` with the key of `d`.
pub open spec fn first_with_key_of(s: Seq<ProjectDiagnostic>, d: ProjectDiagnostic) -> ProjectDiagnostic {
    s[first_match(s, |x: ProjectDiagnostic| diagnostic_key(x) == diagnostic_key(d))]
}

pub open spec fn keys_ascending(s: Seq<ProjectDiagnostic>) -> bool {
    forall|a: int, b: int|
        0 <= a < b < s.len() ==> lex_less(diagnostic_key(s[a]), diagnostic_key(s[b]))
}

pub open spec fn firsts_of(s: Seq<ProjectDiagnostic>, input: Seq<ProjectDiagnostic>, i: int) -> bool {
    forall|j: int|
        0 <= j < s.len() ==> #[trigger] s[j] == first_with_key_of(input, s[j]) && first_match(
            input,
            |x: ProjectDiagnostic| diagnostic_key(x) == diagnostic_key(s[j]),
        ) < i
}

proof fn lemma_has_key_push(t: Seq<ProjectDiagnostic>, d: ProjectDiagnostic, k: Seq<u64>)
    ensures
        has_key(t.push(d), k) == (has_key(t, k) || diagnostic_key(d) == k),
{
    let u = t.push(d);
    if has_key(u, k) {
        let m = choose|m: int| 0 <= m < u.len() && diagnostic_key(#[trigger] u[m]) == k;
        if m < t.len() {
            assert(t[m] == u[m]);
        }
    }
    if has_key(t, k) {
        let m = choose|m: int| 0 <= m < t.len() && diagnostic_key(#[trigger] t[m]) == k;
        assert(u[m] == t[m]);
    }
    if diagnostic_key(d) == k {
        assert(u[t.len() as int] == d);
    }
}

proof fn lemma_has_key_insert(s: Seq<ProjectDiagnostic>, j: int, d: ProjectDiagnostic, k: Seq<u64>)
    requires
        0 <= j <= s.len(),
    ensures
        has_key(s.insert(j, d), k) == (has_key(s, k) || diagnostic_key(d) == k),
{
    let u = s.insert(j, d);
    if has_key(u, k) {
        let m = choose|m: int| 0 <= m < u.len() && diagnostic_key(#[trigger] u[m]) == k;
        if m < j {
            assert(s[m] == u[m]);
        } else if m > j {
            assert(s[m - 1] == u[m]);
        }
    }
    if has_key(s, k) {
        let m = choose|m: int| 0 <= m < s.len() && diagnostic_key(#[trigger] s[m]) == k;
        if m < j {
            assert(u[m] == s[m]);
        } else {
            assert(u[m + 1] == s[m]);
        }
    }
    if diagnostic_key(d) == k {
        assert(u[j] == d);
    }
}

proof fn lemma_place_sorted(before: Seq<ProjectDiagnostic>, j: int, d: ProjectDiagnostic)
    requires
        0 <= j <= before.len(),
        keys_ascending(before),
        forall|m: int| 0 <= m < j ==> lex_less(diagnostic_key(#[trigger] before[m]), diagnostic_key(d)),
        j < before.len() ==> lex_less(diagnostic_key(d), diagnostic_key(before[j])),
    ensures
        keys_ascending(before.insert(j, d)),
        !has_key(before, diagnostic_key(d)),
{
    let u = before.insert(j, d);
    let k = diagnostic_key(d);
    assert forall|a: int, b: int| 0 <= a < b < u.len() implies lex_less(
        diagnostic_key(u[a]),
        diagnostic_key(u[b]),
    ) by {
        if b < j {
            assert(u[a] == before[a] && u[b] == before[b]);
        } else if b == j {
            assert(u[a] == before[a]);
        } else if a < j {
            assert(u[a] == before[a] && u[b] == before[b - 1]);
        } else if a == j {
            assert(u[b] == before[b - 1]);
            if b - 1 > j {
                lemma_lex_transitive(k, diagnostic_key(before[j]), diagnostic_key(before[b - 1]));
            }
        } else {
            assert(u[a] == before[a - 1] && u[b] == before[b - 1]);
        }
    }
    if has_key(before, k) {
        let m = choose|m: int| 0 <= m < before.len() && diagnostic_key(#[trigger] before[m]) == k;
        lemma_lex_irreflexive(k);
        if m > j {
            lemma_lex_transitive(k, diagnostic_key(before[j]), diagnostic_key(before[m]));
        }
    }
}

proof fn lemma_first_key_at(input: Seq<ProjectDiagnostic>, i: int, d: ProjectDiagnostic)
    requires
        0 <= i < input.len(),
        input[i] == d,
        !has_key(input.take(i), diagnostic_key(d)),
    ensures
        first_match(input, |x: ProjectDiagnostic| diagnostic_key(x) == diagnostic_key(d)) == i,
{
    assert forall|m: int| 0 <= m < i implies !((|x: ProjectDiagnostic| diagnostic_key(x)
        == diagnostic_key(d))(#[trigger] input[m])) by {
        assert(input.take(i)[m] == input[m]);
        if diagnostic_key(input[m]) == diagnostic_key(d) {
            assert(has_key(input.take(i), diagnostic_key(d)));
        }
    }
    lemma_first_match(input, |x: ProjectDiagnostic| diagnostic_key(x) == diagnostic_key(d), i);
}

proof fn lemma_keys_after_skip(before: Seq<ProjectDiagnostic>, t: Seq<ProjectDiagnostic>, d: ProjectDiagnostic)
    requires
        forall|k: Seq<u64>| has_key(before, k) == has_key(t, k),
        has_key(before, diagnostic_key(d)),
    ensures
        forall|k: Seq<u64>| has_key(before, k) == has_key(t.push(d), k),
{
    assert forall|k: Seq<u64>| has_key(before, k) == has_key(t.push(d), k) by {
        lemma_has_key_push(t, d, k);
    }
}

proof fn lemma_keys_after_insert(
    before: Seq<ProjectDiagnostic>,
    j: int,
    d: ProjectDiagnostic,
    t: Seq<ProjectDiagnostic>,
)
    requires
        0 <= j <= before.len(),
        forall|k: Seq<u64>| has_key(before, k) == has_key(t, k),
    ensures
        forall|k: Seq<u64>| has_key(before.insert(j, d), k) == has_key(t.push(d), k),
{
    assert forall|k: Seq<u64>| has_key(before.insert(j, d), k) == has_key(t.push(d), k) by {
        lemma_has_key_push(t, d, k);
        lemma_has_key_insert(before, j, d, k);
    }
}

proof fn lemma_firsts_after_insert(
    before: Seq<ProjectDiagnostic>,
    j: int,
    d: ProjectDiagnostic,
    input: Seq<ProjectDiagnostic>,
    i: int,
)
    requires
        0 <= j <= before.len(),
        0 <= i < input.len(),
        input[i] == d,
        firsts_of(before, input, i),
        first_match(input, |x: ProjectDiagnostic| diagnostic_key(x) == diagnostic_key(d)) == i,
    ensures
        firsts_of(before.insert(j, d), input, i + 1),
{
    let u = before.insert(j, d);
    assert forall|m: int| 0 <= m < u.len() implies #[trigger] u[m] == first_with_key_of(input, u[m])
        && first_match(input, |x: ProjectDiagnostic| diagnostic_key(x) == diagnostic_key(u[m]))
        < i + 1 by {
        if m > j {
            assert(u[m] == before[m - 1]);
        } else if m < j {
            assert(u[m] == before[m]);
        }
    }
}

proof fn lemma_firsts_widen(before: Seq<ProjectDiagnostic>, input: Seq<ProjectDiagnostic>, i: int)
    requires
        firsts_of(before, input, i),
    ensures
        firsts_of(before, input, i + 1),
{
}

fn place_first(
    out: &mut Vec<ProjectDiagnostic>,
    out_keys: &mut Vec<Vec<u64>>,
    d: ProjectDiagnostic,
    Ghost(input): Ghost<Seq<ProjectDiagnostic>>,
    Ghost(i): Ghost<int>,
)
    requires
        0 <= i < input.len(),
        input[i] == d,
        old(out)@.len() == old(out_keys)@.len(),
        forall|j: int| 0 <= j < old(out)@.len() ==> (#[trigger] old(out_keys)@[j])@ == diagnostic_key(
            old(out)@[j],
        ),
        keys_ascending(old(out)@),
        forall|k: Seq<u64>| has_key(old(out)@, k) == has_key(input.take(i), k),
        firsts_of(old(out)@, input, i),
    ensures
        final(out)@.len() == final(out_keys)@.len(),
        forall|j: int| 0 <= j < final(out)@.len() ==> (#[trigger] final(out_keys)@[j])@ == diagnostic_key(
            final(out)@[j],
        ),
        keys_ascending(final(out)@),
        forall|k: Seq<u64>| has_key(final(out)@, k) == has_key(input.take(i + 1), k),
        firsts_of(final(out)@, input, i + 1),
{
    let k = diagnostic_key_vec(&d);
    let mut j: usize = 0;
    while j < out_keys.len() && lex_less_exec(&out_keys[j], &k)
        invariant
            j <= out_keys@.len(),
            out@.len() == out_keys@.len(),
            forall|m: int| 0 <= m < j ==> lex_less(#[trigger] out_keys@[m]@, k@),
        decreases out_keys.len() - j,
    {
        j = j + 1;
    }
    let ghost before = out@;
    let ghost before_keys = out_keys@;
    assert(input.take(i + 1) =~= input.take(i).push(d));
    if j < out_keys.len() && same_key(&out_keys[j], &k) {
        proof {
            assert(diagnostic_key(before[j as int]) == k@);
            lemma_keys_after_skip(before, input.take(i), d);
            lemma_firsts_widen(before, input, i);
        }
    } else {
        proof {
            assert forall|m: int| 0 <= m < j implies lex_less(
                diagnostic_key(#[trigger] before[m]),
                diagnostic_key(d),
            ) by {
                assert(before_keys[m]@ == diagnostic_key(before[m]));
            }
            if j < before.len() {
                lemma_lex_total(before_keys[j as int]@, k@);
                assert(before_keys[j as int]@ == diagnostic_key(before[j as int]));
            }
            lemma_place_sorted(before, j as int, d);
            lemma_first_key_at(input, i, d);
            lemma_keys_after_insert(before, j as int, d, input.take(i));
            lemma_firsts_after_insert(before, j as int, d, input, i);
        }
        out.insert(j, d);
        out_keys.insert(j, k);
        proof {
            assert forall|m: int| 0 <= m < out@.len() implies (#[trigger] out_keys@[m])@
                == diagnostic_key(out@[m]) by {
                if m > j {
                    assert(out@[m] == before[m - 1]);
                    assert(out_keys@[m] == before_keys[m - 1]);
                } else if m < j {
                    assert(out@[m] == before[m]);
                    assert(out_keys@[m] == before_keys[m]);
                }
            }
        }
    }
}

impl ProjectDiagnostic {
    /// Orders diagnostics by severity (errors first), domain, path, state,
    /// province, code and span, and keeps one diagnostic per identity: the
    /// first given.
    pub fn sort_and_dedup(diagnostics: &mut Vec<ProjectDiagnostic>)
        ensures
            keys_ascending(final(diagnostics)@),
            forall|k: Seq<u64>| has_key(final(diagnostics)@, k) == has_key(old(diagnostics)@, k),
            firsts_of(final(diagnostics)@, old(diagnostics)@, old(diagnostics)@.len() as int),
    {
        let ghost input = diagnostics@;
        let mut rest: Vec<ProjectDiagnostic> = Vec::new();
        std::mem::swap(&mut rest, diagnostics);
        let mut out: Vec<ProjectDiagnostic> = Vec::new();
        let mut out_keys: Vec<Vec<u64>> = Vec::new();
        let mut i: usize = 0;
        let n = rest.len();
        assert(input.take(0) =~= Seq::<ProjectDiagnostic>::empty());
        assert(input.skip(0) =~= input);
        while rest.len() > 0
            invariant
                input.len() == n,
                i + rest@.len() == n,
                rest@ == input.skip(i as int),
                out@.len() == out_keys@.len(),
                forall|j: int| 0 <= j < out@.len() ==> (#[trigger] out_keys@[j])@ == diagnostic_key(
                    out@[j],
                ),
                keys_ascending(out@),
                forall|k: Seq<u64>| has_key(out@, k) == has_key(input.take(i as int), k),
                firsts_of(out@, input, i as int),
            decreases rest.len(),
        {
            let d = rest.remove(0);
            assert(input[i as int] == d);
            place_first(&mut out, &mut out_keys, d, Ghost(input), Ghost(i as int));
            assert(rest@ =~= input.skip(i + 1));
            i = i + 1;
        }
        assert(input.take(n as int) =~= input);
        *diagnostics = out;
    }
}

proof fn lemma_later_keys_greater(s: Seq<ProjectDiagnostic>, k: Seq<u64>)
    requires
        keys_ascending(s),
        s.len() > 0,
        k == diagnostic_key(s[0]),
    ensures
        !has_key(s.drop_first(), k),
        forall|q: Seq<u64>| q != k ==> (has_key(s, q) == has_key(s.drop_first(), q)),
{
    let t = s.drop_first();
    if has_key(t, k) {
        let i = choose|i: int| 0 <= i < t.len() && diagnostic_key(#[trigger] t[i]) == k;
        assert(t[i] == s[i + 1]);
        lemma_lex_irreflexive(k);
    }
    assert forall|q: Seq<u64>| q != k implies (has_key(s, q) == has_key(t, q)) by {
        if has_key(s, q) {
            let i = choose|i: int| 0 <= i < s.len() && diagnostic_key(#[trigger] s[i]) == q;
            assert(i > 0);
            assert(t[i - 1] == s[i]);
        }
        if has_key(t, q) {
            let i = choose|i: int| 0 <= i < t.len() && diagnostic_key(#[trigger] t[i]) == q;
            assert(s[i + 1] == t[i]);
        }
    }
}

proof fn lemma_keys_unique(a: Seq<ProjectDiagnostic>, b: Seq<ProjectDiagnostic>)
    requires
        keys_ascending(a),
        keys_ascending(b),
        forall|k: Seq<u64>| has_key(a, k) == has_key(b, k),
    ensures
        a.len() == b.len(),
        forall|j: int| 0 <= j < a.len() ==> diagnostic_key(#[trigger] a[j]) == diagnostic_key(b[j]),
    decreases a.len(),
{
    if a.len() == 0 {
        if b.len() > 0 {
            assert(has_key(b, diagnostic_key(b[0])));
        }
    } else if b.len() == 0 {
        assert(has_key(a, diagnostic_key(a[0])));
    } else {
        let ka = diagnostic_key(a[0]);
        let kb = diagnostic_key(b[0]);
        assert(has_key(a, ka));
        assert(has_key(b, kb));
        let i = choose|i: int| 0 <= i < b.len() && diagnostic_key(#[trigger] b[i]) == ka;
        let m = choose|m: int| 0 <= m < a.len() && diagnostic_key(#[trigger] a[m]) == kb;
        if i > 0 && m > 0 {
            assert(lex_less(kb, ka));
            assert(lex_less(ka, kb));
            lemma_lex_asymmetric(ka, kb);
        }
        assert(ka == kb);
        lemma_later_keys_greater(a, ka);
        lemma_later_keys_greater(b, kb);
        let a1 = a.drop_first();
        let b1 = b.drop_first();
        assert(keys_ascending(a1)) by {
            assert forall|x: int, y: int| 0 <= x < y < a1.len() implies lex_less(
                diagnostic_key(a1[x]),
                diagnostic_key(a1[y]),
            ) by {
                assert(a1[x] == a[x + 1] && a1[y] == a[y + 1]);
            }
        }
        assert(keys_ascending(b1)) by {
            assert forall|x: int, y: int| 0 <= x < y < b1.len() implies lex_less(
                diagnostic_key(b1[x]),
                diagnostic_key(b1[y]),
            ) by {
                assert(b1[x] == b[x + 1] && b1[y] == b[y + 1]);
            }
        }
        assert forall|k: Seq<u64>| has_key(a1, k) == has_key(b1, k) by {
            if k != ka {
                assert(has_key(a, k) == has_key(a1, k));
                assert(has_key(b, k) == has_key(b1, k));
            }
        }
        lemma_keys_unique(a1, b1);
        assert forall|j: int| 0 <= j < a.len() implies diagnostic_key(#[trigger] a[j]) == diagnostic_key(b[j]) by {
            if j > 0 {
                assert(a[j] == a1[j - 1] && b[j] == b1[j - 1]);
                assert(diagnostic_key(a1[j - 1]) == diagnostic_key(b1[j - 1]));
            }
        }
    }
}

/// Sorting and removing repeated diagnostics has one outcome for an input:
/// any two sequences that meet the contract of `sort_and_dedup` for it are
/// the same.
pub proof fn lemma_sort_and_dedup_unique(
    a: Seq<ProjectDiagnostic>,
    b: Seq<ProjectDiagnostic>,
    input: Seq<ProjectDiagnostic>,
)
    requires
        keys_ascending(a),
        keys_ascending(b),
        forall|k: Seq<u64>| has_key(a, k) == has_key(input, k),
        forall|k: Seq<u64>| has_key(b, k) == has_key(input, k),
        firsts_of(a, input, input.len() as int),
        firsts_of(b, input, input.len() as int),
    ensures
        a == b,
{
    lemma_keys_unique(a, b);
    assert forall|j: int| 0 <= j < a.len() implies a[j] == b[j] by {
        let ka = diagnostic_key(a[j]);
        let kb = diagnostic_key(b[j]);
        assert(ka == kb);
        assert((|x: ProjectDiagnostic| diagnostic_key(x) == diagnostic_key(a[j])) =~= (|x: ProjectDiagnostic|
            diagnostic_key(x) == diagnostic_key(b[j])));
        assert(a[j] == first_with_key_of(input, a[j]));
        assert(b[j] == first_with_key_of(input, b[j]));
    }
    assert(a =~= b);
}

/// Diagnostics already in key order without repeats are left as they are
/// by `sort_and_dedup`: they meet its contract for themselves.
pub proof fn lemma_sort_and_dedup_fixpoint(s: Seq<ProjectDiagnostic>)
    requires
        keys_ascending(s),
    ensures
        firsts_of(s, s, s.len() as int),
{
    assert forall|j: int| 0 <= j < s.len() implies #[trigger] s[j] == first_with_key_of(s, s[j]) && first_match(
        s,
        |x: ProjectDiagnostic| diagnostic_key(x) == diagnostic_key(s[j]),
    ) < s.len() by {
        let p = |x: ProjectDiagnostic| diagnostic_key(x) == diagnostic_key(s[j]);
        assert forall|k: int| 0 <= k < j implies !p(#[trigger] s[k]) by {
            assert(lex_less(diagnostic_key(s[k]), diagnostic_key(s[j])));
            lemma_lex_irreflexive(diagnostic_key(s[j]));
        }
        lemma_first_match(s, p, j);
    }
}

/// The code starts with `prefix`.
pub open spec fn code_starts_with(code: Seq<char>, prefix: Seq<char>) -> bool {
    prefix.len() <= code.len() && code.take(prefix.len() as int) == prefix
}

/// The domain that a code's first segment names; codes of the state files
/// name no other.
pub open spec fn prefix_domain(code: Seq<char>) -> DiagnosticDomain {
    if code_starts_with(code, "cross."@) {
        DiagnosticDomain::CrossDomain
    } else if code_starts_with(code, "definition."@) {
        DiagnosticDomain::Definition
    } else if code_starts_with(code, "province."@) {
        DiagnosticDomain::ProvinceMap
    } else if code_starts_with(code, "transaction."@) {
        DiagnosticDomain::Transaction
    } else if code_starts_with(code, "project."@) {
        DiagnosticDomain::Project
    } else {
        DiagnosticDomain::States
    }
}

/// A diagnostic's domain is the one that its code's first segment names.
pub proof fn lemma_domain_follows_code(kind: ProjectDiagnosticKind)
    ensures
        kind_domain(kind) == prefix_domain(kind_code(kind)),
{
    reveal_strlit("cross.");
    reveal_strlit("definition.");
    reveal_strlit("province.");
    reveal_strlit("transaction.");
    reveal_strlit("project.");
    match kind {
        ProjectDiagnosticKind::InvalidStateFile => {
            reveal_strlit("states.file.invalid");
            assert(kind_code(kind).take(6)[0] != "cross."@[0]);
            assert(kind_code(kind).take(11)[0] != "definition."@[0]);
            assert(kind_code(kind).take(9)[0] != "province."@[0]);
            assert(kind_code(kind).take(12)[0] != "transaction."@[0]);
            assert(kind_code(kind).take(8)[0] != "project."@[0]);
        },
        ProjectDiagnosticKind::EmptyStateFile => {
            reveal_strlit("states.file.empty");
            assert(kind_code(kind).take(6)[0] != "cross."@[0]);
            assert(kind_code(kind).take(11)[0] != "definition."@[0]);
            assert(kind_code(kind).take(9)[0] != "province."@[0]);
            assert(kind_code(kind).take(12)[0] != "transaction."@[0]);
            assert(kind_code(kind).take(8)[0] != "project."@[0]);
        },
        ProjectDiagnosticKind::SyntaxError => {
            reveal_strlit("states.syntax.error");
            assert(kind_code(kind).take(6)[0] != "cross."@[0]);
            assert(kind_code(kind).take(11)[0] != "definition."@[0]);
            assert(kind_code(kind).take(9)[0] != "province."@[0]);
            assert(kind_code(kind).take(12)[0] != "transaction."@[0]);
            assert(kind_code(kind).take(8)[0] != "project."@[0]);
        },
        ProjectDiagnosticKind::MissingStateBlock => {
            reveal_strlit("states.block.missing");
            assert(kind_code(kind).take(6)[0] != "cross."@[0]);
            assert(kind_code(kind).take(11)[0] != "definition."@[0]);
            assert(kind_code(kind).take(9)[0] != "province."@[0]);
            assert(kind_code(kind).take(12)[0] != "transaction."@[0]);
            assert(kind_code(kind).take(8)[0] != "project."@[0]);
        },
        ProjectDiagnosticKind::MultipleStateBlocks => {
            reveal_strlit("states.block.multiple");
            assert(kind_code(kind).take(6)[0] != "cross."@[0]);
            assert(kind_code(kind).take(11)[0] != "definition."@[0]);
            assert(kind_code(kind).take(9)[0] != "province."@[0]);
            assert(kind_code(kind).take(12)[0] != "transaction."@[0]);
            assert(kind_code(kind).take(8)[0] != "project."@[0]);
        },
        ProjectDiagnosticKind::MissingStateId => {
            reveal_strlit("states.id.missing");
            assert(kind_code(kind).take(6)[0] != "cross."@[0]);
            assert(kind_code(kind).take(11)[0] != "definition."@[0]);
            assert(kind_code(kind).take(9)[0] != "province."@[0]);
            assert(kind_code(kind).take(12)[0] != "transaction."@[0]);
            assert(kind_code(kind).take(8)[0] != "project."@[0]);
        },
        ProjectDiagnosticKind::InvalidStateId => {
            reveal_strlit("states.id.invalid");
            assert(kind_code(kind).take(6)[0] != "cross."@[0]);
            assert(kind_code(kind).take(11)[0] != "definition."@[0]);
            assert(kind_code(kind).take(9)[0] != "province."@[0]);
            assert(kind_code(kind).take(12)[0] != "transaction."@[0]);
            assert(kind_code(kind).take(8)[0] != "project."@[0]);
        },
        ProjectDiagnosticKind::ZeroStateId => {
            reveal_strlit("states.id.zero");
            assert(kind_code(kind).take(6)[0] != "cross."@[0]);
            assert(kind_code(kind).take(11)[0] != "definition."@[0]);
            assert(kind_code(kind).take(9)[0] != "province."@[0]);
            assert(kind_code(kind).take(12)[0] != "transaction."@[0]);
            assert(kind_code(kind).take(8)[0] != "project."@[0]);
        },
        ProjectDiagnosticKind::DuplicateStateId => {
            reveal_strlit("states.id.duplicate");
            assert(kind_code(kind).take(6)[0] != "cross."@[0]);
            assert(kind_code(kind).take(11)[0] != "definition."@[0]);
            assert(kind_code(kind).take(9)[0] != "province."@[0]);
            assert(kind_code(kind).take(12)[0] != "transaction."@[0]);
            assert(kind_code(kind).take(8)[0] != "project."@[0]);
        },
        ProjectDiagnosticKind::MissingProvinces => {
            reveal_strlit("states.provinces.missing");
            assert(kind_code(kind).take(6)[0] != "cross."@[0]);
            assert(kind_code(kind).take(11)[0] != "definition."@[0]);
            assert(kind_code(kind).take(9)[0] != "province."@[0]);
            assert(kind_code(kind).take(12)[0] != "transaction."@[0]);
            assert(kind_code(kind).take(8)[0] != "project."@[0]);
        },
        ProjectDiagnosticKind::EmptyProvinces => {
            reveal_strlit("states.provinces.empty");
            assert(kind_code(kind).take(6)[0] != "cross."@[0]);
            assert(kind_code(kind).take(11)[0] != "definition."@[0]);
            assert(kind_code(kind).take(9)[0] != "province."@[0]);
            assert(kind_code(kind).take(12)[0] != "transaction."@[0]);
            assert(kind_code(kind).take(8)[0] != "project."@[0]);
        },
        ProjectDiagnosticKind::DuplicateProvinceInState => {
            reveal_strlit("states.province.duplicate");
            assert(kind_code(kind).take(6)[0] != "cross."@[0]);
            assert(kind_code(kind).take(11)[0] != "definition."@[0]);
            assert(kind_code(kind).take(9)[0] != "province."@[0]);
            assert(kind_code(kind).take(12)[0] != "transaction."@[0]);
            assert(kind_code(kind).take(8)[0] != "project."@[0]);
        },
        ProjectDiagnosticKind::ProvinceInMultipleStates => {
            reveal_strlit("cross.province.multiple_states");
            assert(kind_code(kind).take(6) =~= "cross."@);
            assert(kind_code(kind).take(11)[0] != "definition."@[0]);
            assert(kind_code(kind).take(9)[0] != "province."@[0]);
            assert(kind_code(kind).take(12)[0] != "transaction."@[0]);
            assert(kind_code(kind).take(8)[0] != "project."@[0]);
        },
        ProjectDiagnosticKind::UnknownProvince => {
            reveal_strlit("cross.province.unknown");
            assert(kind_code(kind).take(6) =~= "cross."@);
            assert(kind_code(kind).take(11)[0] != "definition."@[0]);
            assert(kind_code(kind).take(9)[0] != "province."@[0]);
            assert(kind_code(kind).take(12)[0] != "transaction."@[0]);
            assert(kind_code(kind).take(8)[0] != "project."@[0]);
        },
        ProjectDiagnosticKind::LandProvinceWithoutState => {
            reveal_strlit("cross.land.unassigned");
            assert(kind_code(kind).take(6) =~= "cross."@);
            assert(kind_code(kind).take(11)[0] != "definition."@[0]);
            assert(kind_code(kind).take(9)[0] != "province."@[0]);
            assert(kind_code(kind).take(12)[0] != "transaction."@[0]);
            assert(kind_code(kind).take(8)[0] != "project."@[0]);
        },
        ProjectDiagnosticKind::MissingStateCategory => {
            reveal_strlit("states.category.missing");
            assert(kind_code(kind).take(6)[0] != "cross."@[0]);
            assert(kind_code(kind).take(11)[0] != "definition."@[0]);
            assert(kind_code(kind).take(9)[0] != "province."@[0]);
            assert(kind_code(kind).take(12)[0] != "transaction."@[0]);
            assert(kind_code(kind).take(8)[0] != "project."@[0]);
        },
        ProjectDiagnosticKind::InvalidManpower => {
            reveal_strlit("states.manpower.invalid");
            assert(kind_code(kind).take(6)[0] != "cross."@[0]);
            assert(kind_code(kind).take(11)[0] != "definition."@[0]);
            assert(kind_code(kind).take(9)[0] != "province."@[0]);
            assert(kind_code(kind).take(12)[0] != "transaction."@[0]);
            assert(kind_code(kind).take(8)[0] != "project."@[0]);
        },
        ProjectDiagnosticKind::InvalidResource => {
            reveal_strlit("states.resource.invalid");
            assert(kind_code(kind).take(6)[0] != "cross."@[0]);
            assert(kind_code(kind).take(11)[0] != "definition."@[0]);
            assert(kind_code(kind).take(9)[0] != "province."@[0]);
            assert(kind_code(kind).take(12)[0] != "transaction."@[0]);
            assert(kind_code(kind).take(8)[0] != "project."@[0]);
        },
        ProjectDiagnosticKind::InvalidBuilding => {
            reveal_strlit("states.building.invalid");
            assert(kind_code(kind).take(6)[0] != "cross."@[0]);
            assert(kind_code(kind).take(11)[0] != "definition."@[0]);
            assert(kind_code(kind).take(9)[0] != "province."@[0]);
            assert(kind_code(kind).take(12)[0] != "transaction."@[0]);
            assert(kind_code(kind).take(8)[0] != "project."@[0]);
        },
        ProjectDiagnosticKind::InvalidField => {
            reveal_strlit("states.field.invalid");
            assert(kind_code(kind).take(6)[0] != "cross."@[0]);
            assert(kind_code(kind).take(11)[0] != "definition."@[0]);
            assert(kind_code(kind).take(9)[0] != "province."@[0]);
            assert(kind_code(kind).take(12)[0] != "transaction."@[0]);
            assert(kind_code(kind).take(8)[0] != "project."@[0]);
        },
        ProjectDiagnosticKind::MissingStateName => {
            reveal_strlit("states.name.missing");
            assert(kind_code(kind).take(6)[0] != "cross."@[0]);
            assert(kind_code(kind).take(11)[0] != "definition."@[0]);
            assert(kind_code(kind).take(9)[0] != "province."@[0]);
            assert(kind_code(kind).take(12)[0] != "transaction."@[0]);
            assert(kind_code(kind).take(8)[0] != "project."@[0]);
        },
        ProjectDiagnosticKind::MissingOwner => {
            reveal_strlit("states.owner.missing");
            assert(kind_code(kind).take(6)[0] != "cross."@[0]);
            assert(kind_code(kind).take(11)[0] != "definition."@[0]);
            assert(kind_code(kind).take(9)[0] != "province."@[0]);
            assert(kind_code(kind).take(12)[0] != "transaction."@[0]);
            assert(kind_code(kind).take(8)[0] != "project."@[0]);
        },
        ProjectDiagnosticKind::MissingHistory => {
            reveal_strlit("states.history.missing");
            assert(kind_code(kind).take(6)[0] != "cross."@[0]);
            assert(kind_code(kind).take(11)[0] != "definition."@[0]);
            assert(kind_code(kind).take(9)[0] != "province."@[0]);
            assert(kind_code(kind).take(12)[0] != "transaction."@[0]);
            assert(kind_code(kind).take(8)[0] != "project."@[0]);
        },
        ProjectDiagnosticKind::StateNameIdMismatch => {
            reveal_strlit("states.name_id.mismatch");
            assert(kind_code(kind).take(6)[0] != "cross."@[0]);
            assert(kind_code(kind).take(11)[0] != "definition."@[0]);
            assert(kind_code(kind).take(9)[0] != "province."@[0]);
            assert(kind_code(kind).take(12)[0] != "transaction."@[0]);
            assert(kind_code(kind).take(8)[0] != "project."@[0]);
        },
        ProjectDiagnosticKind::ProvinceBuildingOutsideState => {
            reveal_strlit("cross.building.outside_state");
            assert(kind_code(kind).take(6) =~= "cross."@);
            assert(kind_code(kind).take(11)[0] != "definition."@[0]);
            assert(kind_code(kind).take(9)[0] != "province."@[0]);
            assert(kind_code(kind).take(12)[0] != "transaction."@[0]);
            assert(kind_code(kind).take(8)[0] != "project."@[0]);
        },
        ProjectDiagnosticKind::VictoryPointOutsideState => {
            reveal_strlit("cross.victory_point.outside_state");
            assert(kind_code(kind).take(6) =~= "cross."@);
            assert(kind_code(kind).take(11)[0] != "definition."@[0]);
            assert(kind_code(kind).take(9)[0] != "province."@[0]);
            assert(kind_code(kind).take(12)[0] != "transaction."@[0]);
            assert(kind_code(kind).take(8)[0] != "project."@[0]);
        },
        ProjectDiagnosticKind::StateEditSession => {
            reveal_strlit("states.edit.session");
            assert(kind_code(kind).take(6)[0] != "cross."@[0]);
            assert(kind_code(kind).take(11)[0] != "definition."@[0]);
            assert(kind_code(kind).take(9)[0] != "province."@[0]);
            assert(kind_code(kind).take(12)[0] != "transaction."@[0]);
            assert(kind_code(kind).take(8)[0] != "project."@[0]);
        },
        ProjectDiagnosticKind::InvalidProvinceBitmap => {
            reveal_strlit("province.bitmap.invalid");
            assert(kind_code(kind).take(6)[0] != "cross."@[0]);
            assert(kind_code(kind).take(11)[0] != "definition."@[0]);
            assert(kind_code(kind).take(9) =~= "province."@);
            assert(kind_code(kind).take(12)[0] != "transaction."@[0]);
            assert(kind_code(kind).take(8)[3] != "project."@[3]);
        },
        ProjectDiagnosticKind::InvalidDefinition => {
            reveal_strlit("definition.invalid");
            assert(kind_code(kind).take(6)[0] != "cross."@[0]);
            assert(kind_code(kind).take(11) =~= "definition."@);
            assert(kind_code(kind).take(9)[0] != "province."@[0]);
            assert(kind_code(kind).take(12)[0] != "transaction."@[0]);
            assert(kind_code(kind).take(8)[0] != "project."@[0]);
        },
        ProjectDiagnosticKind::DuplicateProvinceId => {
            reveal_strlit("definition.id.duplicate");
            assert(kind_code(kind).take(6)[0] != "cross."@[0]);
            assert(kind_code(kind).take(11) =~= "definition."@);
            assert(kind_code(kind).take(9)[0] != "province."@[0]);
            assert(kind_code(kind).take(12)[0] != "transaction."@[0]);
            assert(kind_code(kind).take(8)[0] != "project."@[0]);
        },
        ProjectDiagnosticKind::DuplicateProvinceRgb => {
            reveal_strlit("definition.rgb.duplicate");
            assert(kind_code(kind).take(6)[0] != "cross."@[0]);
            assert(kind_code(kind).take(11) =~= "definition."@);
            assert(kind_code(kind).take(9)[0] != "province."@[0]);
            assert(kind_code(kind).take(12)[0] != "transaction."@[0]);
            assert(kind_code(kind).take(8)[0] != "project."@[0]);
        },
        ProjectDiagnosticKind::MissingDefinitionForColor => {
            reveal_strlit("cross.bitmap_color.missing_definition");
            assert(kind_code(kind).take(6) =~= "cross."@);
            assert(kind_code(kind).take(11)[0] != "definition."@[0]);
            assert(kind_code(kind).take(9)[0] != "province."@[0]);
            assert(kind_code(kind).take(12)[0] != "transaction."@[0]);
            assert(kind_code(kind).take(8)[0] != "project."@[0]);
        },
        ProjectDiagnosticKind::UnusedDefinition => {
            reveal_strlit("cross.definition.unused");
            assert(kind_code(kind).take(6) =~= "cross."@);
            assert(kind_code(kind).take(11)[0] != "definition."@[0]);
            assert(kind_code(kind).take(9)[0] != "province."@[0]);
            assert(kind_code(kind).take(12)[0] != "transaction."@[0]);
            assert(kind_code(kind).take(8)[0] != "project."@[0]);
        },
        ProjectDiagnosticKind::InvalidProvinceType => {
            reveal_strlit("definition.type.invalid");
            assert(kind_code(kind).take(6)[0] != "cross."@[0]);
            assert(kind_code(kind).take(11) =~= "definition."@);
            assert(kind_code(kind).take(9)[0] != "province."@[0]);
            assert(kind_code(kind).take(12)[0] != "transaction."@[0]);
            assert(kind_code(kind).take(8)[0] != "project."@[0]);
        },
        ProjectDiagnosticKind::InvalidCoastal => {
            reveal_strlit("definition.coastal.invalid");
            assert(kind_code(kind).take(6)[0] != "cross."@[0]);
            assert(kind_code(kind).take(11) =~= "definition."@);
            assert(kind_code(kind).take(9)[0] != "province."@[0]);
            assert(kind_code(kind).take(12)[0] != "transaction."@[0]);
            assert(kind_code(kind).take(8)[0] != "project."@[0]);
        },
        ProjectDiagnosticKind::InvalidContinent => {
            reveal_strlit("definition.continent.invalid");
            assert(kind_code(kind).take(6)[0] != "cross."@[0]);
            assert(kind_code(kind).take(11) =~= "definition."@);
            assert(kind_code(kind).take(9)[0] != "province."@[0]);
            assert(kind_code(kind).take(12)[0] != "transaction."@[0]);
            assert(kind_code(kind).take(8)[0] != "project."@[0]);
        },
        ProjectDiagnosticKind::SeaOrLakeAssigned => {
            reveal_strlit("cross.non_land.assigned");
            assert(kind_code(kind).take(6) =~= "cross."@);
            assert(kind_code(kind).take(11)[0] != "definition."@[0]);
            assert(kind_code(kind).take(9)[0] != "province."@[0]);
            assert(kind_code(kind).take(12)[0] != "transaction."@[0]);
            assert(kind_code(kind).take(8)[0] != "project."@[0]);
        },
        ProjectDiagnosticKind::NavalBaseNonCoastal => {
            reveal_strlit("cross.naval_base.non_coastal");
            assert(kind_code(kind).take(6) =~= "cross."@);
            assert(kind_code(kind).take(11)[0] != "definition."@[0]);
            assert(kind_code(kind).take(9)[0] != "province."@[0]);
            assert(kind_code(kind).take(12)[0] != "transaction."@[0]);
            assert(kind_code(kind).take(8)[0] != "project."@[0]);
        },
        ProjectDiagnosticKind::CandidateMismatch => {
            reveal_strlit("project.candidate.mismatch");
            assert(kind_code(kind).take(6)[0] != "cross."@[0]);
            assert(kind_code(kind).take(11)[0] != "definition."@[0]);
            assert(kind_code(kind).take(9)[3] != "province."@[3]);
            assert(kind_code(kind).take(12)[0] != "transaction."@[0]);
            assert(kind_code(kind).take(8) =~= "project."@);
        },
        ProjectDiagnosticKind::ExternalChange => {
            reveal_strlit("transaction.external_change");
            assert(kind_code(kind).take(6)[0] != "cross."@[0]);
            assert(kind_code(kind).take(11)[0] != "definition."@[0]);
            assert(kind_code(kind).take(9)[0] != "province."@[0]);
            assert(kind_code(kind).take(12) =~= "transaction."@);
            assert(kind_code(kind).take(8)[0] != "project."@[0]);
        },
        ProjectDiagnosticKind::TransactionFailure => {
            reveal_strlit("transaction.failure");
            assert(kind_code(kind).take(6)[0] != "cross."@[0]);
            assert(kind_code(kind).take(11)[0] != "definition."@[0]);
            assert(kind_code(kind).take(9)[0] != "province."@[0]);
            assert(kind_code(kind).take(12) =~= "transaction."@);
            assert(kind_code(kind).take(8)[0] != "project."@[0]);
        },
    }
}

} // verus!
