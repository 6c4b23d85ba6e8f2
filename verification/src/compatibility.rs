//! Read-only compatibility scan of a project before it is opened: what the
//! province bitmap, the definition table, related bitmaps and state files
//! hold, and which findings they raise.
use vstd::prelude::*;
use image::ImageDecoder;
use crate::ascending::{
    ascending_of, contains_ascending, insert_ascending, lemma_ascending_unique, strictly_ascending,
};
use crate::fields::{decimal_at_most, parse_decimal, split_bytes, split_on, without_cr};
use crate::lexicographic::views;
use crate::state::opt_str_view;

verus! {

/// At most this many ids or colors are listed as samples in a finding.
pub const SAMPLE_LIMIT: usize = 16;

/// A stable category for data discovered before a project is loaded into the editor.
#[derive(Debug, Clone, Copy, PartialEq, Eq, PartialOrd, Ord, Hash, Structural)]
pub enum CompatibilityCode {
    MapDirectoryMissing,
    ProvinceBitmapMissing,
    ProvinceBitmapUnreadable,
    DefinitionMissing,
    DefinitionMalformed,
    DefinitionEmpty,
    InvalidProvinceIdRange,
    SparseProvinceIds,
    DuplicateProvinceId,
    DuplicateProvinceColor,
    BitmapColorMissingDefinition,
    DefinitionColorUnused,
    StatesDirectoryMissing,
    StateReferencesMissingProvince,
    RelatedBitmapUnreadable,
    RelatedBitmapDimensionsMismatch,
}

pub open spec fn code_identifier(code: CompatibilityCode) -> Seq<char> {
    match code {
        CompatibilityCode::MapDirectoryMissing => "map_directory_missing"@,
        CompatibilityCode::ProvinceBitmapMissing => "province_bitmap_missing"@,
        CompatibilityCode::ProvinceBitmapUnreadable => "province_bitmap_unreadable"@,
        CompatibilityCode::DefinitionMissing => "definition_missing"@,
        CompatibilityCode::DefinitionMalformed => "definition_malformed"@,
        CompatibilityCode::DefinitionEmpty => "definition_empty"@,
        CompatibilityCode::InvalidProvinceIdRange => "invalid_province_id_range"@,
        CompatibilityCode::SparseProvinceIds => "sparse_province_ids"@,
        CompatibilityCode::DuplicateProvinceId => "duplicate_province_id"@,
        CompatibilityCode::DuplicateProvinceColor => "duplicate_province_color"@,
        CompatibilityCode::BitmapColorMissingDefinition => "bitmap_color_missing_definition"@,
        CompatibilityCode::DefinitionColorUnused => "definition_color_unused"@,
        CompatibilityCode::StatesDirectoryMissing => "states_directory_missing"@,
        CompatibilityCode::StateReferencesMissingProvince => "state_references_missing_province"@,
        CompatibilityCode::RelatedBitmapUnreadable => "related_bitmap_unreadable"@,
        CompatibilityCode::RelatedBitmapDimensionsMismatch => "related_bitmap_dimensions_mismatch"@,
    }
}

impl CompatibilityCode {
    /// The stable machine-readable name of the code.
    pub fn identifier(self) -> (r: &'static str)
        ensures
            r@ == code_identifier(self),
    {
        match self {
            CompatibilityCode::MapDirectoryMissing => "map_directory_missing",
            CompatibilityCode::ProvinceBitmapMissing => "province_bitmap_missing",
            CompatibilityCode::ProvinceBitmapUnreadable => "province_bitmap_unreadable",
            CompatibilityCode::DefinitionMissing => "definition_missing",
            CompatibilityCode::DefinitionMalformed => "definition_malformed",
            CompatibilityCode::DefinitionEmpty => "definition_empty",
            CompatibilityCode::InvalidProvinceIdRange => "invalid_province_id_range",
            CompatibilityCode::SparseProvinceIds => "sparse_province_ids",
            CompatibilityCode::DuplicateProvinceId => "duplicate_province_id",
            CompatibilityCode::DuplicateProvinceColor => "duplicate_province_color",
            CompatibilityCode::BitmapColorMissingDefinition => "bitmap_color_missing_definition",
            CompatibilityCode::DefinitionColorUnused => "definition_color_unused",
            CompatibilityCode::StatesDirectoryMissing => "states_directory_missing",
            CompatibilityCode::StateReferencesMissingProvince => "state_references_missing_province",
            CompatibilityCode::RelatedBitmapUnreadable => "related_bitmap_unreadable",
            CompatibilityCode::RelatedBitmapDimensionsMismatch => "related_bitmap_dimensions_mismatch",
        }
    }
}

/// How far a finding keeps the editor from opening a project.
#[derive(Debug, Clone, Copy, PartialEq, Eq, PartialOrd, Ord, Hash, Structural)]
pub enum CompatibilitySeverity {
    Compatible,
    Warning,
    Unsupported,
    Malformed,
}

pub open spec fn severity_rank(s: CompatibilitySeverity) -> u8 {
    match s {
        CompatibilitySeverity::Compatible => 0,
        CompatibilitySeverity::Warning => 1,
        CompatibilitySeverity::Unsupported => 2,
        CompatibilitySeverity::Malformed => 3,
    }
}

/// A province color as red, green and blue.
pub type ProvinceColor = [u8; 3];

/// What a finding points at.
#[derive(Debug, Clone, PartialEq, Eq)]
pub struct CompatibilityContext {
    pub path: Option<String>,
    pub province_id: Option<u32>,
    pub color: Option<[u8; 3]>,
    pub count: Option<usize>,
    pub expected_dimensions: Option<[u32; 2]>,
    pub actual_dimensions: Option<[u32; 2]>,
    pub sample_province_ids: Vec<u32>,
    pub sample_colors: Vec<[u8; 3]>,
}

pub struct ContextView {
    pub path: Option<Seq<char>>,
    pub province_id: Option<u32>,
    pub color: Option<u32>,
    pub count: Option<usize>,
    pub expected_dimensions: Option<(u32, u32)>,
    pub actual_dimensions: Option<(u32, u32)>,
    pub sample_province_ids: Seq<u32>,
    pub sample_colors: Seq<u32>,
}

/// A color packed into one number, red highest: packed colors order as the
/// colors do, red first.
pub open spec fn pack(c: [u8; 3]) -> u32 {
    (c[0] as u32 * 65536 + c[1] as u32 * 256 + c[2] as u32) as u32
}

pub open spec fn opt_pack(c: Option<[u8; 3]>) -> Option<u32> {
    match c {
        Some(v) => Some(pack(v)),
        None => None,
    }
}

pub open spec fn dims(d: Option<[u32; 2]>) -> Option<(u32, u32)> {
    match d {
        Some(v) => Some((v[0], v[1])),
        None => None,
    }
}

impl View for CompatibilityContext {
    type V = ContextView;

    open spec fn view(&self) -> ContextView {
        ContextView {
            path: opt_str_view(self.path),
            province_id: self.province_id,
            color: opt_pack(self.color),
            count: self.count,
            expected_dimensions: dims(self.expected_dimensions),
            actual_dimensions: dims(self.actual_dimensions),
            sample_province_ids: self.sample_province_ids@,
            sample_colors: self.sample_colors@.map_values(|c: [u8; 3]| pack(c)),
        }
    }
}

/// One finding of a scan.
#[derive(Debug, Clone, PartialEq, Eq)]
pub struct CompatibilityFinding {
    pub code: CompatibilityCode,
    pub severity: CompatibilitySeverity,
    pub context: CompatibilityContext,
}

pub struct FindingView {
    pub code: CompatibilityCode,
    pub severity: CompatibilitySeverity,
    pub context: ContextView,
}

impl View for CompatibilityFinding {
    type V = FindingView;

    open spec fn view(&self) -> FindingView {
        FindingView { code: self.code, severity: self.severity, context: self.context@ }
    }
}

/// What the province bitmap holds.
#[derive(Debug, Clone, PartialEq, Eq)]
pub struct BitmapCompatibilityMetadata {
    pub path: String,
    pub dimensions: [u32; 2],
    pub pixel_format: String,
    pub unique_color_count: usize,
}

/// What the definition table holds.
#[derive(Debug, Clone, PartialEq, Eq)]
pub struct DefinitionCompatibilityMetadata {
    pub path: String,
    pub record_count: usize,
    pub minimum_province_id: Option<u32>,
    pub maximum_province_id: Option<u32>,
    pub occupied_province_ids: usize,
    pub ids_contiguous: bool,
}

/// Whether state files are there to edit.
#[derive(Debug, Clone, PartialEq, Eq)]
pub struct StateCompatibilityMetadata {
    pub directory: String,
    pub directory_exists: bool,
    pub state_editing_available: bool,
    pub state_file_count: usize,
}

/// What a bitmap beside the province bitmap holds.
#[derive(Debug, Clone, PartialEq, Eq)]
pub struct RelatedBitmapCompatibilityMetadata {
    pub path: String,
    pub dimensions: Option<[u32; 2]>,
    pub pixel_format: Option<String>,
}

/// Everything a scan found.
#[derive(Debug, Clone, PartialEq, Eq)]
pub struct CompatibilityReport {
    pub root: String,
    pub bitmap: Option<BitmapCompatibilityMetadata>,
    pub definitions: Option<DefinitionCompatibilityMetadata>,
    pub states: StateCompatibilityMetadata,
    pub related_bitmaps: Vec<RelatedBitmapCompatibilityMetadata>,
    pub findings: Vec<CompatibilityFinding>,
}

/// The severity of a report: the highest-ranked of its findings, or
/// compatible without findings.
pub open spec fn report_severity(findings: Seq<FindingView>) -> CompatibilitySeverity
    decreases findings.len(),
{
    if findings.len() == 0 {
        CompatibilitySeverity::Compatible
    } else {
        let rest = report_severity(findings.drop_last());
        if severity_rank(findings.last().severity) >= severity_rank(rest) {
            findings.last().severity
        } else {
            rest
        }
    }
}

pub open spec fn blocks(s: CompatibilitySeverity) -> bool {
    s == CompatibilitySeverity::Malformed || s == CompatibilitySeverity::Unsupported
}

/// A report's severity is the worst of its findings': no finding ranks
/// above it, some finding has it when there are findings, and with none the
/// project is compatible. Malformed ranks above unsupported, which ranks
/// above a warning, which ranks above compatible.
pub proof fn lemma_report_severity_laws(findings: Seq<FindingView>)
    ensures
        forall|i: int| 0 <= i < findings.len() ==> severity_rank(#[trigger] findings[i].severity) <= severity_rank(
            report_severity(findings),
        ),
        findings.len() > 0 ==> exists|i: int| 0 <= i < findings.len() && findings[i].severity == report_severity(findings),
        findings.len() == 0 ==> report_severity(findings) == CompatibilitySeverity::Compatible,
        severity_rank(CompatibilitySeverity::Compatible) < severity_rank(CompatibilitySeverity::Warning),
        severity_rank(CompatibilitySeverity::Warning) < severity_rank(CompatibilitySeverity::Unsupported),
        severity_rank(CompatibilitySeverity::Unsupported) < severity_rank(CompatibilitySeverity::Malformed),
    decreases findings.len(),
{
    if findings.len() > 0 {
        let rest = findings.drop_last();
        lemma_report_severity_laws(rest);
        assert forall|i: int| 0 <= i < findings.len() implies severity_rank(#[trigger] findings[i].severity) <= severity_rank(
            report_severity(findings),
        ) by {
            if i < findings.len() - 1 {
                assert(findings[i] == rest[i]);
            }
        }
        if severity_rank(findings.last().severity) >= severity_rank(report_severity(rest)) {
            assert(findings[findings.len() - 1] == findings.last());
        } else {
            let i = choose|i: int| 0 <= i < rest.len() && rest[i].severity == report_severity(rest);
            assert(findings[i] == rest[i]);
        }
    }
}

proof fn lemma_severity_blocks(findings: Seq<FindingView>)
    ensures
        blocks(report_severity(findings)) <==> exists|i: int| 0 <= i < findings.len() && blocks(#[trigger] findings[i].severity),
    decreases findings.len(),
{
    if findings.len() > 0 {
        let rest = findings.drop_last();
        lemma_severity_blocks(rest);
        if exists|i: int| 0 <= i < rest.len() && blocks(#[trigger] rest[i].severity) {
            let i = choose|i: int| 0 <= i < rest.len() && blocks(#[trigger] rest[i].severity);
            assert(findings[i] == rest[i]);
        }
        if exists|i: int| 0 <= i < findings.len() && blocks(#[trigger] findings[i].severity) {
            let i = choose|i: int| 0 <= i < findings.len() && blocks(#[trigger] findings[i].severity);
            if i < findings.len() - 1 {
                assert(rest[i] == findings[i]);
            }
        }
    }
}

/// A report's severity, its compatibility and its primary blocker agree:
/// the editor can open the project exactly when no finding blocks it, which
/// is exactly when there is no primary blocker.
pub proof fn lemma_severity_and_blocker_agree(report: CompatibilityReport)
    ensures
        !blocks(report_severity(views(report.findings@))) <==> forall|i: int|
            0 <= i < report.findings@.len() ==> !blocks(#[trigger] report.findings@[i].severity),
{
    let v = views(report.findings@);
    lemma_severity_blocks(v);
    assert(v.len() == report.findings@.len());
    if exists|i: int| 0 <= i < v.len() && blocks(#[trigger] v[i].severity) {
        let i = choose|i: int| 0 <= i < v.len() && blocks(#[trigger] v[i].severity);
        assert(v[i] == report.findings@[i]@);
        assert(blocks(report.findings@[i].severity));
    }
    if exists|i: int| 0 <= i < report.findings@.len() && blocks(#[trigger] report.findings@[i].severity) {
        let i = choose|i: int| 0 <= i < report.findings@.len() && blocks(#[trigger] report.findings@[i].severity);
        assert(v[i] == report.findings@[i]@);
        assert(blocks(v[i].severity));
    }
}

impl CompatibilityReport {
    /// The highest-ranked severity among the findings; compatible when there are none.
    pub fn severity(&self) -> (r: CompatibilitySeverity)
        ensures
            r == report_severity(views(self.findings@)),
    {
        let mut best = CompatibilitySeverity::Compatible;
        let mut i: usize = 0;
        assert(views(self.findings@).subrange(0, 0) =~= Seq::<FindingView>::empty());
        while i < self.findings.len()
            invariant
                i <= self.findings@.len(),
                best == report_severity(views(self.findings@).subrange(0, i as int)),
            decreases self.findings.len() - i,
        {
            let s = self.findings[i].severity;
            let prefix = Ghost(views(self.findings@).subrange(0, i + 1));
            assert(prefix@.drop_last() =~= views(self.findings@).subrange(0, i as int));
            assert(prefix@.last() == self.findings@[i as int]@);
            if severity_rank_exec(s) >= severity_rank_exec(best) {
                best = s;
            }
            i = i + 1;
        }
        assert(views(self.findings@).subrange(0, self.findings@.len() as int) =~= views(
            self.findings@,
        ));
        best
    }

    /// The editor can open the project when no finding is worse than a warning.
    pub fn is_editor_compatible(&self) -> (r: bool)
        ensures
            r == !blocks(report_severity(views(self.findings@))),
    {
        let s = self.severity();
        s == CompatibilitySeverity::Compatible || s == CompatibilitySeverity::Warning
    }

    /// The first finding that keeps the editor from opening the project.
    pub fn primary_blocker(&self) -> (r: Option<&CompatibilityFinding>)
        ensures
            r is None <==> forall|i: int|
                0 <= i < self.findings@.len() ==> !blocks(#[trigger] self.findings@[i].severity),
            r matches Some(f) ==> exists|i: int|
                0 <= i < self.findings@.len() && self.findings@[i] == *f && blocks(f.severity)
                    && forall|k: int| 0 <= k < i ==> !blocks(#[trigger] self.findings@[k].severity),
    {
        let mut i: usize = 0;
        while i < self.findings.len()
            invariant
                i <= self.findings@.len(),
                forall|k: int| 0 <= k < i ==> !blocks(#[trigger] self.findings@[k].severity),
            decreases self.findings.len() - i,
        {
            let s = self.findings[i].severity;
            if s == CompatibilitySeverity::Malformed || s == CompatibilitySeverity::Unsupported {
                return Some(&self.findings[i]);
            }
            i = i + 1;
        }
        None
    }
}

fn severity_rank_exec(s: CompatibilitySeverity) -> (r: u8)
    ensures
        r == severity_rank(s),
{
    match s {
        CompatibilitySeverity::Compatible => 0,
        CompatibilitySeverity::Warning => 1,
        CompatibilitySeverity::Unsupported => 2,
        CompatibilitySeverity::Malformed => 3,
    }
}

/// One record of the definition table, by the fields a scan reads.
#[derive(Debug, Clone, Copy, PartialEq, Eq)]
pub struct DefinitionRecord {
    pub id: u32,
    pub rgb: [u8; 3],
}

pub open spec fn record_view(r: DefinitionRecord) -> (u32, u32) {
    (r.id, pack(r.rgb))
}

/// The id and packed color of a definition line: at least four fields
/// separated by `;`, the first a decimal id, the next three decimal color
/// channels of at most 255.
pub open spec fn definition_fields(line: Seq<u8>) -> Option<(u32, u32)> {
    let f = split_on(line, 59);
    if f.len() < 4 {
        None
    } else {
        match (
            decimal_at_most(f[0], u32::MAX as nat),
            decimal_at_most(f[1], 255),
            decimal_at_most(f[2], 255),
            decimal_at_most(f[3], 255),
        ) {
            (Some(id), Some(r), Some(g), Some(b)) => Some(
                (id as u32, (r * 65536 + g * 256 + b) as u32),
            ),
            _ => None,
        }
    }
}

/// The records of the definition table's lines: empty lines are skipped, a
/// line that is not a record makes the table malformed, and a first line
/// with id 0 is the reserved placeholder and is not a record.
pub open spec fn definition_records(lines: Seq<Seq<u8>>) -> Option<Seq<(u32, u32)>>
    decreases lines.len(),
{
    if lines.len() == 0 {
        Some(Seq::empty())
    } else {
        let prev = definition_records(lines.drop_last());
        let line = without_cr(lines.last());
        if line.len() == 0 {
            prev
        } else {
            match prev {
                None => None,
                Some(p) => match definition_fields(line) {
                    None => None,
                    Some(rec) => if lines.len() == 1 && rec.0 == 0 {
                        Some(p)
                    } else {
                        Some(p.push(rec))
                    },
                },
            }
        }
    }
}

/// The definition table's records, or none when it is malformed.
pub open spec fn parsed_definitions(bytes: Seq<u8>) -> Option<Seq<(u32, u32)>> {
    definition_records(split_on(bytes, 10))
}

proof fn lemma_definition_records_fail(lines: Seq<Seq<u8>>, k: int)
    requires
        0 <= k <= lines.len(),
        definition_records(lines.subrange(0, k)) is None,
    ensures
        definition_records(lines) is None,
    decreases lines.len() - k,
{
    if k < lines.len() {
        let next = lines.subrange(0, k + 1);
        assert(next.drop_last() =~= lines.subrange(0, k));
        lemma_definition_records_fail(lines, k + 1);
    } else {
        assert(lines.subrange(0, k) =~= lines);
    }
}

fn strip_cr(line: &Vec<u8>) -> (r: Vec<u8>)
    ensures
        r@ == without_cr(line@),
{
    let n = line.len();
    let keep = if n > 0 && line[n - 1] == 13 {
        n - 1
    } else {
        n
    };
    let mut out: Vec<u8> = Vec::new();
    let mut i: usize = 0;
    while i < keep
        invariant
            keep <= line.len(),
            i <= keep,
            out@ == line@.subrange(0, i as int),
        decreases keep - i,
    {
        out.push(line[i]);
        i = i + 1;
        assert(out@ =~= line@.subrange(0, i as int));
    }
    assert(out@ =~= without_cr(line@));
    out
}

fn definition_line(line: &Vec<u8>) -> (r: Option<DefinitionRecord>)
    ensures
        match r {
            Some(rec) => definition_fields(line@) == Some(record_view(rec)),
            None => definition_fields(line@) is None,
        },
{
    let fields = split_bytes(line.as_slice(), 59);
    if fields.len() < 4 {
        return None;
    }
    let ghost f = views(fields@);
    assert(f[0] == fields@[0]@ && f[1] == fields@[1]@ && f[2] == fields@[2]@ && f[3]
        == fields@[3]@);
    let id = match parse_decimal(fields[0].as_slice(), u32::MAX) {
        Some(v) => v,
        None => return None,
    };
    let r = match parse_decimal(fields[1].as_slice(), 255) {
        Some(v) => v,
        None => return None,
    };
    let g = match parse_decimal(fields[2].as_slice(), 255) {
        Some(v) => v,
        None => return None,
    };
    let b = match parse_decimal(fields[3].as_slice(), 255) {
        Some(v) => v,
        None => return None,
    };
    let rec = DefinitionRecord { id, rgb: [r as u8, g as u8, b as u8] };
    assert(rec.rgb[0] == r && rec.rgb[1] == g && rec.rgb[2] == b);
    Some(rec)
}

/// Reads the definition table: its records, or none when a line is not a
/// record.
pub fn parse_definitions(bytes: &[u8]) -> (r: Option<Vec<DefinitionRecord>>)
    ensures
        match r {
            Some(v) => parsed_definitions(bytes@) == Some(v@.map_values(|d: DefinitionRecord| record_view(d))),
            None => parsed_definitions(bytes@) is None,
        },
{
    let lines = split_bytes(bytes, 10);
    let ghost ls = views(lines@);
    let mut out: Vec<DefinitionRecord> = Vec::new();
    let mut i: usize = 0;
    assert(ls.subrange(0, 0) =~= Seq::<Seq<u8>>::empty());
    while i < lines.len()
        invariant
            i <= lines@.len(),
            ls == views(lines@),
            ls == split_on(bytes@, 10),
            definition_records(ls.subrange(0, i as int)) == Some(
                out@.map_values(|d: DefinitionRecord| record_view(d)),
            ),
        decreases lines.len() - i,
    {
        let prefix = Ghost(ls.subrange(0, i + 1));
        assert(prefix@.drop_last() =~= ls.subrange(0, i as int));
        assert(prefix@.last() == lines@[i as int]@);
        let line = strip_cr(&lines[i]);
        if line.len() > 0 {
            match definition_line(&line) {
                None => {
                    proof {
                        let q = ls.subrange(0, i + 1);
                        assert(q.drop_last() =~= ls.subrange(0, i as int));
                        assert(without_cr(q.last()) == line@);
                        assert(definition_records(q) is None);
                        lemma_definition_records_fail(ls, i + 1);
                    }
                    return None;
                },
                Some(rec) => {
                    if i == 0 && rec.id == 0 {
                    } else {
                        let ghost before = out@;
                        out.push(rec);
                        assert(out@.map_values(|d: DefinitionRecord| record_view(d))
                            =~= before.map_values(|d: DefinitionRecord| record_view(d)).push(
                            record_view(rec),
                        ));
                    }
                },
            }
        }
        i = i + 1;
    }
    assert(ls.subrange(0, lines@.len() as int) =~= ls);
    Some(out)
}

pub struct BitmapView {
    pub path: Seq<char>,
    pub dimensions: (u32, u32),
    pub pixel_format: Seq<char>,
    pub unique_color_count: usize,
}

pub struct DefinitionsView {
    pub path: Seq<char>,
    pub record_count: usize,
    pub minimum_province_id: Option<u32>,
    pub maximum_province_id: Option<u32>,
    pub occupied_province_ids: usize,
    pub ids_contiguous: bool,
}

pub struct StatesView {
    pub directory: Seq<char>,
    pub directory_exists: bool,
    pub state_editing_available: bool,
    pub state_file_count: usize,
}

pub struct RelatedView {
    pub path: Seq<char>,
    pub dimensions: Option<(u32, u32)>,
    pub pixel_format: Option<Seq<char>>,
}

pub struct ReportView {
    pub root: Seq<char>,
    pub bitmap: Option<BitmapView>,
    pub definitions: Option<DefinitionsView>,
    pub states: StatesView,
    pub related_bitmaps: Seq<RelatedView>,
    pub findings: Seq<FindingView>,
}

impl View for BitmapCompatibilityMetadata {
    type V = BitmapView;

    open spec fn view(&self) -> BitmapView {
        BitmapView {
            path: self.path@,
            dimensions: (self.dimensions[0], self.dimensions[1]),
            pixel_format: self.pixel_format@,
            unique_color_count: self.unique_color_count,
        }
    }
}

impl View for DefinitionCompatibilityMetadata {
    type V = DefinitionsView;

    open spec fn view(&self) -> DefinitionsView {
        DefinitionsView {
            path: self.path@,
            record_count: self.record_count,
            minimum_province_id: self.minimum_province_id,
            maximum_province_id: self.maximum_province_id,
            occupied_province_ids: self.occupied_province_ids,
            ids_contiguous: self.ids_contiguous,
        }
    }
}

impl View for StateCompatibilityMetadata {
    type V = StatesView;

    open spec fn view(&self) -> StatesView {
        StatesView {
            directory: self.directory@,
            directory_exists: self.directory_exists,
            state_editing_available: self.state_editing_available,
            state_file_count: self.state_file_count,
        }
    }
}

impl View for RelatedBitmapCompatibilityMetadata {
    type V = RelatedView;

    open spec fn view(&self) -> RelatedView {
        RelatedView {
            path: self.path@,
            dimensions: dims(self.dimensions),
            pixel_format: opt_str_view(self.pixel_format),
        }
    }
}

pub open spec fn opt_bitmap_view(b: Option<BitmapCompatibilityMetadata>) -> Option<BitmapView> {
    match b {
        Some(v) => Some(v@),
        None => None,
    }
}

pub open spec fn opt_definitions_view(d: Option<DefinitionCompatibilityMetadata>) -> Option<
    DefinitionsView,
> {
    match d {
        Some(v) => Some(v@),
        None => None,
    }
}

impl View for CompatibilityReport {
    type V = ReportView;

    open spec fn view(&self) -> ReportView {
        ReportView {
            root: self.root@,
            bitmap: opt_bitmap_view(self.bitmap),
            definitions: opt_definitions_view(self.definitions),
            states: self.states@,
            related_bitmaps: views(self.related_bitmaps@),
            findings: views(self.findings@),
        }
    }
}

/// The outcome of reading one input file.
#[derive(Debug, Clone, PartialEq, Eq)]
pub enum FileRead {
    Missing,
    Unreadable,
    Bytes(Vec<u8>),
}

pub enum ReadView {
    Missing,
    Unreadable,
    Bytes(Seq<u8>),
}

impl View for FileRead {
    type V = ReadView;

    open spec fn view(&self) -> ReadView {
        match self {
            FileRead::Missing => ReadView::Missing,
            FileRead::Unreadable => ReadView::Unreadable,
            FileRead::Bytes(b) => ReadView::Bytes(b@),
        }
    }
}

/// The width, height and pixel format (its `Debug` name) that the BMP
/// decoder reads from a file's header, or none when it refuses the bytes.
pub uninterp spec fn bmp_header_of(bytes: Seq<u8>) -> Option<(u32, u32, Seq<char>)>;

/// The pixels of a BMP file as red, green, blue bytes, row by row, or none
/// when the bytes do not decode.
pub uninterp spec fn bmp_rgb_of(bytes: Seq<u8>) -> Option<Seq<u8>>;

/// Calls `image::codecs::bmp::BmpDecoder::new` on the bytes and, when it
/// accepts them, reads `ImageDecoder::dimensions` and
/// `ImageDecoder::color_type` (written with `Debug`) from the decoder.
#[verifier::external_body]
pub(crate) fn bmp_header(bytes: &[u8]) -> (r: Option<(u32, u32, String)>)
    ensures
        match r {
            Some((w, h, f)) => bmp_header_of(bytes@) == Some((w, h, f@)),
            None => bmp_header_of(bytes@) is None,
        },
{
    match image::codecs::bmp::BmpDecoder::new(std::io::Cursor::new(bytes)) {
        Ok(decoder) => {
            let (width, height) = decoder.dimensions();
            Some((width, height, format!("{:?}", decoder.color_type())))
        },
        Err(_) => None,
    }
}

/// Calls `image::load_from_memory_with_format` with the BMP format and
/// converts the image with `DynamicImage::to_rgb8`, giving its raw bytes.
#[verifier::external_body]
pub(crate) fn bmp_rgb(bytes: &[u8]) -> (r: Option<Vec<u8>>)
    ensures
        match r {
            Some(v) => bmp_rgb_of(bytes@) == Some(v@),
            None => bmp_rgb_of(bytes@) is None,
        },
{
    match image::load_from_memory_with_format(bytes, image::ImageFormat::Bmp) {
        Ok(decoded) => Some(decoded.to_rgb8().into_raw()),
        Err(_) => None,
    }
}

/// A finding's context naming only a path.
pub open spec fn path_context(path: Seq<char>) -> ContextView {
    ContextView {
        path: Some(path),
        province_id: None,
        color: None,
        count: None,
        expected_dimensions: None,
        actual_dimensions: None,
        sample_province_ids: Seq::empty(),
        sample_colors: Seq::empty(),
    }
}

pub open spec fn finding(
    code: CompatibilityCode,
    severity: CompatibilitySeverity,
    context: ContextView,
) -> FindingView {
    FindingView { code, severity, context }
}

/// At most the first sixteen values.
pub open spec fn samples(s: Seq<u32>) -> Seq<u32> {
    if s.len() <= 16 {
        s
    } else {
        s.take(16)
    }
}

/// A context with a path, a count and sample ids.
pub open spec fn id_context(path: Option<Seq<char>>, count: nat, ids: Seq<u32>) -> ContextView {
    ContextView {
        path,
        province_id: None,
        color: None,
        count: Some(count as usize),
        expected_dimensions: None,
        actual_dimensions: None,
        sample_province_ids: ids,
        sample_colors: Seq::empty(),
    }
}

/// A context with a path, a count and sample colors.
pub open spec fn color_context(path: Option<Seq<char>>, count: nat, colors: Seq<u32>) -> ContextView {
    ContextView {
        path,
        province_id: None,
        color: None,
        count: Some(count as usize),
        expected_dimensions: None,
        actual_dimensions: None,
        sample_province_ids: Seq::empty(),
        sample_colors: colors,
    }
}

/// The packed color of each whole pixel of raw RGB bytes.
pub open spec fn pixel_colors(raw: Seq<u8>) -> Set<u32> {
    Set::new(
        |c: u32|
            exists|k: int|
                0 <= k && 3 * k + 2 < raw.len() && c == #[trigger] pixel_at(raw, k),
    )
}

pub open spec fn pixel_at(raw: Seq<u8>, k: int) -> u32 {
    (raw[3 * k] * 65536 + raw[3 * k + 1] * 256 + raw[3 * k + 2]) as u32
}

/// What the province bitmap step finds: its findings, the bitmap's
/// metadata, and its colors in increasing order.
pub open spec fn bitmap_step(path: Seq<char>, read: ReadView) -> (
    Seq<FindingView>,
    Option<BitmapView>,
    Option<Seq<u32>>,
) {
    match read {
        ReadView::Missing => (
            seq![
                finding(
                    CompatibilityCode::ProvinceBitmapMissing,
                    CompatibilitySeverity::Malformed,
                    path_context(path),
                ),
            ],
            None,
            None,
        ),
        ReadView::Unreadable => (
            seq![
                finding(
                    CompatibilityCode::ProvinceBitmapUnreadable,
                    CompatibilitySeverity::Malformed,
                    path_context(path),
                ),
            ],
            None,
            None,
        ),
        ReadView::Bytes(b) => match (bmp_header_of(b), bmp_rgb_of(b)) {
            (Some((w, h, format)), Some(raw)) => {
                let colors = ascending_of(pixel_colors(raw));
                (
                    Seq::empty(),
                    Some(
                        BitmapView {
                            path,
                            dimensions: (w, h),
                            pixel_format: format,
                            unique_color_count: colors.len() as usize,
                        },
                    ),
                    Some(colors),
                )
            },
            _ => (
                seq![
                    finding(
                        CompatibilityCode::ProvinceBitmapUnreadable,
                        CompatibilitySeverity::Malformed,
                        path_context(path),
                    ),
                ],
                None,
                None,
            ),
        },
    }
}

fn push_path_finding(
    report: &mut CompatibilityReport,
    code: CompatibilityCode,
    severity: CompatibilitySeverity,
    path: &str,
)
    ensures
        final(report)@ == (ReportView {
            findings: old(report)@.findings.push(finding(code, severity, path_context(path@))),
            ..old(report)@
        }),
{
    let context = CompatibilityContext {
        path: Some(path.to_owned()),
        province_id: None,
        color: None,
        count: None,
        expected_dimensions: None,
        actual_dimensions: None,
        sample_province_ids: Vec::new(),
        sample_colors: Vec::new(),
    };
    let f = CompatibilityFinding { code, severity, context };
    assert(f@.context.sample_colors =~= Seq::<u32>::empty());
    report.findings.push(f);
    assert(final(report)@.findings =~= old(report)@.findings.push(
        finding(code, severity, path_context(path@)),
    ));
}

/// The distinct colors of whole pixels, in increasing order.
fn unique_pixel_colors(raw: &Vec<u8>) -> (r: Vec<u32>)
    ensures
        r@ == ascending_of(pixel_colors(raw@)),
        strictly_ascending(r@),
        below_color_limit(r@),
{
    let mut colors: Vec<u32> = Vec::new();
    let n = raw.len() / 3;
    let mut k: usize = 0;
    let mut base: usize = 0;
    assert(3 * n <= raw@.len()) by (nonlinear_arith)
        requires
            n == raw@.len() / 3,
    ;
    while k < n
        invariant
            n == raw@.len() / 3,
            3 * n <= raw@.len(),
            k <= n,
            base == 3 * k,
            strictly_ascending(colors@),
            below_color_limit(colors@),
            forall|c: u32|
                colors@.contains(c) <==> exists|j: int|
                    0 <= j < k && c == #[trigger] pixel_at(raw@, j),
        decreases n - k,
    {
        assert(3 * k + 2 < raw@.len()) by (nonlinear_arith)
            requires
                k < n,
                n == raw@.len() / 3,
        ;
        assert(base + 2 < raw.len());
        let r0 = raw[base] as u32;
        let r1 = raw[base + 1] as u32;
        let r2 = raw[base + 2] as u32;
        let c = r0 * 65536 + r1 * 256 + r2;
        assert(c == pixel_at(raw@, k as int));
        let ghost before = colors@;
        insert_ascending(&mut colors, c);
        assert forall|i: int| 0 <= i < colors@.len() implies #[trigger] colors@[i] < 0x1000000 by {
            let x = colors@[i];
            assert(colors@.to_set().contains(x));
            if x != c {
                assert(before.to_set().contains(x));
                let m = choose|m: int| 0 <= m < before.len() && before[m] == x;
            }
        }
        assert forall|x: u32|
            colors@.contains(x) <==> exists|j: int|
                0 <= j < k + 1 && x == #[trigger] pixel_at(raw@, j) by {
            assert(colors@.to_set().contains(x) == (before.to_set().contains(x) || x == c));
            if exists|j: int| 0 <= j < k + 1 && x == #[trigger] pixel_at(raw@, j) {
                let j = choose|j: int| 0 <= j < k + 1 && x == #[trigger] pixel_at(raw@, j);
                if j < k {
                    assert(before.contains(x));
                }
            }
        }
        k = k + 1;
        base = base + 3;
    }
    proof {
        assert forall|x: u32| colors@.to_set().contains(x) == pixel_colors(raw@).contains(x) by {
            if exists|j: int| 0 <= j && 3 * j + 2 < raw@.len() && x == #[trigger] pixel_at(raw@, j) {
                let j = choose|j: int|
                    0 <= j && 3 * j + 2 < raw@.len() && x == #[trigger] pixel_at(raw@, j);
                assert(j < n);
            }
        }
        assert(colors@.to_set() =~= pixel_colors(raw@));
        let c = ascending_of(pixel_colors(raw@));
        assert(strictly_ascending(c) && c.to_set() == pixel_colors(raw@));
        lemma_ascending_unique(c, colors@);
    }
    colors
}

/// Inspects the province bitmap: records its metadata and gives its colors.
pub fn inspect_province_bitmap(report: &mut CompatibilityReport, path: &str, read: &FileRead) -> (r:
    Option<Vec<u32>>)
    ensures
        ({
            let (found, bitmap, colors) = bitmap_step(path@, read@);
            &&& final(report)@ == (ReportView {
                findings: old(report)@.findings + found,
                bitmap: if bitmap is Some {
                    bitmap
                } else {
                    old(report)@.bitmap
                },
                ..old(report)@
            })
            &&& match r {
                Some(v) => colors == Some(v@) && strictly_ascending(v@) && below_color_limit(v@),
                None => colors is None,
            }
        }),
{
    match read {
        FileRead::Missing => {
            push_path_finding(
                report,
                CompatibilityCode::ProvinceBitmapMissing,
                CompatibilitySeverity::Malformed,
                path,
            );
            assert(report@.findings =~= old(report)@.findings + seq![
                finding(
                    CompatibilityCode::ProvinceBitmapMissing,
                    CompatibilitySeverity::Malformed,
                    path_context(path@),
                ),
            ]);
            None
        },
        FileRead::Unreadable => {
            push_path_finding(
                report,
                CompatibilityCode::ProvinceBitmapUnreadable,
                CompatibilitySeverity::Malformed,
                path,
            );
            assert(report@.findings =~= old(report)@.findings + seq![
                finding(
                    CompatibilityCode::ProvinceBitmapUnreadable,
                    CompatibilitySeverity::Malformed,
                    path_context(path@),
                ),
            ]);
            None
        },
        FileRead::Bytes(bytes) => {
            let header = bmp_header(bytes.as_slice());
            let (width, height, format) = match header {
                Some(h) => h,
                None => {
                    push_path_finding(
                        report,
                        CompatibilityCode::ProvinceBitmapUnreadable,
                        CompatibilitySeverity::Malformed,
                        path,
                    );
                    assert(report@.findings =~= old(report)@.findings + seq![
                        finding(
                            CompatibilityCode::ProvinceBitmapUnreadable,
                            CompatibilitySeverity::Malformed,
                            path_context(path@),
                        ),
                    ]);
                    return None;
                },
            };
            let raw = match bmp_rgb(bytes.as_slice()) {
                Some(raw) => raw,
                None => {
                    push_path_finding(
                        report,
                        CompatibilityCode::ProvinceBitmapUnreadable,
                        CompatibilitySeverity::Malformed,
                        path,
                    );
                    assert(report@.findings =~= old(report)@.findings + seq![
                        finding(
                            CompatibilityCode::ProvinceBitmapUnreadable,
                            CompatibilitySeverity::Malformed,
                            path_context(path@),
                        ),
                    ]);
                    return None;
                },
            };
            let colors = unique_pixel_colors(&raw);
            let metadata = BitmapCompatibilityMetadata {
                path: path.to_owned(),
                dimensions: [width, height],
                pixel_format: format,
                unique_color_count: colors.len(),
            };
            assert(metadata.dimensions[0] == width && metadata.dimensions[1] == height);
            report.bitmap = Some(metadata);
            assert(report@.findings =~= old(report)@.findings + Seq::<FindingView>::empty());

            Some(colors)
        },
    }
}

pub open spec fn id_seq(recs: Seq<(u32, u32)>) -> Seq<u32> {
    recs.map_values(|r: (u32, u32)| r.0)
}

pub open spec fn color_seq(recs: Seq<(u32, u32)>) -> Seq<u32> {
    recs.map_values(|r: (u32, u32)| r.1)
}

/// Whether `x` occurs at least twice in `s`.
pub open spec fn repeated(s: Seq<u32>, x: u32) -> bool {
    exists|i: int, j: int| 0 <= i < j < s.len() && s[i] == x && s[j] == x
}

pub open spec fn repeated_values(s: Seq<u32>) -> Set<u32> {
    Set::new(|x: u32| repeated(s, x))
}

/// Increasing ids are exactly 1 to `n`.
pub open spec fn contiguous_from_one(asc: Seq<u32>, n: nat) -> bool {
    asc.len() == n && forall|k: int| 0 <= k < asc.len() ==> asc[k] == k + 1
}

proof fn lemma_ascending_gap(asc: Seq<u32>, i: int, j: int)
    requires
        strictly_ascending(asc),
        0 <= i <= j < asc.len(),
    ensures
        asc[j] >= asc[i] + (j - i),
    decreases j - i,
{
    if i < j {
        lemma_ascending_gap(asc, i, j - 1);
    }
}

/// Distinct increasing ids are contiguous from one exactly when they are the
/// ids 1 to `n`, each once: then the smallest is 1 and the largest `n`; ids
/// whose smallest is not 1 never are.
pub proof fn lemma_contiguous_laws(asc: Seq<u32>, n: nat)
    requires
        strictly_ascending(asc),
    ensures
        contiguous_from_one(asc, n) <==> (asc.len() == n && forall|x: u32| #[trigger] asc.contains(x) <==> 1 <= x <= n),
        contiguous_from_one(asc, n) && n > 0 ==> asc[0] == 1 && asc.last() == n,
        asc.len() > 0 && asc[0] != 1 ==> !contiguous_from_one(asc, n),
{
    if contiguous_from_one(asc, n) {
        assert forall|x: u32| #[trigger] asc.contains(x) <==> 1 <= x <= n by {
            if 1 <= x <= n {
                assert(asc[x - 1] == x);
            }
        }
    }
    if asc.len() == n && forall|x: u32| #[trigger] asc.contains(x) <==> 1 <= x <= n {
        assert forall|k: int| 0 <= k < asc.len() implies asc[k] == k + 1 by {
            assert(asc.contains(asc[0]));
            assert(asc.contains(asc[asc.len() - 1]));
            lemma_ascending_gap(asc, 0, k);
            lemma_ascending_gap(asc, k, asc.len() - 1);
        }
    }
    if asc.len() > 0 && asc[0] != 1 && contiguous_from_one(asc, n) {
        assert(asc[0] == 1);
    }
}

/// `r` with `x` put in its place, unless it is already there.
spec fn insert_in_order(r: Seq<u32>, x: u32) -> Seq<u32>
    decreases r.len(),
{
    if r.len() == 0 {
        seq![x]
    } else if x < r[0] {
        seq![x] + r
    } else if x == r[0] {
        r
    } else {
        seq![r[0]] + insert_in_order(r.drop_first(), x)
    }
}

proof fn lemma_insert_in_order(r: Seq<u32>, x: u32)
    requires
        strictly_ascending(r),
    ensures
        strictly_ascending(insert_in_order(r, x)),
        insert_in_order(r, x).to_set() == r.to_set().insert(x),
    decreases r.len(),
{
    let t = insert_in_order(r, x);
    if r.len() == 0 {
        assert(t.to_set() =~= r.to_set().insert(x)) by {
            assert forall|y: u32| t.to_set().contains(y) <==> r.to_set().insert(x).contains(y) by {
                if t.contains(y) {
                    assert(t[0] == y);
                }
                if y == x {
                    assert(t[0] == x);
                }
            }
        }
    } else if x < r[0] {
        assert forall|i: int, j: int| 0 <= i < j < t.len() implies t[i] < t[j] by {
            if i == 0 {
                if j > 1 {
                    assert(r[0] < r[j - 1]);
                }
            } else {
                assert(r[i - 1] < r[j - 1]);
            }
        }
        assert forall|y: u32| t.to_set().contains(y) <==> r.to_set().insert(x).contains(y) by {
            if t.contains(y) {
                let k = choose|k: int| 0 <= k < t.len() && t[k] == y;
                if k > 0 {
                    assert(r[k - 1] == y);
                    assert(r.contains(y));
                }
            }
            if y == x {
                assert(t[0] == x);
            }
            if r.contains(y) {
                let k = choose|k: int| 0 <= k < r.len() && r[k] == y;
                assert(t[k + 1] == y);
            }
        }
        assert(t.to_set() =~= r.to_set().insert(x));
    } else if x == r[0] {
        assert(r.contains(r[0]));
        assert(r.to_set().insert(x) =~= r.to_set());
    } else {
        let d = r.drop_first();
        assert forall|i: int, j: int| 0 <= i < j < d.len() implies d[i] < d[j] by {
            assert(r[i + 1] < r[j + 1]);
        }
        lemma_insert_in_order(d, x);
        let u = insert_in_order(d, x);
        assert(t == seq![r[0]] + u);
        assert forall|j: int| 0 <= j < u.len() implies r[0] < #[trigger] u[j] by {
            assert(u.to_set().contains(u[j]));
            if u[j] != x {
                assert(d.to_set().contains(u[j]));
                let k = choose|k: int| 0 <= k < d.len() && d[k] == u[j];
                assert(r[0] < r[k + 1]);
            }
        }
        assert forall|i: int, j: int| 0 <= i < j < t.len() implies t[i] < t[j] by {
            if i == 0 {
                assert(t[j] == u[j - 1]);
            } else {
                assert(t[i] == u[i - 1] && t[j] == u[j - 1]);
            }
        }
        assert forall|y: u32| t.to_set().contains(y) <==> r.to_set().insert(x).contains(y) by {
            if t.contains(y) {
                let k = choose|k: int| 0 <= k < t.len() && t[k] == y;
                if k > 0 {
                    assert(u[k - 1] == y);
                    assert(u.to_set().contains(y));
                    if y != x {
                        assert(d.to_set().contains(y));
                        let m = choose|m: int| 0 <= m < d.len() && d[m] == y;
                        assert(r[m + 1] == y);
                    }
                }
            }
            if r.to_set().insert(x).contains(y) {
                if y == r[0] {
                    assert(t[0] == y);
                } else {
                    if y != x {
                        let m = choose|m: int| 0 <= m < r.len() && r[m] == y;
                        assert(m > 0);
                        assert(d[m - 1] == y);
                        assert(d.to_set().contains(y));
                    }
                    assert(u.to_set().contains(y));
                    let k = choose|k: int| 0 <= k < u.len() && u[k] == y;
                    assert(t[k + 1] == y);
                }
            }
        }
        assert(t.to_set() =~= r.to_set().insert(x));
    }
}

/// The distinct values of `s` in increasing order, built one value at a time.
spec fn in_order(s: Seq<u32>) -> Seq<u32>
    decreases s.len(),
{
    if s.len() == 0 {
        Seq::empty()
    } else {
        insert_in_order(in_order(s.drop_last()), s.last())
    }
}

proof fn lemma_ascending_of_values(s: Seq<u32>)
    ensures
        strictly_ascending(ascending_of(s.to_set())),
        ascending_of(s.to_set()).to_set() == s.to_set(),
{
    lemma_in_order_ascending(s);
    lemma_ascending_of_is(s.to_set(), in_order(s));
}

proof fn lemma_in_order_ascending(s: Seq<u32>)
    ensures
        strictly_ascending(in_order(s)),
        in_order(s).to_set() == s.to_set(),
    decreases s.len(),
{
    if s.len() == 0 {
        assert(in_order(s).to_set() =~= s.to_set());
    } else {
        let d = s.drop_last();
        lemma_in_order_ascending(d);
        lemma_insert_in_order(in_order(d), s.last());
        assert(s.to_set() =~= d.to_set().insert(s.last())) by {
            assert forall|y: u32| s.contains(y) <==> d.to_set().insert(s.last()).contains(y) by {
                if s.contains(y) {
                    let k = choose|k: int| 0 <= k < s.len() && s[k] == y;
                    if k < s.len() - 1 {
                        assert(d[k] == y);
                    }
                }
                if d.contains(y) {
                    let k = choose|k: int| 0 <= k < d.len() && d[k] == y;
                    assert(s[k] == y);
                }
            }
        }
    }
}

/// A definition table's ids are contiguous exactly when its distinct ids
/// are 1 up to their number. A table without id 1 never is, and when it
/// holds no id 0 and repeats no id it is reported as sparse, with a
/// warning; a table whose ids are 1 to its number of records, each once,
/// is contiguous and never reported as sparse.
pub proof fn lemma_definition_id_laws(path: Seq<char>, recs: Seq<(u32, u32)>)
    ensures
        definitions_meta(path, recs).ids_contiguous <==> (forall|x: u32| #[trigger] id_seq(recs).contains(x)
            <==> 1 <= x <= id_seq(recs).to_set().len()),
        recs.len() > 0 && !id_seq(recs).contains(1) ==> !definitions_meta(path, recs).ids_contiguous,
        recs.len() > 0 && !id_seq(recs).contains(0) && !id_seq(recs).contains(1) && (forall|x: u32|
            !#[trigger] repeated(id_seq(recs), x)) ==> exists|i: int|
            0 <= i < definition_findings(path, recs).len()
                && (#[trigger] definition_findings(path, recs)[i]).code == CompatibilityCode::SparseProvinceIds
                && definition_findings(path, recs)[i].severity == CompatibilitySeverity::Warning,
        (forall|x: u32| #[trigger] id_seq(recs).contains(x) <==> 1 <= x <= recs.len()) && (forall|x: u32|
            !#[trigger] repeated(id_seq(recs), x)) ==> definitions_meta(path, recs).ids_contiguous && forall|i: int|
            0 <= i < definition_findings(path, recs).len() ==> (#[trigger] definition_findings(path, recs)[i]).code
                != CompatibilityCode::SparseProvinceIds,
{
    let ids = id_seq(recs);
    let asc = ascending_of(ids.to_set());
    lemma_ascending_of_values(ids);
    assert(asc.no_duplicates()) by {
        assert forall|i: int, j: int| 0 <= i < asc.len() && 0 <= j < asc.len() && i != j implies asc[i]
            != asc[j] by {
            if i < j {
                assert(asc[i] < asc[j]);
            } else {
                assert(asc[j] < asc[i]);
            }
        }
    }
    asc.unique_seq_to_set();
    lemma_contiguous_laws(asc, asc.len());
    assert forall|x: u32| #[trigger] ids.contains(x) <==> asc.contains(x) by {
        assert(ids.to_set().contains(x) == ids.contains(x));
        assert(asc.to_set().contains(x) == asc.contains(x));
    }
    assert(asc.len() == ids.to_set().len());
    let n = ids.to_set().len();
    if contiguous_from_one(asc, n) {
        assert forall|x: u32| #[trigger] ids.contains(x) <==> 1 <= x <= n by {
            assert(asc.contains(x) <==> 1 <= x <= n);
        }
    }
    if forall|x: u32| #[trigger] ids.contains(x) <==> 1 <= x <= n {
        assert forall|x: u32| #[trigger] asc.contains(x) <==> 1 <= x <= n by {
            assert(ids.contains(x) <==> 1 <= x <= n);
        }
    }
    if recs.len() > 0 {
        assert(ids.contains(ids[0]));
        assert(asc.len() > 0) by {
            assert(asc.to_set().contains(ids[0]));
        }
        if !ids.contains(1) {
            assert(!asc.contains(1));
            assert(asc.contains(asc[0]));
            assert(asc[0] != 1);
            lemma_contiguous_laws(asc, recs.len());
        }
    }
    if forall|x: u32| !#[trigger] repeated(ids, x) {
        assert(ids.no_duplicates()) by {
            assert forall|i: int, j: int| 0 <= i < ids.len() && 0 <= j < ids.len() && i != j implies ids[i]
                != ids[j] by {
                if ids[i] == ids[j] {
                    if i < j {
                        assert(repeated(ids, ids[i]));
                    } else {
                        assert(repeated(ids, ids[j]));
                    }
                }
            }
        }
        ids.unique_seq_to_set();
        assert(repeated_values(ids) =~= Set::<u32>::empty());
        assert(Seq::<u32>::empty().to_set() =~= Set::<u32>::empty());
        lemma_ascending_of_is(Set::<u32>::empty(), Seq::<u32>::empty());
        if recs.len() > 0 && !ids.contains(0) && !ids.contains(1) {
            let f = definition_findings(path, recs);
            let k = f.len() - 1;
            assert(f[k].code == CompatibilityCode::SparseProvinceIds);
        }
        if forall|x: u32| #[trigger] ids.contains(x) <==> 1 <= x <= recs.len() {
            assert(ids.len() == recs.len());
            assert forall|x: u32| #[trigger] asc.contains(x) <==> 1 <= x <= n by {
                assert(ids.contains(x) <==> 1 <= x <= recs.len());
            }
            assert(contiguous_from_one(asc, n));
            assert(!asc.contains(0)) by {
                assert(!ids.contains(0));
            }
            if recs.len() > 0 {
                let f = definition_findings(path, recs);
                let dup_colors = ascending_of(repeated_values(color_seq(recs)));
                assert(f =~= if dup_colors.len() > 0 {
                    seq![
                        finding(
                            CompatibilityCode::DuplicateProvinceColor,
                            CompatibilitySeverity::Malformed,
                            color_context(Some(path), dup_colors.len(), samples(dup_colors)),
                        ),
                    ]
                } else {
                    Seq::empty()
                });
            }
        }
    }
}

/// The increasing ids that are not at their place in 1, 2, 3, ...
pub open spec fn misplaced(asc: Seq<u32>) -> Seq<u32>
    decreases asc.len(),
{
    if asc.len() == 0 {
        Seq::empty()
    } else {
        let p = misplaced(asc.drop_last());
        if asc.last() != asc.len() {
            p.push(asc.last())
        } else {
            p
        }
    }
}

/// What the definition table holds, by its records.
pub open spec fn definitions_meta(path: Seq<char>, recs: Seq<(u32, u32)>) -> DefinitionsView {
    let asc = ascending_of(id_seq(recs).to_set());
    DefinitionsView {
        path,
        record_count: recs.len() as usize,
        minimum_province_id: if asc.len() > 0 {
            Some(asc[0])
        } else {
            None
        },
        maximum_province_id: if asc.len() > 0 {
            Some(asc.last())
        } else {
            None
        },
        occupied_province_ids: asc.len() as usize,
        ids_contiguous: contiguous_from_one(asc, asc.len()),
    }
}

/// The findings on the records of a definition table: an empty table; ids
/// and colors used more than once; id 0, or else ids that are not exactly
/// 1 to the number of records when no id repeats.
pub open spec fn definition_findings(path: Seq<char>, recs: Seq<(u32, u32)>) -> Seq<FindingView> {
    if recs.len() == 0 {
        seq![
            finding(
                CompatibilityCode::DefinitionEmpty,
                CompatibilitySeverity::Malformed,
                path_context(path),
            ),
        ]
    } else {
        let asc = ascending_of(id_seq(recs).to_set());
        let dup_ids = ascending_of(repeated_values(id_seq(recs)));
        let dup_colors = ascending_of(repeated_values(color_seq(recs)));
        let ids_found = if dup_ids.len() > 0 {
            seq![
                finding(
                    CompatibilityCode::DuplicateProvinceId,
                    CompatibilitySeverity::Malformed,
                    id_context(Some(path), dup_ids.len(), samples(dup_ids)),
                ),
            ]
        } else {
            Seq::empty()
        };
        let colors_found = if dup_colors.len() > 0 {
            seq![
                finding(
                    CompatibilityCode::DuplicateProvinceColor,
                    CompatibilitySeverity::Malformed,
                    color_context(Some(path), dup_colors.len(), samples(dup_colors)),
                ),
            ]
        } else {
            Seq::empty()
        };
        let range_found = if asc.contains(0) {
            seq![
                finding(
                    CompatibilityCode::InvalidProvinceIdRange,
                    CompatibilitySeverity::Malformed,
                    id_context(Some(path), asc.len(), seq![0u32]),
                ),
            ]
        } else if dup_ids.len() == 0 && !contiguous_from_one(asc, recs.len()) {
            seq![
                finding(
                    CompatibilityCode::SparseProvinceIds,
                    CompatibilitySeverity::Warning,
                    id_context(Some(path), asc.len(), samples(misplaced(asc))),
                ),
            ]
        } else {
            Seq::empty()
        };
        ids_found + colors_found + range_found
    }
}

/// What the definition step finds: its findings, the table's metadata and
/// its records.
pub open spec fn definitions_step(path: Seq<char>, read: ReadView) -> (
    Seq<FindingView>,
    Option<DefinitionsView>,
    Option<Seq<(u32, u32)>>,
) {
    let malformed = seq![
        finding(
            CompatibilityCode::DefinitionMalformed,
            CompatibilitySeverity::Malformed,
            path_context(path),
        ),
    ];
    match read {
        ReadView::Missing => (
            seq![
                finding(
                    CompatibilityCode::DefinitionMissing,
                    CompatibilitySeverity::Malformed,
                    path_context(path),
                ),
            ],
            None,
            None,
        ),
        ReadView::Unreadable => (malformed, None, None),
        ReadView::Bytes(b) => match parsed_definitions(b) {
            None => (malformed, None, None),
            Some(recs) => (
                definition_findings(path, recs),
                Some(definitions_meta(path, recs)),
                Some(recs),
            ),
        },
    }
}

proof fn lemma_repeated_push(t: Seq<u32>, x: u32, y: u32)
    ensures
        repeated(t.push(x), y) == (repeated(t, y) || (y == x && t.contains(x))),
{
    let u = t.push(x);
    if repeated(u, y) {
        let (i, j) = choose|i: int, j: int| 0 <= i < j < u.len() && u[i] == y && u[j] == y;
        if j < t.len() {
            assert(t[i] == y && t[j] == y);
        } else {
            assert(t[i] == y);
        }
    }
    if repeated(t, y) {
        let (i, j) = choose|i: int, j: int| 0 <= i < j < t.len() && t[i] == y && t[j] == y;
        assert(u[i] == y && u[j] == y);
    }
    if y == x && t.contains(x) {
        let i = choose|i: int| 0 <= i < t.len() && t[i] == x;
        assert(u[i] == y && u[t.len() as int] == y);
    }
}

proof fn lemma_ascending_of_is(st: Set<u32>, v: Seq<u32>)
    requires
        strictly_ascending(v),
        v.to_set() == st,
    ensures
        ascending_of(st) == v,
{
    let c = ascending_of(st);
    assert(strictly_ascending(c) && c.to_set() == st);
    lemma_ascending_unique(c, v);
}

/// The distinct values of `s` and the values it repeats, each increasing.
fn distinct_and_repeated(s: &Vec<u32>) -> (r: (Vec<u32>, Vec<u32>))
    ensures
        r.0@ == ascending_of(s@.to_set()),
        r.1@ == ascending_of(repeated_values(s@)),
        strictly_ascending(r.0@),
        strictly_ascending(r.1@),
        r.0@.to_set() == s@.to_set(),
        r.1@.to_set() == repeated_values(s@),
{
    let mut seen: Vec<u32> = Vec::new();
    let mut twice: Vec<u32> = Vec::new();
    let mut i: usize = 0;
    assert(seen@.to_set() =~= s@.subrange(0, 0).to_set());
    assert(twice@.to_set() =~= repeated_values(s@.subrange(0, 0)));
    while i < s.len()
        invariant
            i <= s@.len(),
            strictly_ascending(seen@),
            strictly_ascending(twice@),
            seen@.to_set() == s@.subrange(0, i as int).to_set(),
            twice@.to_set() == repeated_values(s@.subrange(0, i as int)),
        decreases s.len() - i,
    {
        let x = s[i];
        let ghost t = s@.subrange(0, i as int);
        let ghost u = s@.subrange(0, i + 1);
        assert(u =~= t.push(x));
        let ghost seen_before = seen@;
        let ghost twice_before = twice@;
        if contains_ascending(&seen, x) {
            insert_ascending(&mut twice, x);
            assert(t.contains(x)) by {
                assert(seen_before.to_set().contains(x));
            }
        } else {
            insert_ascending(&mut seen, x);
            assert(!t.contains(x)) by {
                if t.contains(x) {
                    assert(seen_before.to_set().contains(x));
                }
            }
        }
        assert forall|y: u32| twice@.to_set().contains(y) == repeated_values(u).contains(y) by {
            lemma_repeated_push(t, x, y);
        }
        assert(twice@.to_set() =~= repeated_values(u));
        assert forall|y: u32| seen@.to_set().contains(y) == u.to_set().contains(y) by {
            assert(u.contains(y) == (t.contains(y) || y == x)) by {
                if u.contains(y) {
                    let k = choose|k: int| 0 <= k < u.len() && u[k] == y;
                    if k < t.len() {
                        assert(t[k] == y);
                    }
                }
                if t.contains(y) {
                    let k = choose|k: int| 0 <= k < t.len() && t[k] == y;
                    assert(u[k] == y);
                }
                if y == x {
                    assert(u[t.len() as int] == y);
                }
            }
        }
        assert(seen@.to_set() =~= u.to_set());
        i = i + 1;
    }
    assert(s@.subrange(0, s.len() as int) =~= s@);
    proof {
        lemma_ascending_of_is(s@.to_set(), seen@);
        lemma_ascending_of_is(repeated_values(s@), twice@);
    }
    (seen, twice)
}

/// At most the first sixteen values.
fn first_samples(v: &Vec<u32>) -> (r: Vec<u32>)
    ensures
        r@ == samples(v@),
{
    let mut out: Vec<u32> = Vec::new();
    let mut i: usize = 0;
    while i < v.len() && i < SAMPLE_LIMIT
        invariant
            i <= v.len(),
            i <= 16,
            out@ == v@.subrange(0, i as int),
        decreases v.len() - i,
    {
        out.push(v[i]);
        i = i + 1;
        assert(out@ =~= v@.subrange(0, i as int));
    }
    assert(out@ =~= samples(v@));
    out
}

/// The first sixteen misplaced ids of an increasing sequence.
fn misplaced_samples(asc: &Vec<u32>) -> (r: Vec<u32>)
    ensures
        r@ == samples(misplaced(asc@)),
{
    let mut out: Vec<u32> = Vec::new();
    let mut i: usize = 0;
    assert(asc@.subrange(0, 0) =~= Seq::<u32>::empty());
    while i < asc.len()
        invariant
            i <= asc@.len(),
            out@ == samples(misplaced(asc@.subrange(0, i as int))),
        decreases asc.len() - i,
    {
        let ghost p = asc@.subrange(0, i + 1);
        assert(p.drop_last() =~= asc@.subrange(0, i as int));
        assert(p.last() == asc@[i as int]);
        let ghost before = misplaced(asc@.subrange(0, i as int));
        if (asc[i] as u64) != (i as u64) + 1 {
            if out.len() < SAMPLE_LIMIT {
                out.push(asc[i]);
            }
            assert(misplaced(p) == before.push(asc@[i as int]));
            assert(samples(before.push(asc@[i as int])) =~= if before.len() < 16 {
                samples(before).push(asc@[i as int])
            } else {
                samples(before)
            });
        }
        i = i + 1;
    }
    assert(asc@.subrange(0, asc.len() as int) =~= asc@);
    out
}

pub open spec fn below_color_limit(s: Seq<u32>) -> bool {
    forall|i: int| 0 <= i < s.len() ==> #[trigger] s[i] < 0x1000000
}

proof fn lemma_unpack(c: u32)
    requires
        c < 0x1000000,
    ensures
        pack([(c / 65536) as u8, ((c / 256) % 256) as u8, (c % 256) as u8]) == c,
{
    let a = [(c / 65536) as u8, ((c / 256) % 256) as u8, (c % 256) as u8];
    assert(a[0] == c / 65536 && a[1] == (c / 256) % 256 && a[2] == c % 256) by {
        assert(c / 65536 < 256) by (nonlinear_arith)
            requires
                c < 0x1000000,
        ;
    }
    assert((c / 65536) * 65536 + ((c / 256) % 256) * 256 + c % 256 == c) by (nonlinear_arith)
        requires
            c < 0x1000000,
    ;
}

/// The colors of packed values.
fn unpack_colors(v: &Vec<u32>) -> (r: Vec<[u8; 3]>)
    requires
        below_color_limit(v@),
    ensures
        r@.map_values(|c: [u8; 3]| pack(c)) == v@,
{
    let mut out: Vec<[u8; 3]> = Vec::new();
    let mut i: usize = 0;
    while i < v.len()
        invariant
            i <= v@.len(),
            below_color_limit(v@),
            out@.map_values(|c: [u8; 3]| pack(c)) == v@.subrange(0, i as int),
        decreases v.len() - i,
    {
        let c = v[i];
        assert(c < 0x1000000);
        proof {
            lemma_unpack(c);
        }
        let color: [u8; 3] = [(c / 65536) as u8, ((c / 256) % 256) as u8, (c % 256) as u8];
        let ghost before = out@;
        out.push(color);
        assert(out@.map_values(|c: [u8; 3]| pack(c)) =~= before.map_values(|c: [u8; 3]| pack(c)).push(
            pack(color),
        ));
        i = i + 1;
        assert(v@.subrange(0, i as int) =~= v@.subrange(0, i - 1).push(c));
    }
    assert(v@.subrange(0, v.len() as int) =~= v@);
    out
}

fn ids_of(defs: &Vec<DefinitionRecord>) -> (r: (Vec<u32>, Vec<u32>))
    ensures
        r.0@ == id_seq(defs@.map_values(|d: DefinitionRecord| record_view(d))),
        r.1@ == color_seq(defs@.map_values(|d: DefinitionRecord| record_view(d))),
        below_color_limit(r.1@),
{
    let ghost recs = defs@.map_values(|d: DefinitionRecord| record_view(d));
    let mut ids: Vec<u32> = Vec::new();
    let mut colors: Vec<u32> = Vec::new();
    let mut i: usize = 0;
    while i < defs.len()
        invariant
            i <= defs@.len(),
            recs == defs@.map_values(|d: DefinitionRecord| record_view(d)),
            ids@ == id_seq(recs).subrange(0, i as int),
            colors@ == color_seq(recs).subrange(0, i as int),
            below_color_limit(colors@),
        decreases defs.len() - i,
    {
        let d = defs[i];
        ids.push(d.id);
        let c = (d.rgb[0] as u32) * 65536 + (d.rgb[1] as u32) * 256 + (d.rgb[2] as u32);
        assert(c == pack(d.rgb));
        colors.push(c);
        i = i + 1;
        assert(ids@ =~= id_seq(recs).subrange(0, i as int));
        assert(colors@ =~= color_seq(recs).subrange(0, i as int));
    }
    assert(id_seq(recs).subrange(0, defs.len() as int) =~= id_seq(recs));
    assert(color_seq(recs).subrange(0, defs.len() as int) =~= color_seq(recs));
    (ids, colors)
}

fn is_contiguous_from_one(asc: &Vec<u32>, n: usize) -> (r: bool)
    ensures
        r == contiguous_from_one(asc@, n as nat),
{
    if asc.len() != n {
        return false;
    }
    let mut k: usize = 0;
    while k < asc.len()
        invariant
            k <= asc@.len(),
            forall|j: int| 0 <= j < k ==> asc@[j] == j + 1,
        decreases asc.len() - k,
    {
        if (asc[k] as u64) != (k as u64) + 1 {
            return false;
        }
        k = k + 1;
    }
    true
}

fn push_finding(report: &mut CompatibilityReport, f: CompatibilityFinding)
    ensures
        final(report)@ == (ReportView { findings: old(report)@.findings.push(f@), ..old(report)@ }),
{
    report.findings.push(f);
    assert(final(report)@.findings =~= old(report)@.findings.push(f@));
}

/// Inspects the definition table: records its metadata and findings and
/// gives its records.
pub fn inspect_definitions(report: &mut CompatibilityReport, path: &str, read: &FileRead) -> (r:
    Option<Vec<DefinitionRecord>>)
    ensures
        ({
            let (found, meta, recs) = definitions_step(path@, read@);
            &&& final(report)@ == (ReportView {
                findings: old(report)@.findings + found,
                definitions: if meta is Some {
                    meta
                } else {
                    old(report)@.definitions
                },
                ..old(report)@
            })
            &&& match r {
                Some(v) => recs == Some(v@.map_values(|d: DefinitionRecord| record_view(d))),
                None => recs is None,
            }
        }),
{
    let ghost malformed = seq![
        finding(
            CompatibilityCode::DefinitionMalformed,
            CompatibilitySeverity::Malformed,
            path_context(path@),
        ),
    ];
    let bytes = match read {
        FileRead::Missing => {
            push_path_finding(
                report,
                CompatibilityCode::DefinitionMissing,
                CompatibilitySeverity::Malformed,
                path,
            );
            assert(report@.findings =~= old(report)@.findings + seq![
                finding(
                    CompatibilityCode::DefinitionMissing,
                    CompatibilitySeverity::Malformed,
                    path_context(path@),
                ),
            ]);
            return None;
        },
        FileRead::Unreadable => {
            push_path_finding(
                report,
                CompatibilityCode::DefinitionMalformed,
                CompatibilitySeverity::Malformed,
                path,
            );
            assert(report@.findings =~= old(report)@.findings + malformed);
            return None;
        },
        FileRead::Bytes(bytes) => bytes,
    };
    let defs = match parse_definitions(bytes.as_slice()) {
        Some(defs) => defs,
        None => {
            push_path_finding(
                report,
                CompatibilityCode::DefinitionMalformed,
                CompatibilitySeverity::Malformed,
                path,
            );
            assert(report@.findings =~= old(report)@.findings + malformed);
            return None;
        },
    };
    let ghost recs = defs@.map_values(|d: DefinitionRecord| record_view(d));
    let (ids, colors) = ids_of(&defs);
    let (distinct_ids, repeated_ids) = distinct_and_repeated(&ids);
    let (_distinct_colors, repeated_colors) = distinct_and_repeated(&colors);
    let n = distinct_ids.len();
    let contiguous = is_contiguous_from_one(&distinct_ids, n);
    let metadata = DefinitionCompatibilityMetadata {
        path: path.to_owned(),
        record_count: defs.len(),
        minimum_province_id: if n > 0 {
            Some(distinct_ids[0])
        } else {
            None
        },
        maximum_province_id: if n > 0 {
            Some(distinct_ids[n - 1])
        } else {
            None
        },
        occupied_province_ids: n,
        ids_contiguous: contiguous,
    };
    report.definitions = Some(metadata);
    let ghost start = old(report)@.findings;
    if defs.len() == 0 {
        push_path_finding(
            report,
            CompatibilityCode::DefinitionEmpty,
            CompatibilitySeverity::Malformed,
            path,
        );
        assert(report@.findings =~= start + definition_findings(path@, recs));
        return Some(defs);
    }
    let ghost dup_ids = ascending_of(repeated_values(id_seq(recs)));
    let ghost dup_colors = ascending_of(repeated_values(color_seq(recs)));
    let ghost asc = ascending_of(id_seq(recs).to_set());
    if repeated_ids.len() > 0 {
        let sample = first_samples(&repeated_ids);
        let context = CompatibilityContext {
            path: Some(path.to_owned()),
            province_id: None,
            color: None,
            count: Some(repeated_ids.len()),
            expected_dimensions: None,
            actual_dimensions: None,
            sample_province_ids: sample,
            sample_colors: Vec::new(),
        };
        assert(context@ == id_context(Some(path@), dup_ids.len(), samples(dup_ids))) by {
            assert(context@.sample_colors =~= Seq::<u32>::empty());
        }
        push_finding(
            report,
            CompatibilityFinding {
                code: CompatibilityCode::DuplicateProvinceId,
                severity: CompatibilitySeverity::Malformed,
                context,
            },
        );
    }
    let ghost after_ids = report@.findings;
    if repeated_colors.len() > 0 {
        proof {
            assert forall|i: int| 0 <= i < repeated_colors@.len() implies #[trigger] repeated_colors@[i]
                < 0x1000000 by {
                let x = repeated_colors@[i];
                assert(repeated_colors@.to_set().contains(x));
                assert(repeated_values(colors@).contains(x));
                let (a, b) = choose|a: int, b: int|
                    0 <= a < b < colors@.len() && colors@[a] == x && colors@[b] == x;
                assert(colors@[a] < 0x1000000);
            }
        }
        let sample = first_samples(&repeated_colors);
        let unpacked = unpack_colors(&sample);
        let context = CompatibilityContext {
            path: Some(path.to_owned()),
            province_id: None,
            color: None,
            count: Some(repeated_colors.len()),
            expected_dimensions: None,
            actual_dimensions: None,
            sample_province_ids: Vec::new(),
            sample_colors: unpacked,
        };
        assert(context@ == color_context(Some(path@), dup_colors.len(), samples(dup_colors))) by {
            assert(context@.sample_province_ids =~= Seq::<u32>::empty());
        }
        push_finding(
            report,
            CompatibilityFinding {
                code: CompatibilityCode::DuplicateProvinceColor,
                severity: CompatibilitySeverity::Malformed,
                context,
            },
        );
    }
    let ghost after_colors = report@.findings;
    let has_zero = contains_ascending(&distinct_ids, 0);
    if has_zero {
        let mut zero: Vec<u32> = Vec::new();
        zero.push(0);
        let context = CompatibilityContext {
            path: Some(path.to_owned()),
            province_id: None,
            color: None,
            count: Some(n),
            expected_dimensions: None,
            actual_dimensions: None,
            sample_province_ids: zero,
            sample_colors: Vec::new(),
        };
        assert(context@ == id_context(Some(path@), asc.len(), seq![0u32])) by {
            assert(context@.sample_colors =~= Seq::<u32>::empty());
            assert(context@.sample_province_ids =~= seq![0u32]);
        }
        push_finding(
            report,
            CompatibilityFinding {
                code: CompatibilityCode::InvalidProvinceIdRange,
                severity: CompatibilitySeverity::Malformed,
                context,
            },
        );
    } else if repeated_ids.len() == 0 && !is_contiguous_from_one(&distinct_ids, defs.len()) {
        let sample = misplaced_samples(&distinct_ids);
        let context = CompatibilityContext {
            path: Some(path.to_owned()),
            province_id: None,
            color: None,
            count: Some(n),
            expected_dimensions: None,
            actual_dimensions: None,
            sample_province_ids: sample,
            sample_colors: Vec::new(),
        };
        assert(context@ == id_context(Some(path@), asc.len(), samples(misplaced(asc)))) by {
            assert(context@.sample_colors =~= Seq::<u32>::empty());
        }
        push_finding(
            report,
            CompatibilityFinding {
                code: CompatibilityCode::SparseProvinceIds,
                severity: CompatibilitySeverity::Warning,
                context,
            },
        );
    }
    assert(report@.findings =~= start + definition_findings(path@, recs));
    Some(defs)
}

/// The values of `a` that `b` lacks, both increasing.
fn ascending_difference(a: &Vec<u32>, b: &Vec<u32>) -> (r: Vec<u32>)
    requires
        strictly_ascending(a@),
        strictly_ascending(b@),
    ensures
        r@ == ascending_of(a@.to_set().difference(b@.to_set())),
        strictly_ascending(r@),
        r@.to_set() == a@.to_set().difference(b@.to_set()),
        forall|i: int| 0 <= i < r@.len() ==> a@.contains(#[trigger] r@[i]),
{
    let mut out: Vec<u32> = Vec::new();
    let mut i: usize = 0;
    while i < a.len()
        invariant
            i <= a@.len(),
            strictly_ascending(a@),
            strictly_ascending(b@),
            strictly_ascending(out@),
            forall|x: u32|
                out@.contains(x) <==> (exists|j: int| 0 <= j < i && a@[j] == x) && !b@.contains(x),
        decreases a.len() - i,
    {
        let x = a[i];
        let ghost before = out@;
        if !contains_ascending(b, x) {
            out.push(x);
            assert forall|p: int, q: int| 0 <= p < q < out@.len() implies out@[p] < out@[q] by {
                if q == out@.len() - 1 {
                    assert(before.contains(before[p]));
                    let j = choose|j: int| 0 <= j < i && a@[j] == before[p];
                    assert(a@[j] < a@[i as int]);
                } else {
                    assert(before[p] < before[q]);
                }
            }
            assert forall|x2: u32| out@.contains(x2) <==> (exists|j: int|
                0 <= j < i + 1 && a@[j] == x2) && !b@.contains(x2) by {
                if out@.contains(x2) {
                    let k = choose|k: int| 0 <= k < out@.len() && out@[k] == x2;
                    if k < before.len() {
                        assert(before.contains(x2));
                    }
                }
                if (exists|j: int| 0 <= j < i + 1 && a@[j] == x2) && !b@.contains(x2) {
                    let j = choose|j: int| 0 <= j < i + 1 && a@[j] == x2;
                    if j < i {
                        assert(before.contains(x2));
                        let k = choose|k: int| 0 <= k < before.len() && before[k] == x2;
                        assert(out@[k] == x2);
                    } else {
                        assert(out@[before.len() as int] == x2);
                    }
                }
            }
        } else {
            assert forall|x2: u32| out@.contains(x2) <==> (exists|j: int|
                0 <= j < i + 1 && a@[j] == x2) && !b@.contains(x2) by {
                if (exists|j: int| 0 <= j < i + 1 && a@[j] == x2) && !b@.contains(x2) {
                    let j = choose|j: int| 0 <= j < i + 1 && a@[j] == x2;
                    if j == i {
                        assert(b@.contains(x));
                    }
                }
            }
        }
        i = i + 1;
    }
    assert forall|x: u32| out@.to_set().contains(x) == a@.to_set().difference(b@.to_set()).contains(
        x,
    ) by {
        if a@.contains(x) {
            let j = choose|j: int| 0 <= j < a@.len() && a@[j] == x;
        }
    }
    assert(out@.to_set() =~= a@.to_set().difference(b@.to_set()));
    proof {
        lemma_ascending_of_is(a@.to_set().difference(b@.to_set()), out@);
        assert forall|k: int| 0 <= k < out@.len() implies a@.contains(#[trigger] out@[k]) by {
            assert(out@.contains(out@[k]));
            let j = choose|j: int| 0 <= j < i && a@[j] == out@[k];
        }
    }
    out
}

/// The findings of comparing the bitmap's colors with the defined colors:
/// colors without a definition, and defined colors the bitmap does not use.
pub open spec fn cross_check_findings(
    bitmap_path: Option<Seq<char>>,
    definitions_path: Option<Seq<char>>,
    colors: Seq<u32>,
    recs: Seq<(u32, u32)>,
) -> Seq<FindingView> {
    let defined = color_seq(recs).to_set();
    let missing = ascending_of(colors.to_set().difference(defined));
    let unused = ascending_of(defined.difference(colors.to_set()));
    (if missing.len() > 0 {
        seq![
            finding(
                CompatibilityCode::BitmapColorMissingDefinition,
                CompatibilitySeverity::Malformed,
                color_context(bitmap_path, missing.len(), samples(missing)),
            ),
        ]
    } else {
        Seq::empty()
    }) + (if unused.len() > 0 {
        seq![
            finding(
                CompatibilityCode::DefinitionColorUnused,
                CompatibilitySeverity::Warning,
                color_context(definitions_path, unused.len(), samples(unused)),
            ),
        ]
    } else {
        Seq::empty()
    })
}

pub open spec fn bitmap_path_of(r: ReportView) -> Option<Seq<char>> {
    match r.bitmap {
        Some(b) => Some(b.path),
        None => None,
    }
}

pub open spec fn definitions_path_of(r: ReportView) -> Option<Seq<char>> {
    match r.definitions {
        Some(d) => Some(d.path),
        None => None,
    }
}

fn color_finding(
    code: CompatibilityCode,
    severity: CompatibilitySeverity,
    path: Option<String>,
    colors: &Vec<u32>,
) -> (r: CompatibilityFinding)
    requires
        below_color_limit(colors@),
    ensures
        r@ == finding(code, severity, color_context(opt_str_view(path), colors@.len(), samples(colors@))),
{
    let sample = first_samples(colors);
    assert(below_color_limit(sample@)) by {
        assert forall|i: int| 0 <= i < sample@.len() implies #[trigger] sample@[i] < 0x1000000 by {
            assert(sample@[i] == colors@[i]);
        }
    }
    let unpacked = unpack_colors(&sample);
    let context = CompatibilityContext {
        path,
        province_id: None,
        color: None,
        count: Some(colors.len()),
        expected_dimensions: None,
        actual_dimensions: None,
        sample_province_ids: Vec::new(),
        sample_colors: unpacked,
    };
    assert(context@.sample_province_ids =~= Seq::<u32>::empty());
    CompatibilityFinding { code, severity, context }
}

fn id_finding(
    code: CompatibilityCode,
    severity: CompatibilitySeverity,
    path: Option<String>,
    count: usize,
    ids: Vec<u32>,
) -> (r: CompatibilityFinding)
    ensures
        r@ == finding(code, severity, id_context(opt_str_view(path), count as nat, ids@)),
{
    let context = CompatibilityContext {
        path,
        province_id: None,
        color: None,
        count: Some(count),
        expected_dimensions: None,
        actual_dimensions: None,
        sample_province_ids: ids,
        sample_colors: Vec::new(),
    };
    assert(context@.sample_colors =~= Seq::<u32>::empty());
    CompatibilityFinding { code, severity, context }
}

fn clone_path(p: &String) -> (r: String)
    ensures
        r@ == p@,
{
    p.clone()
}

/// Compares the bitmap's colors with the colors the definitions give.
pub fn inspect_color_cross_check(
    report: &mut CompatibilityReport,
    bitmap_colors: &Vec<u32>,
    definitions: &Vec<DefinitionRecord>,
)
    requires
        strictly_ascending(bitmap_colors@),
        below_color_limit(bitmap_colors@),
    ensures
        final(report)@ == (ReportView {
            findings: old(report)@.findings + cross_check_findings(
                bitmap_path_of(old(report)@),
                definitions_path_of(old(report)@),
                bitmap_colors@,
                definitions@.map_values(|d: DefinitionRecord| record_view(d)),
            ),
            ..old(report)@
        }),
{
    let ghost recs = definitions@.map_values(|d: DefinitionRecord| record_view(d));
    let (_ids, colors) = ids_of(definitions);
    let (defined, _repeated) = distinct_and_repeated(&colors);
    assert(below_color_limit(defined@)) by {
        assert forall|i: int| 0 <= i < defined@.len() implies #[trigger] defined@[i] < 0x1000000 by {
            let x = defined@[i];
            assert(defined@.to_set().contains(x));
            assert(colors@.contains(x));
            let k = choose|k: int| 0 <= k < colors@.len() && colors@[k] == x;
            assert(colors@[k] < 0x1000000);
        }
    }
    let missing = ascending_difference(bitmap_colors, &defined);
    let unused = ascending_difference(&defined, bitmap_colors);
    let bitmap_path = match &report.bitmap {
        Some(b) => Some(clone_path(&b.path)),
        None => None,
    };
    let definitions_path = match &report.definitions {
        Some(d) => Some(clone_path(&d.path)),
        None => None,
    };
    assert(opt_str_view(bitmap_path) == bitmap_path_of(old(report)@));
    assert(opt_str_view(definitions_path) == definitions_path_of(old(report)@));
    let ghost start = report@.findings;
    if missing.len() > 0 {
        assert(below_color_limit(missing@)) by {
            assert forall|i: int| 0 <= i < missing@.len() implies #[trigger] missing@[i]
                < 0x1000000 by {
                assert(bitmap_colors@.contains(missing@[i]));
                let k = choose|k: int|
                    0 <= k < bitmap_colors@.len() && bitmap_colors@[k] == missing@[i];
                assert(bitmap_colors@[k] < 0x1000000);
            }
        }
        let f = color_finding(
            CompatibilityCode::BitmapColorMissingDefinition,
            CompatibilitySeverity::Malformed,
            bitmap_path,
            &missing,
        );
        push_finding(report, f);
    }
    if unused.len() > 0 {
        assert(below_color_limit(unused@)) by {
            assert forall|i: int| 0 <= i < unused@.len() implies #[trigger] unused@[i] < 0x1000000 by {
                assert(defined@.contains(unused@[i]));
                let k = choose|k: int| 0 <= k < defined@.len() && defined@[k] == unused@[i];
                assert(defined@[k] < 0x1000000);
            }
        }
        let f = color_finding(
            CompatibilityCode::DefinitionColorUnused,
            CompatibilitySeverity::Warning,
            definitions_path,
            &unused,
        );
        push_finding(report, f);
    }
    assert(report@.findings =~= start + cross_check_findings(
        bitmap_path_of(old(report)@),
        definitions_path_of(old(report)@),
        bitmap_colors@,
        recs,
    ));
}

/// A context comparing a bitmap's dimensions with the province bitmap's.
pub open spec fn dimensions_context(
    path: Seq<char>,
    expected: (u32, u32),
    actual: (u32, u32),
) -> ContextView {
    ContextView {
        path: Some(path),
        province_id: None,
        color: None,
        count: None,
        expected_dimensions: Some(expected),
        actual_dimensions: Some(actual),
        sample_province_ids: Seq::empty(),
        sample_colors: Seq::empty(),
    }
}

/// What the related-bitmap step finds for the files present: unreadable
/// files, and files whose dimensions differ from the province bitmap's.
pub open spec fn related_step(expected: Option<(u32, u32)>, items: Seq<(Seq<char>, ReadView)>) -> (
    Seq<FindingView>,
    Seq<RelatedView>,
)
    decreases items.len(),
{
    if items.len() == 0 {
        (Seq::empty(), Seq::empty())
    } else {
        let (found, meta) = related_step(expected, items.drop_last());
        let (path, read) = items.last();
        let unreadable = (
            found.push(
                finding(
                    CompatibilityCode::RelatedBitmapUnreadable,
                    CompatibilitySeverity::Warning,
                    path_context(path),
                ),
            ),
            meta.push(RelatedView { path, dimensions: None, pixel_format: None }),
        );
        match read {
            ReadView::Missing => (found, meta),
            ReadView::Unreadable => unreadable,
            ReadView::Bytes(b) => match bmp_header_of(b) {
                None => unreadable,
                Some((w, h, format)) => {
                    let meta2 = meta.push(
                        RelatedView { path, dimensions: Some((w, h)), pixel_format: Some(format) },
                    );
                    if expected is Some && expected.unwrap() != (w, h) {
                        (
                            found.push(
                                finding(
                                    CompatibilityCode::RelatedBitmapDimensionsMismatch,
                                    CompatibilitySeverity::Warning,
                                    dimensions_context(path, expected.unwrap(), (w, h)),
                                ),
                            ),
                            meta2,
                        )
                    } else {
                        (found, meta2)
                    }
                },
            },
        }
    }
}

pub open spec fn item_views(items: Seq<(String, FileRead)>) -> Seq<(Seq<char>, ReadView)> {
    items.map_values(|e: (String, FileRead)| (e.0@, e.1@))
}

pub open spec fn bitmap_dimensions_of(r: ReportView) -> Option<(u32, u32)> {
    match r.bitmap {
        Some(b) => Some(b.dimensions),
        None => None,
    }
}

/// Inspects the bitmaps beside the province bitmap that are present.
pub fn inspect_related_bitmaps(report: &mut CompatibilityReport, items: &Vec<(String, FileRead)>)
    ensures
        ({
            let (found, meta) = related_step(bitmap_dimensions_of(old(report)@), item_views(items@));
            final(report)@ == (ReportView {
                findings: old(report)@.findings + found,
                related_bitmaps: old(report)@.related_bitmaps + meta,
                ..old(report)@
            })
        }),
{
    let expected: Option<[u32; 2]> = match &report.bitmap {
        Some(b) => Some(b.dimensions),
        None => None,
    };
    let ghost exp = bitmap_dimensions_of(old(report)@);
    assert(dims(expected) == exp);
    let ghost start = report@;
    let mut i: usize = 0;
    assert(item_views(items@).subrange(0, 0) =~= Seq::<(Seq<char>, ReadView)>::empty());
    assert(report@ == (ReportView {
        findings: start.findings + related_step(exp, item_views(items@).subrange(0, 0)).0,
        related_bitmaps: start.related_bitmaps + related_step(exp, item_views(items@).subrange(0, 0)).1,
        ..start
    }));
    while i < items.len()
        invariant
            i <= items@.len(),
            dims(expected) == exp,
            report@ == (ReportView {
                findings: start.findings + related_step(exp, item_views(items@).subrange(0, i as int)).0,
                related_bitmaps: start.related_bitmaps + related_step(
                    exp,
                    item_views(items@).subrange(0, i as int),
                ).1,
                ..start
            }),
        decreases items.len() - i,
    {
        let ghost prefix = item_views(items@).subrange(0, i + 1);
        assert(prefix.drop_last() =~= item_views(items@).subrange(0, i as int));
        assert(prefix.last() == (items@[i as int].0@, items@[i as int].1@));
        let ghost before = report@;
        let ghost rb = report.related_bitmaps@;
        let path = &items[i].0;
        match &items[i].1 {
            FileRead::Missing => {},
            FileRead::Unreadable => {
                push_path_finding(
                    report,
                    CompatibilityCode::RelatedBitmapUnreadable,
                    CompatibilitySeverity::Warning,
                    path.as_str(),
                );
                report.related_bitmaps.push(
                    RelatedBitmapCompatibilityMetadata {
                        path: clone_path(path),
                        dimensions: None,
                        pixel_format: None,
                    },
                );
                assert(views(report.related_bitmaps@) =~= views(rb).push(
                    RelatedView { path: path@, dimensions: None, pixel_format: None },
                ));
            },
            FileRead::Bytes(bytes) => {
                match bmp_header(bytes.as_slice()) {
                    None => {
                        push_path_finding(
                            report,
                            CompatibilityCode::RelatedBitmapUnreadable,
                            CompatibilitySeverity::Warning,
                            path.as_str(),
                        );
                        report.related_bitmaps.push(
                            RelatedBitmapCompatibilityMetadata {
                                path: clone_path(path),
                                dimensions: None,
                                pixel_format: None,
                            },
                        );
                        assert(views(report.related_bitmaps@) =~= views(rb).push(
                            RelatedView { path: path@, dimensions: None, pixel_format: None },
                        ));
                    },
                    Some((width, height, format)) => {
                        let actual: [u32; 2] = [width, height];
                        assert(actual[0] == width && actual[1] == height);
                        let ghost format_view = format@;
                        report.related_bitmaps.push(
                            RelatedBitmapCompatibilityMetadata {
                                path: clone_path(path),
                                dimensions: Some(actual),
                                pixel_format: Some(format),
                            },
                        );
                        assert(views(report.related_bitmaps@) =~= views(rb).push(
                            RelatedView {
                                path: path@,
                                dimensions: Some((width, height)),
                                pixel_format: Some(format_view),
                            },
                        ));
                        match expected {
                            Some(e) => {
                                if e[0] != width || e[1] != height {
                                    let context = CompatibilityContext {
                                        path: Some(clone_path(path)),
                                        province_id: None,
                                        color: None,
                                        count: None,
                                        expected_dimensions: Some(e),
                                        actual_dimensions: Some(actual),
                                        sample_province_ids: Vec::new(),
                                        sample_colors: Vec::new(),
                                    };
                                    assert(context@ == dimensions_context(
                                        path@,
                                        exp.unwrap(),
                                        (width, height),
                                    )) by {
                                        assert(context@.sample_colors =~= Seq::<u32>::empty());
                                    }
                                    push_finding(
                                        report,
                                        CompatibilityFinding {
                                            code: CompatibilityCode::RelatedBitmapDimensionsMismatch,
                                            severity: CompatibilitySeverity::Warning,
                                            context,
                                        },
                                    );
                                }
                            },
                            None => {},
                        }
                    },
                }
            },
        }
        assert(report@.findings =~= start.findings + related_step(exp, prefix).0);
        assert(report@.related_bitmaps =~= start.related_bitmaps + related_step(exp, prefix).1);
        i = i + 1;
    }
    assert(item_views(items@).subrange(0, items.len() as int) =~= item_views(items@));
}

/// The findings of the state step: a missing states directory, or state
/// references to provinces the definitions lack.
pub open spec fn states_findings(
    states: StatesView,
    records: Option<Seq<(u32, u32)>>,
    references: Seq<u32>,
) -> Seq<FindingView> {
    if !states.directory_exists {
        seq![
            finding(
                CompatibilityCode::StatesDirectoryMissing,
                CompatibilitySeverity::Compatible,
                path_context(states.directory),
            ),
        ]
    } else {
        match records {
            None => Seq::empty(),
            Some(recs) => {
                let missing = ascending_of(references.to_set().difference(id_seq(recs).to_set()));
                if missing.len() > 0 {
                    seq![
                        finding(
                            CompatibilityCode::StateReferencesMissingProvince,
                            CompatibilitySeverity::Malformed,
                            id_context(Some(states.directory), missing.len(), samples(missing)),
                        ),
                    ]
                } else {
                    Seq::empty()
                }
            },
        }
    }
}

pub open spec fn opt_records(d: Option<Vec<DefinitionRecord>>) -> Option<Seq<(u32, u32)>> {
    match d {
        Some(v) => Some(v@.map_values(|x: DefinitionRecord| record_view(x))),
        None => None,
    }
}

/// Inspects the state files: counts them and checks the provinces they
/// reference against the definitions.
pub fn inspect_states(
    report: &mut CompatibilityReport,
    state_file_count: usize,
    references: &Vec<u32>,
    definitions: &Option<Vec<DefinitionRecord>>,
)
    ensures
        final(report)@ == (ReportView {
            findings: old(report)@.findings + states_findings(
                old(report)@.states,
                opt_records(*definitions),
                references@,
            ),
            states: StatesView {
                state_file_count: if old(report)@.states.directory_exists {
                    state_file_count
                } else {
                    old(report)@.states.state_file_count
                },
                ..old(report)@.states
            },
            ..old(report)@
        }),
{
    if !report.states.directory_exists {
        let directory = clone_path(&report.states.directory);
        push_path_finding(
            report,
            CompatibilityCode::StatesDirectoryMissing,
            CompatibilitySeverity::Compatible,
            directory.as_str(),
        );
        assert(report@.findings =~= old(report)@.findings + states_findings(
            old(report)@.states,
            opt_records(*definitions),
            references@,
        ));
        return;
    }
    report.states.state_file_count = state_file_count;
    let defs = match definitions {
        Some(d) => d,
        None => {
            assert(report@.findings =~= old(report)@.findings + Seq::<FindingView>::empty());
            return;
        },
    };
    let (ids, _colors) = ids_of(defs);
    let (known, _repeated) = distinct_and_repeated(&ids);
    let referenced = crate::ascending::ascending_unique(references);
    let missing = ascending_difference(&referenced, &known);
    if missing.len() > 0 {
        let sample = first_samples(&missing);
        let f = id_finding(
            CompatibilityCode::StateReferencesMissingProvince,
            CompatibilitySeverity::Malformed,
            Some(clone_path(&report.states.directory)),
            missing.len(),
            sample,
        );
        push_finding(report, f);
    }
    assert(report@.findings =~= old(report)@.findings + states_findings(
        old(report)@.states,
        opt_records(*definitions),
        references@,
    ));
}

/// What a scan reads from a project, gathered by whoever has the files.
#[derive(Debug, Clone, PartialEq, Eq)]
pub struct ScanInputs {
    pub root: String,
    pub map_directory: String,
    pub map_directory_exists: bool,
    pub bitmap_path: String,
    pub bitmap: FileRead,
    pub definition_path: String,
    pub definition: FileRead,
    /// Bitmaps beside the province bitmap that are present, with their contents.
    pub related: Vec<(String, FileRead)>,
    pub states_directory: String,
    pub states_directory_exists: bool,
    pub state_file_count: usize,
    /// The provinces the state files reference.
    pub state_province_references: Vec<u32>,
}

/// The report a scan starts from.
pub open spec fn initial_report(i: ScanInputs) -> ReportView {
    ReportView {
        root: i.root@,
        bitmap: None,
        definitions: None,
        states: StatesView {
            directory: i.states_directory@,
            directory_exists: i.states_directory_exists,
            state_editing_available: i.states_directory_exists,
            state_file_count: 0,
        },
        related_bitmaps: Seq::empty(),
        findings: Seq::empty(),
    }
}

pub open spec fn scanned_states(i: ScanInputs) -> StatesView {
    StatesView {
        state_file_count: if i.states_directory_exists {
            i.state_file_count
        } else {
            0
        },
        ..initial_report(i).states
    }
}

/// The report of a scan. Without a map directory only the states are
/// inspected. Otherwise the province bitmap and the definitions are
/// inspected, their colors compared when both were read, then the related
/// bitmaps and the states.
pub open spec fn scan_result(i: ScanInputs) -> ReportView {
    let start = initial_report(i);
    if !i.map_directory_exists {
        ReportView {
            findings: seq![
                finding(
                    CompatibilityCode::MapDirectoryMissing,
                    CompatibilitySeverity::Malformed,
                    path_context(i.map_directory@),
                ),
            ] + states_findings(start.states, None, i.state_province_references@),
            states: scanned_states(i),
            ..start
        }
    } else {
        let (bitmap_found, bitmap, colors) = bitmap_step(i.bitmap_path@, i.bitmap@);
        let (definition_found, definitions, records) = definitions_step(
            i.definition_path@,
            i.definition@,
        );
        let after = ReportView { bitmap, definitions, ..start };
        let cross = if colors is Some && records is Some {
            cross_check_findings(
                bitmap_path_of(after),
                definitions_path_of(after),
                colors.unwrap(),
                records.unwrap(),
            )
        } else {
            Seq::empty()
        };
        let (related_found, related) = related_step(
            bitmap_dimensions_of(after),
            item_views(i.related@),
        );
        ReportView {
            bitmap,
            definitions,
            related_bitmaps: related,
            states: scanned_states(i),
            findings: bitmap_found + definition_found + cross + related_found + states_findings(
                start.states,
                records,
                i.state_province_references@,
            ),
            ..start
        }
    }
}

/// Scans a project's inputs without changing anything.
pub fn scan_project(inputs: ScanInputs) -> (r: CompatibilityReport)
    ensures
        r@ == scan_result(inputs),
{
    let mut report = CompatibilityReport {
        root: clone_path(&inputs.root),
        bitmap: None,
        definitions: None,
        states: StateCompatibilityMetadata {
            directory: clone_path(&inputs.states_directory),
            directory_exists: inputs.states_directory_exists,
            state_editing_available: inputs.states_directory_exists,
            state_file_count: 0,
        },
        related_bitmaps: Vec::new(),
        findings: Vec::new(),
    };
    assert(report@.findings =~= Seq::<FindingView>::empty());
    assert(report@.related_bitmaps =~= Seq::<RelatedView>::empty());
    assert(report@ == initial_report(inputs));
    let no_definitions: Option<Vec<DefinitionRecord>> = None;
    if !inputs.map_directory_exists {
        push_path_finding(
            &mut report,
            CompatibilityCode::MapDirectoryMissing,
            CompatibilitySeverity::Malformed,
            inputs.map_directory.as_str(),
        );
        inspect_states(
            &mut report,
            inputs.state_file_count,
            &inputs.state_province_references,
            &no_definitions,
        );
        assert(report@.findings =~= scan_result(inputs).findings);
        return report;
    }
    let colors = inspect_province_bitmap(&mut report, inputs.bitmap_path.as_str(), &inputs.bitmap);
    let definitions = inspect_definitions(
        &mut report,
        inputs.definition_path.as_str(),
        &inputs.definition,
    );
    let ghost after = report@;
    match (&colors, &definitions) {
        (Some(c), Some(d)) => {
            inspect_color_cross_check(&mut report, c, d);
        },
        _ => {},
    }
    inspect_related_bitmaps(&mut report, &inputs.related);
    inspect_states(
        &mut report,
        inputs.state_file_count,
        &inputs.state_province_references,
        &definitions,
    );
    assert(report@.findings =~= scan_result(inputs).findings);
    report
}

} // verus!
