//! Differential review of this editor's validation findings against the
//! findings of a reference checker: normalisation, pairing, review
//! classification and reports.
use vstd::prelude::*;
use crate::logistics::lemma_first_match_bound;
use vstd::relations::sorted_by;
use crate::text::{push_char, same_text};
use crate::ascending::{ascending_set, ascending_unique, lemma_ascending_set_is, strictly_ascending};
use crate::fields::{first_match, lemma_first_match};
use crate::diagnostics::ProjectDiagnosticKind;
use crate::problems_ui::{ProjectValidationDiagnostic, ValidationSeverity};
use crate::state::{opt_str_view, same_opt_str, clone_opt_str};
use crate::lexicographic::{
    below_max, enc, enc_opt, key_injective_on, key_le, lemma_enc_opt_prefix_free, lex_less,
    lemma_lex_asymmetric, lemma_lex_irreflexive, lemma_lex_total, lemma_lex_transitive, lex_le,
    lemma_enc_prefix_free, lemma_opt_text_code, lemma_sorted_by_key_unique, lemma_text_code,
    lemma_wide, opt_text_code, opt_valid_text, push_enc, text_code, text_code_vec, valid_text,
    views, wide, wide_vec,
};

verus! {

/// The snapshot format this editor reads and writes.
pub const SNAPSHOT_SCHEMA_VERSION: u32 = 1;

/// The reference checker whose findings snapshots hold.
pub const HERBIX_REFERENCE_TOOL: &'static str = "hoi4modutilities";

/// The reference checker's version that snapshots were taken with.
pub const HERBIX_REFERENCE_VERSION: &'static str = "0.16.0";

/// How serious a normalised finding is.
#[derive(Debug, Clone, Copy, PartialEq, Eq, PartialOrd, Ord, Hash, Structural)]
pub enum FindingSeverity {
    Error,
    Warning,
    Information,
}

/// Position of a severity in declaration order.
pub open spec fn severity_code(s: FindingSeverity) -> u64 {
    match s {
        FindingSeverity::Error => 0,
        FindingSeverity::Warning => 1,
        FindingSeverity::Information => 2,
    }
}

fn severity_code_exec(s: FindingSeverity) -> (r: u64)
    ensures
        r == severity_code(s),
{
    match s {
        FindingSeverity::Error => 0,
        FindingSeverity::Warning => 1,
        FindingSeverity::Information => 2,
    }
}

/// Which checker reported a finding.
#[derive(Debug, Clone, Copy, PartialEq, Eq, PartialOrd, Ord, Hash, Structural)]
pub enum CompatibilityFindingSource {
    Editor,
    Herbix,
}

/// A finding in the form both checkers are compared in.
#[derive(Debug, Clone, PartialEq, Eq, PartialOrd, Ord, Hash)]
pub struct CompatibilityFinding {
    pub rule: String,
    pub severity: FindingSeverity,
    pub province_ids: Vec<u32>,
    pub state_ids: Vec<u32>,
    pub coordinate: Option<[u32; 2]>,
    pub logical_source: Option<String>,
    pub detail: Option<String>,
}

/// Plain-value view of a finding.
pub struct FindingView {
    pub rule: Seq<char>,
    pub severity: FindingSeverity,
    pub province_ids: Seq<u32>,
    pub state_ids: Seq<u32>,
    pub coordinate: Option<(u32, u32)>,
    pub logical_source: Option<Seq<char>>,
    pub detail: Option<Seq<char>>,
}

pub open spec fn coordinate_view(c: Option<[u32; 2]>) -> Option<(u32, u32)> {
    match c {
        Some(a) => Some((a[0], a[1])),
        None => None,
    }
}

impl View for CompatibilityFinding {
    type V = FindingView;

    open spec fn view(&self) -> FindingView {
        FindingView {
            rule: self.rule@,
            severity: self.severity,
            province_ids: self.province_ids@,
            state_ids: self.state_ids@,
            coordinate: coordinate_view(self.coordinate),
            logical_source: opt_str_view(self.logical_source),
            detail: opt_str_view(self.detail),
        }
    }
}

/// Every text of the finding is made of Unicode scalar values.
pub open spec fn valid_finding(f: FindingView) -> bool {
    &&& valid_text(f.rule)
    &&& opt_valid_text(f.logical_source)
    &&& opt_valid_text(f.detail)
}

pub open spec fn coordinate_key(c: Option<(u32, u32)>) -> Seq<u64> {
    match c {
        None => seq![0u64],
        Some((x, y)) => seq![1u64, x as u64, y as u64],
    }
}

/// The sort key of a finding: its fields in declaration order, each
/// self-delimiting, so that the key order is the field-by-field order
/// (texts by code point, id lists element by element, absent before present).
pub open spec fn finding_key(f: FindingView) -> Seq<u64> {
    enc(text_code(f.rule)) + key_after_rule(f)
}

pub open spec fn key_after_rule(f: FindingView) -> Seq<u64> {
    seq![severity_code(f.severity)] + key_after_severity(f)
}

pub open spec fn key_after_severity(f: FindingView) -> Seq<u64> {
    enc(wide(f.province_ids)) + key_after_provinces(f)
}

pub open spec fn key_after_provinces(f: FindingView) -> Seq<u64> {
    enc(wide(f.state_ids)) + key_after_states(f)
}

pub open spec fn key_after_states(f: FindingView) -> Seq<u64> {
    coordinate_key(f.coordinate) + key_after_coordinate(f)
}

pub open spec fn key_after_coordinate(f: FindingView) -> Seq<u64> {
    enc_opt(opt_text_code(f.logical_source)) + enc_opt(opt_text_code(f.detail))
}

pub open spec fn finding_key_fn() -> spec_fn(FindingView) -> Seq<u64> {
    |f: FindingView| finding_key(f)
}

pub proof fn lemma_add_assoc(a: Seq<u64>, b: Seq<u64>, c: Seq<u64>)
    ensures
        (a + b) + c == a + (b + c),
{
    assert((a + b) + c =~= a + (b + c));
}

proof fn lemma_single_prefix(a: u64, b: u64, x: Seq<u64>, y: Seq<u64>)
    requires
        seq![a] + x == seq![b] + y,
    ensures
        a == b,
        x == y,
{
    assert((seq![a] + x)[0] == a);
    assert((seq![b] + y)[0] == b);
    assert(x =~= (seq![a] + x).drop_first());
    assert(y =~= (seq![b] + y).drop_first());
}

proof fn lemma_coordinate_prefix_free(
    c: Option<(u32, u32)>,
    d: Option<(u32, u32)>,
    p: Seq<u64>,
    q: Seq<u64>,
)
    requires
        coordinate_key(c) + p == coordinate_key(d) + q,
    ensures
        c == d,
        p == q,
{
    let a = coordinate_key(c) + p;
    let b = coordinate_key(d) + q;
    assert(a[0] == b[0]);
    match c {
        Some((x, y)) => {
            match d {
                Some((z, w)) => {
                    assert(a[1] == b[1]);
                    assert(a[2] == b[2]);
                    assert(p =~= a.subrange(3, a.len() as int));
                    assert(q =~= b.subrange(3, b.len() as int));
                },
                None => {},
            }
        },
        None => {
            match d {
                Some(_) => {},
                None => {
                    assert(p =~= a.drop_first());
                    assert(q =~= b.drop_first());
                },
            }
        },
    }
}

proof fn lemma_after_states_prefix_free(f: FindingView, g: FindingView, p: Seq<u64>, q: Seq<u64>)
    requires
        valid_finding(f),
        valid_finding(g),
        key_after_states(f) + p == key_after_states(g) + q,
    ensures
        f.coordinate == g.coordinate,
        f.logical_source == g.logical_source,
        f.detail == g.detail,
        p == q,
{
    lemma_add_assoc(coordinate_key(f.coordinate), key_after_coordinate(f), p);
    lemma_add_assoc(coordinate_key(g.coordinate), key_after_coordinate(g), q);
    lemma_coordinate_prefix_free(
        f.coordinate,
        g.coordinate,
        key_after_coordinate(f) + p,
        key_after_coordinate(g) + q,
    );
    let fd = enc_opt(opt_text_code(f.detail));
    let gd = enc_opt(opt_text_code(g.detail));
    lemma_add_assoc(enc_opt(opt_text_code(f.logical_source)), fd, p);
    lemma_add_assoc(enc_opt(opt_text_code(g.logical_source)), gd, q);
    lemma_opt_text_code(f.logical_source, g.logical_source);
    lemma_opt_text_code(g.logical_source, g.logical_source);
    lemma_opt_text_code(f.detail, g.detail);
    lemma_opt_text_code(g.detail, g.detail);
    lemma_enc_opt_prefix_free(
        opt_text_code(f.logical_source),
        opt_text_code(g.logical_source),
        fd + p,
        gd + q,
    );
    lemma_enc_opt_prefix_free(opt_text_code(f.detail), opt_text_code(g.detail), p, q);
}

proof fn lemma_after_rule_prefix_free(f: FindingView, g: FindingView, p: Seq<u64>, q: Seq<u64>)
    requires
        valid_finding(f),
        valid_finding(g),
        key_after_rule(f) + p == key_after_rule(g) + q,
    ensures
        f.severity == g.severity,
        f.province_ids == g.province_ids,
        f.state_ids == g.state_ids,
        key_after_states(f) + p == key_after_states(g) + q,
{
    lemma_add_assoc(seq![severity_code(f.severity)], key_after_severity(f), p);
    lemma_add_assoc(seq![severity_code(g.severity)], key_after_severity(g), q);
    lemma_single_prefix(
        severity_code(f.severity),
        severity_code(g.severity),
        key_after_severity(f) + p,
        key_after_severity(g) + q,
    );
    lemma_add_assoc(enc(wide(f.province_ids)), key_after_provinces(f), p);
    lemma_add_assoc(enc(wide(g.province_ids)), key_after_provinces(g), q);
    lemma_wide(f.province_ids, g.province_ids);
    lemma_wide(g.province_ids, g.province_ids);
    lemma_enc_prefix_free(
        wide(f.province_ids),
        wide(g.province_ids),
        key_after_provinces(f) + p,
        key_after_provinces(g) + q,
    );
    lemma_add_assoc(enc(wide(f.state_ids)), key_after_states(f), p);
    lemma_add_assoc(enc(wide(g.state_ids)), key_after_states(g), q);
    lemma_wide(f.state_ids, g.state_ids);
    lemma_wide(g.state_ids, g.state_ids);
    lemma_enc_prefix_free(
        wide(f.state_ids),
        wide(g.state_ids),
        key_after_states(f) + p,
        key_after_states(g) + q,
    );
}

/// A finding's key followed by anything determines the finding and what follows.
pub proof fn lemma_finding_key_prefix_free(
    f: FindingView,
    g: FindingView,
    p: Seq<u64>,
    q: Seq<u64>,
)
    requires
        valid_finding(f),
        valid_finding(g),
        finding_key(f) + p == finding_key(g) + q,
    ensures
        f == g,
        p == q,
{
    lemma_add_assoc(enc(text_code(f.rule)), key_after_rule(f), p);
    lemma_add_assoc(enc(text_code(g.rule)), key_after_rule(g), q);
    lemma_text_code(f.rule, g.rule);
    lemma_text_code(g.rule, g.rule);
    lemma_enc_prefix_free(
        text_code(f.rule),
        text_code(g.rule),
        key_after_rule(f) + p,
        key_after_rule(g) + q,
    );
    lemma_after_rule_prefix_free(f, g, p, q);
    lemma_after_states_prefix_free(f, g, p, q);
}

/// The key tells valid findings apart.
pub proof fn lemma_finding_key_injective(f: FindingView, g: FindingView)
    requires
        valid_finding(f),
        valid_finding(g),
        finding_key(f) == finding_key(g),
    ensures
        f == g,
{
    let e = Seq::<u64>::empty();
    assert(finding_key(f) + e =~= finding_key(f));
    assert(finding_key(g) + e =~= finding_key(g));
    lemma_finding_key_prefix_free(f, g, e, e);
}

/// Appends the code of an optional text.
fn push_enc_opt_str_view(out: &mut Vec<u64>, s: &Option<String>)
    ensures
        final(out)@ == old(out)@ + enc_opt(opt_text_code(opt_str_view(*s))),
        opt_valid_text(opt_str_view(*s)),
{
    match s {
        None => {
            out.push(0);
            assert(final(out)@ =~= old(out)@ + seq![0u64]);
        },
        Some(v) => {
            let ghost start = out@;
            out.push(1);
            let code = text_code_vec(v.as_str());
            proof {
                lemma_text_code(v@, v@);
            }
            push_enc(out, &code);
            assert(out@ =~= start + (seq![1u64] + enc(text_code(v@))));
        },
    }
}

/// The sort key of a finding.
#[verifier::rlimit(40)]
pub fn finding_key_vec(f: &CompatibilityFinding) -> (r: Vec<u64>)
    ensures
        r@ == finding_key(f@),
        valid_finding(f@),
{
    let mut out: Vec<u64> = Vec::new();
    let rule = text_code_vec(f.rule.as_str());
    proof {
        lemma_text_code(f.rule@, f.rule@);
    }
    push_enc(&mut out, &rule);
    let s0 = Ghost(out@);
    out.push(severity_code_exec(f.severity));
    let provinces = wide_vec(&f.province_ids);
    proof {
        lemma_wide(f.province_ids@, f.province_ids@);
    }
    push_enc(&mut out, &provinces);
    let states = wide_vec(&f.state_ids);
    proof {
        lemma_wide(f.state_ids@, f.state_ids@);
    }
    push_enc(&mut out, &states);
    let s3 = Ghost(out@);
    match f.coordinate {
        None => {
            out.push(0);
        },
        Some(c) => {
            out.push(1);
            out.push(c[0] as u64);
            out.push(c[1] as u64);
        },
    }
    assert(out@ =~= s3@ + coordinate_key(coordinate_view(f.coordinate)));
    let s4 = Ghost(out@);
    push_enc_opt_str_view(&mut out, &f.logical_source);
    push_enc_opt_str_view(&mut out, &f.detail);
    let v = Ghost(f@);
    assert(out@ =~= s4@ + key_after_coordinate(v@));
    assert(out@ =~= s3@ + key_after_states(v@));
    assert(out@ =~= s0@ + key_after_rule(v@));
    assert(out@ =~= finding_key(v@));
    out
}

/// Backslashes turned into forward slashes.
pub open spec fn forward_slashes(s: Seq<char>) -> Seq<char> {
    Seq::new(s.len(), |i: int| if s[i] == '\\' { '/' } else { s[i] })
}

/// A path text with backslashes turned into forward slashes.
pub fn with_forward_slashes(s: &str) -> (r: String)
    ensures
        r@ == forward_slashes(s@),
{
    let n = s.unicode_len();
    let mut r = String::new();
    let mut i: usize = 0;
    while i < n
        invariant
            n == s@.len(),
            i <= n,
            r@ == forward_slashes(s@).subrange(0, i as int),
        decreases n - i,
    {
        let c = s.get_char(i);
        if c == '\\' {
            push_char(&mut r, '/');
        } else {
            push_char(&mut r, c);
        }
        i = i + 1;
        assert(r@ =~= forward_slashes(s@).subrange(0, i as int));
    }
    assert(forward_slashes(s@).subrange(0, n as int) =~= forward_slashes(s@));
    r
}

pub open spec fn opt_forward_slashes(s: Option<Seq<char>>) -> Option<Seq<char>> {
    match s {
        Some(v) => Some(forward_slashes(v)),
        None => None,
    }
}

/// A finding with its id lists sorted without repeats and its source path
/// written with forward slashes.
pub open spec fn normalize_view(f: FindingView) -> FindingView {
    FindingView {
        province_ids: ascending_set(f.province_ids),
        state_ids: ascending_set(f.state_ids),
        logical_source: opt_forward_slashes(f.logical_source),
        ..f
    }
}

/// A finding as normalisation leaves it: id lists in increasing order
/// without repeats, forward slashes in its source path, and texts of
/// valid characters.
pub open spec fn normal_finding(f: FindingView) -> bool {
    &&& strictly_ascending(f.province_ids)
    &&& strictly_ascending(f.state_ids)
    &&& opt_forward_slashes(f.logical_source) == f.logical_source
    &&& valid_finding(f)
}

/// Findings as a normalised snapshot holds them: each normal, in strictly
/// increasing key order.
pub open spec fn normal_findings(w: Seq<FindingView>) -> bool {
    &&& forall|i: int| 0 <= i < w.len() ==> normal_finding(#[trigger] w[i])
    &&& forall|i: int, j: int|
        0 <= i < j < w.len() ==> lex_less(finding_key(#[trigger] w[i]), finding_key(#[trigger] w[j]))
}

proof fn lemma_opt_forward_slashes_twice(s: Option<Seq<char>>)
    ensures
        opt_forward_slashes(opt_forward_slashes(s)) == opt_forward_slashes(s),
{
    match s {
        Some(v) => {
            lemma_forward_slashes_twice(v);
        },
        None => {},
    }
}

fn normalize(f: CompatibilityFinding) -> (r: CompatibilityFinding)
    ensures
        r@ == normalize_view(f@),
        strictly_ascending(r@.province_ids),
        strictly_ascending(r@.state_ids),
        opt_forward_slashes(r@.logical_source) == r@.logical_source,
{
    let province_ids = ascending_unique(&f.province_ids);
    let state_ids = ascending_unique(&f.state_ids);
    let logical_source = match &f.logical_source {
        Some(s) => Some(with_forward_slashes(s.as_str())),
        None => None,
    };
    proof {
        lemma_opt_forward_slashes_twice(f@.logical_source);
    }
    CompatibilityFinding {
        rule: f.rule,
        severity: f.severity,
        province_ids,
        state_ids,
        coordinate: f.coordinate,
        logical_source,
        detail: f.detail,
    }
}

/// Normalises a finding reported by the reference checker.
pub fn normalize_herbix_finding(finding: CompatibilityFinding) -> (r: CompatibilityFinding)
    ensures
        r@ == normalize_view(finding@),
        normalize_view(r@) == r@,
{
    let r = normalize(finding);
    proof {
        lemma_normalize_fixes_normal(r@);
    }
    r
}

/// A finding whose id lists are increasing without repeats and whose source
/// path has forward slashes only is left as it is by normalisation; so
/// normalising a finding twice gives what normalising it once gives.
pub proof fn lemma_normalize_fixes_normal(f: FindingView)
    requires
        strictly_ascending(f.province_ids),
        strictly_ascending(f.state_ids),
        opt_forward_slashes(f.logical_source) == f.logical_source,
    ensures
        normalize_view(f) == f,
{
    lemma_ascending_set_is(f.province_ids, f.province_ids);
    lemma_ascending_set_is(f.state_ids, f.state_ids);
}

/// How a pair of findings, or a finding without a partner, compares.
#[derive(Debug, Clone, Copy, PartialEq, Eq, PartialOrd, Ord, Hash, Structural)]
pub enum ComparisonClass {
    Match,
    EditorOnly,
    ReferenceOnly,
    DifferentDetails,
    UnsupportedByUs,
    UnsupportedByReference,
    PolicyDifference,
    NeedsReview,
}

pub open spec fn class_code(c: ComparisonClass) -> u64 {
    match c {
        ComparisonClass::Match => 0,
        ComparisonClass::EditorOnly => 1,
        ComparisonClass::ReferenceOnly => 2,
        ComparisonClass::DifferentDetails => 3,
        ComparisonClass::UnsupportedByUs => 4,
        ComparisonClass::UnsupportedByReference => 5,
        ComparisonClass::PolicyDifference => 6,
        ComparisonClass::NeedsReview => 7,
    }
}

fn class_code_exec(c: ComparisonClass) -> (r: u64)
    ensures
        r == class_code(c),
{
    match c {
        ComparisonClass::Match => 0,
        ComparisonClass::EditorOnly => 1,
        ComparisonClass::ReferenceOnly => 2,
        ComparisonClass::DifferentDetails => 3,
        ComparisonClass::UnsupportedByUs => 4,
        ComparisonClass::UnsupportedByReference => 5,
        ComparisonClass::PolicyDifference => 6,
        ComparisonClass::NeedsReview => 7,
    }
}

/// How a difference was classified when it was examined.
#[derive(Debug, Clone, Copy, PartialEq, Eq, PartialOrd, Ord, Hash, Structural)]
pub enum ReviewClassification {
    OurBug,
    ReferenceLimitation,
    DifferentPolicy,
    FalsePositive,
    NeedsHoi4EngineTest,
    ExpectedDifference,
    Unreviewed,
}

pub open spec fn review_code(r: ReviewClassification) -> u64 {
    match r {
        ReviewClassification::OurBug => 0,
        ReviewClassification::ReferenceLimitation => 1,
        ReviewClassification::DifferentPolicy => 2,
        ReviewClassification::FalsePositive => 3,
        ReviewClassification::NeedsHoi4EngineTest => 4,
        ReviewClassification::ExpectedDifference => 5,
        ReviewClassification::Unreviewed => 6,
    }
}

fn review_code_exec(r: ReviewClassification) -> (c: u64)
    ensures
        c == review_code(r),
{
    match r {
        ReviewClassification::OurBug => 0,
        ReviewClassification::ReferenceLimitation => 1,
        ReviewClassification::DifferentPolicy => 2,
        ReviewClassification::FalsePositive => 3,
        ReviewClassification::NeedsHoi4EngineTest => 4,
        ReviewClassification::ExpectedDifference => 5,
        ReviewClassification::Unreviewed => 6,
    }
}

/// A reviewed difference that a case is expected to show.
#[derive(Debug, Clone, PartialEq, Eq)]
pub struct ExpectedDifference {
    pub case: String,
    pub rule: String,
    pub province_ids: Vec<u32>,
    pub state_ids: Vec<u32>,
    pub coordinate: Option<[u32; 2]>,
    pub classification: ReviewClassification,
    pub note: Option<String>,
}

pub struct ExpectedView {
    pub case: Seq<char>,
    pub rule: Seq<char>,
    pub province_ids: Seq<u32>,
    pub state_ids: Seq<u32>,
    pub coordinate: Option<(u32, u32)>,
    pub classification: ReviewClassification,
    pub note: Option<Seq<char>>,
}

impl View for ExpectedDifference {
    type V = ExpectedView;

    open spec fn view(&self) -> ExpectedView {
        ExpectedView {
            case: self.case@,
            rule: self.rule@,
            province_ids: self.province_ids@,
            state_ids: self.state_ids@,
            coordinate: coordinate_view(self.coordinate),
            classification: self.classification,
            note: opt_str_view(self.note),
        }
    }
}

/// One entry of a comparison: a class, the findings it concerns and its review.
#[derive(Debug, Clone, PartialEq, Eq)]
pub struct CompatibilityDifference {
    pub class: ComparisonClass,
    pub editor: Option<CompatibilityFinding>,
    pub herbix: Option<CompatibilityFinding>,
    pub review: ReviewClassification,
}

pub struct DifferenceView {
    pub class: ComparisonClass,
    pub editor: Option<FindingView>,
    pub herbix: Option<FindingView>,
    pub review: ReviewClassification,
}

pub open spec fn opt_finding_view(f: Option<CompatibilityFinding>) -> Option<FindingView> {
    match f {
        Some(v) => Some(v@),
        None => None,
    }
}

impl View for CompatibilityDifference {
    type V = DifferenceView;

    open spec fn view(&self) -> DifferenceView {
        DifferenceView {
            class: self.class,
            editor: opt_finding_view(self.editor),
            herbix: opt_finding_view(self.herbix),
            review: self.review,
        }
    }
}

/// The result of comparing one case.
#[derive(Debug, Clone, PartialEq, Eq)]
pub struct CompatibilityComparison {
    pub case: String,
    pub compared_domains: Vec<String>,
    pub differences: Vec<CompatibilityDifference>,
}

/// Whether an expected difference covers a finding of a case.
pub open spec fn covers(e: ExpectedView, case: Seq<char>, f: FindingView) -> bool {
    &&& e.case == case
    &&& e.rule == f.rule
    &&& e.province_ids == f.province_ids
    &&& e.state_ids == f.state_ids
    &&& e.coordinate == f.coordinate
}

/// The review of a difference: the classification of the first expected
/// difference covering its editor finding (or, without one, its reference
/// finding), else unreviewed.
pub open spec fn review_for(
    case: Seq<char>,
    expected: Seq<ExpectedView>,
    editor: Option<FindingView>,
    herbix: Option<FindingView>,
) -> ReviewClassification {
    let finding = if editor is Some {
        editor
    } else {
        herbix
    };
    match finding {
        None => ReviewClassification::Unreviewed,
        Some(f) => {
            let i = first_match(expected, |e: ExpectedView| covers(e, case, f));
            if i < expected.len() {
                expected[i].classification
            } else {
                ReviewClassification::Unreviewed
            }
        },
    }
}

/// A difference with its review; an approved policy difference or expected
/// difference turns any class but a match into a policy difference.
pub open spec fn difference_view(
    case: Seq<char>,
    expected: Seq<ExpectedView>,
    class: ComparisonClass,
    editor: Option<FindingView>,
    herbix: Option<FindingView>,
) -> DifferenceView {
    let review = review_for(case, expected, editor, herbix);
    let class = if (review == ReviewClassification::DifferentPolicy || review
        == ReviewClassification::ExpectedDifference) && class != ComparisonClass::Match {
        ComparisonClass::PolicyDifference
    } else {
        class
    };
    DifferenceView { class, editor, herbix, review }
}

pub open spec fn same_ids_spec(a: Seq<u32>, b: Seq<u32>) -> bool {
    a == b
}

/// Whether two id lists are equal.
pub fn same_ids(a: &Vec<u32>, b: &Vec<u32>) -> (r: bool)
    ensures
        r == (a@ == b@),
{
    if a.len() != b.len() {
        return false;
    }
    let mut i: usize = 0;
    while i < a.len()
        invariant
            a.len() == b.len(),
            i <= a.len(),
            forall|k: int| 0 <= k < i ==> a@[k] == b@[k],
        decreases a.len() - i,
    {
        if a[i] != b[i] {
            return false;
        }
        i = i + 1;
    }
    assert(a@ =~= b@);
    true
}

fn same_coordinate(a: Option<[u32; 2]>, b: Option<[u32; 2]>) -> (r: bool)
    ensures
        r == (coordinate_view(a) == coordinate_view(b)),
{
    match (a, b) {
        (Some(x), Some(y)) => x[0] == y[0] && x[1] == y[1],
        (None, None) => true,
        _ => false,
    }
}

/// Whether two findings are the same in every field.
pub fn same_finding(a: &CompatibilityFinding, b: &CompatibilityFinding) -> (r: bool)
    ensures
        r == (a@ == b@),
{
    same_text(a.rule.as_str(), b.rule.as_str()) && a.severity == b.severity && same_ids(
        &a.province_ids,
        &b.province_ids,
    ) && same_ids(&a.state_ids, &b.state_ids) && same_coordinate(a.coordinate, b.coordinate)
        && same_opt_str(&a.logical_source, &b.logical_source) && same_opt_str(
        &a.detail,
        &b.detail,
    )
}

fn covers_exec(e: &ExpectedDifference, case: &str, f: &CompatibilityFinding) -> (r: bool)
    ensures
        r == covers(e@, case@, f@),
{
    same_text(e.case.as_str(), case) && same_text(e.rule.as_str(), f.rule.as_str()) && same_ids(
        &e.province_ids,
        &f.province_ids,
    ) && same_ids(&e.state_ids, &f.state_ids) && same_coordinate(e.coordinate, f.coordinate)
}

fn review_for_exec(
    case: &str,
    expected: &Vec<ExpectedDifference>,
    editor: &Option<CompatibilityFinding>,
    herbix: &Option<CompatibilityFinding>,
) -> (r: ReviewClassification)
    ensures
        r == review_for(case@, views(expected@), opt_finding_view(*editor), opt_finding_view(*herbix)),
{
    let finding = if editor.is_some() {
        editor
    } else {
        herbix
    };
    match finding {
        None => ReviewClassification::Unreviewed,
        Some(f) => {
            let ghost fv = f@;
            let ghost p = |e: ExpectedView| covers(e, case@, fv);
            let mut i: usize = 0;
            while i < expected.len() && !covers_exec(&expected[i], case, f)
                invariant
                    i <= expected.len(),
                    fv == f@,
                    p == (|e: ExpectedView| covers(e, case@, fv)),
                    forall|k: int| 0 <= k < i ==> !p(#[trigger] views(expected@)[k]),
                decreases expected.len() - i,
            {
                assert(views(expected@)[i as int] == expected@[i as int]@);
                i = i + 1;
            }
            proof {
                if i < expected.len() {
                    assert(views(expected@)[i as int] == expected@[i as int]@);
                }
            }
            proof {
                lemma_first_match(views(expected@), p, i as int);
            }
            if i < expected.len() {
                expected[i].classification
            } else {
                ReviewClassification::Unreviewed
            }
        },
    }
}

fn make_difference(
    case: &str,
    class: ComparisonClass,
    editor: Option<CompatibilityFinding>,
    herbix: Option<CompatibilityFinding>,
    expected: &Vec<ExpectedDifference>,
) -> (r: CompatibilityDifference)
    ensures
        r@ == difference_view(
            case@,
            views(expected@),
            class,
            opt_finding_view(editor),
            opt_finding_view(herbix),
        ),
{
    let review = review_for_exec(case, expected, &editor, &herbix);
    let class = if (review == ReviewClassification::DifferentPolicy || review
        == ReviewClassification::ExpectedDifference) && class != ComparisonClass::Match {
        ComparisonClass::PolicyDifference
    } else {
        class
    };
    CompatibilityDifference { class, editor, herbix, review }
}

/// Whether a rule belongs to the strategic-region checks, which this editor
/// does not run.
pub open spec fn strategic_region_rule(rule: Seq<char>) -> bool {
    "strategic_region."@.len() <= rule.len() && rule.subrange(0, "strategic_region."@.len() as int)
        == "strategic_region."@
}

/// Whether `s` begins with `prefix`.
pub fn starts_with_text(s: &str, prefix: &str) -> (r: bool)
    ensures
        r == (prefix@.len() <= s@.len() && s@.subrange(0, prefix@.len() as int) == prefix@),
{
    let n = prefix.unicode_len();
    let m = s.unicode_len();
    if n > m {
        return false;
    }
    let mut i: usize = 0;
    while i < n
        invariant
            n == prefix@.len(),
            m == s@.len(),
            n <= m,
            i <= n,
            forall|k: int| 0 <= k < i ==> s@[k] == prefix@[k],
        decreases n - i,
    {
        if s.get_char(i) != prefix.get_char(i) {
            assert(s@.subrange(0, n as int)[i as int] != prefix@[i as int]);
            return false;
        }
        i = i + 1;
    }
    assert(s@.subrange(0, n as int) =~= prefix@);
    true
}

/// The difference made for a reference finding that no editor finding took.
pub open spec fn unmatched_reference(
    case: Seq<char>,
    expected: Seq<ExpectedView>,
    y: FindingView,
) -> DifferenceView {
    let class = if strategic_region_rule(y.rule) {
        ComparisonClass::UnsupportedByUs
    } else {
        ComparisonClass::ReferenceOnly
    };
    difference_view(case, expected, class, None, Some(y))
}

pub open spec fn unmatched_references(
    case: Seq<char>,
    expected: Seq<ExpectedView>,
    h: Seq<FindingView>,
) -> Seq<DifferenceView> {
    h.map_values(|y: FindingView| unmatched_reference(case, expected, y))
}

/// Pairs editor findings, in order, with reference findings: first with an
/// identical one, else with the first one of the same rule, else none; the
/// reference findings left over follow.
pub open spec fn paired_differences(
    case: Seq<char>,
    expected: Seq<ExpectedView>,
    e: Seq<FindingView>,
    h: Seq<FindingView>,
) -> Seq<DifferenceView>
    decreases e.len(),
{
    if e.len() == 0 {
        unmatched_references(case, expected, h)
    } else {
        let x = e[0];
        let i = first_match(h, |y: FindingView| y == x);
        if i < h.len() {
            seq![difference_view(case, expected, ComparisonClass::Match, Some(x), Some(h[i]))]
                + paired_differences(case, expected, e.drop_first(), h.remove(i))
        } else {
            let j = first_match(h, |y: FindingView| y.rule == x.rule);
            if j < h.len() {
                seq![
                    difference_view(
                        case,
                        expected,
                        ComparisonClass::DifferentDetails,
                        Some(x),
                        Some(h[j]),
                    ),
                ] + paired_differences(case, expected, e.drop_first(), h.remove(j))
            } else {
                seq![difference_view(case, expected, ComparisonClass::EditorOnly, Some(x), None)]
                    + paired_differences(case, expected, e.drop_first(), h)
            }
        }
    }
}

/// The findings ordered by their keys.
pub open spec fn sorted_findings(s: Seq<FindingView>) -> Seq<FindingView> {
    choose|r: Seq<FindingView>|
        sorted_by(r, key_le(finding_key_fn())) && r.to_multiset() == s.to_multiset()
}

pub open spec fn normalized_views(s: Seq<FindingView>) -> Seq<FindingView> {
    s.map_values(|f: FindingView| normalize_view(f))
}

/// How many differences carry an editor finding.
pub open spec fn with_editor_finding(ds: Seq<DifferenceView>) -> nat
    decreases ds.len(),
{
    if ds.len() == 0 {
        0
    } else {
        with_editor_finding(ds.drop_last()) + (if ds.last().editor is Some { 1nat } else { 0nat })
    }
}

/// How many differences carry a reference finding.
pub open spec fn with_reference_finding(ds: Seq<DifferenceView>) -> nat
    decreases ds.len(),
{
    if ds.len() == 0 {
        0
    } else {
        with_reference_finding(ds.drop_last()) + (if ds.last().herbix is Some { 1nat } else { 0nat })
    }
}

proof fn lemma_side_counts_add(a: Seq<DifferenceView>, b: Seq<DifferenceView>)
    ensures
        with_editor_finding(a + b) == with_editor_finding(a) + with_editor_finding(b),
        with_reference_finding(a + b) == with_reference_finding(a) + with_reference_finding(b),
    decreases b.len(),
{
    if b.len() == 0 {
        assert(a + b =~= a);
    } else {
        lemma_side_counts_add(a, b.drop_last());
        assert((a + b).drop_last() =~= a + b.drop_last());
        assert((a + b).last() == b.last());
    }
}

proof fn lemma_unmatched_counts(case: Seq<char>, expected: Seq<ExpectedView>, h: Seq<FindingView>)
    ensures
        with_editor_finding(unmatched_references(case, expected, h)) == 0,
        with_reference_finding(unmatched_references(case, expected, h)) == h.len(),
    decreases h.len(),
{
    if h.len() > 0 {
        lemma_unmatched_counts(case, expected, h.drop_last());
        assert(unmatched_references(case, expected, h).drop_last() =~= unmatched_references(case, expected, h.drop_last()));
    }
}

/// Pairing puts each editor finding and each reference finding in exactly
/// one difference: as many differences carry an editor finding as there are
/// editor findings, and as many carry a reference finding as there are
/// reference findings.
pub proof fn lemma_one_difference_per_finding(
    case: Seq<char>,
    expected: Seq<ExpectedView>,
    e: Seq<FindingView>,
    h: Seq<FindingView>,
)
    ensures
        with_editor_finding(paired_differences(case, expected, e, h)) == e.len(),
        with_reference_finding(paired_differences(case, expected, e, h)) == h.len(),
    decreases e.len(),
{
    if e.len() == 0 {
        lemma_unmatched_counts(case, expected, h);
    } else {
        let x = e[0];
        let i = first_match(h, |y: FindingView| y == x);
        let j = first_match(h, |y: FindingView| y.rule == x.rule);
        lemma_first_match_bound(h, |y: FindingView| y == x);
        lemma_first_match_bound(h, |y: FindingView| y.rule == x.rule);
        let (d, rest_h) = if i < h.len() {
            (difference_view(case, expected, ComparisonClass::Match, Some(x), Some(h[i])), h.remove(i))
        } else if j < h.len() {
            (difference_view(case, expected, ComparisonClass::DifferentDetails, Some(x), Some(h[j])), h.remove(j))
        } else {
            (difference_view(case, expected, ComparisonClass::EditorOnly, Some(x), None), h)
        };
        lemma_one_difference_per_finding(case, expected, e.drop_first(), rest_h);
        let rest = paired_differences(case, expected, e.drop_first(), rest_h);
        assert(paired_differences(case, expected, e, h) == seq![d] + rest);
        lemma_side_counts_add(seq![d], rest);
        assert(seq![d].drop_last() =~= Seq::<DifferenceView>::empty());
        assert(seq![d].last() == d);
        assert(with_editor_finding(Seq::<DifferenceView>::empty()) == 0);
        assert(with_reference_finding(Seq::<DifferenceView>::empty()) == 0);
        assert(with_editor_finding(seq![d]) == 1);
        assert(d.editor is Some);
        if i < h.len() || j < h.len() {
            assert(d.herbix is Some);
            assert(rest_h.len() == h.len() - 1);
        } else {
            assert(d.herbix is None);
        }
    }
}

/// The differences of a comparison, before they are put in order.
pub open spec fn comparison_differences(
    case: Seq<char>,
    expected: Seq<ExpectedView>,
    editor: Seq<FindingView>,
    herbix: Seq<FindingView>,
) -> Seq<DifferenceView> {
    paired_differences(
        case,
        expected,
        sorted_findings(normalized_views(editor)),
        sorted_findings(normalized_views(herbix)),
    )
}

pub open spec fn opt_finding_key(f: Option<FindingView>) -> Seq<u64> {
    match f {
        None => seq![0u64],
        Some(v) => seq![1u64] + finding_key(v),
    }
}

/// The sort key of a difference: class, editor finding, reference finding, review.
pub open spec fn difference_key(d: DifferenceView) -> Seq<u64> {
    seq![class_code(d.class)] + (opt_finding_key(d.editor) + (opt_finding_key(d.herbix) + seq![
        review_code(d.review),
    ]))
}

pub open spec fn difference_key_fn() -> spec_fn(DifferenceView) -> Seq<u64> {
    |d: DifferenceView| difference_key(d)
}

proof fn lemma_sorted_findings_is(s: Seq<FindingView>, r: Seq<FindingView>)
    requires
        sorted_by(r, key_le(finding_key_fn())),
        r.to_multiset() == s.to_multiset(),
        forall|k: int| 0 <= k < r.len() ==> valid_finding(#[trigger] r[k]),
    ensures
        sorted_findings(s) == r,
{
    let c = sorted_findings(s);
    assert(sorted_by(c, key_le(finding_key_fn())) && c.to_multiset() == s.to_multiset());
    assert(key_injective_on(r, finding_key_fn())) by {
        assert forall|a: FindingView, b: FindingView|
            r.contains(a) && r.contains(b) && finding_key_fn()(a) == finding_key_fn()(b) implies a
            == b by {
            let ia = choose|k: int| 0 <= k < r.len() && r[k] == a;
            let ib = choose|k: int| 0 <= k < r.len() && r[k] == b;
            assert(valid_finding(r[ia]));
            assert(valid_finding(r[ib]));
            lemma_finding_key_injective(a, b);
        }
    }
    lemma_sorted_by_key_unique(r, c, finding_key_fn());
}

/// Normalises findings and puts them in key order.
fn normalize_and_sort(v: Vec<CompatibilityFinding>) -> (r: Vec<CompatibilityFinding>)
    ensures
        views(r@) == sorted_findings(normalized_views(views(v@))),
        sorted_by(views(r@), key_le(finding_key_fn())),
        forall|k: int| 0 <= k < views(r@).len() ==> normal_finding(#[trigger] views(r@)[k]),
{
    let ghost input = views(v@);
    let mut v = v;
    let mut items: Vec<CompatibilityFinding> = Vec::new();
    let mut keys: Vec<Vec<u64>> = Vec::new();
    while v.len() > 0
        invariant
            items.len() == keys.len(),
            forall|k: int| 0 <= k < items.len() ==> (#[trigger] keys@[k])@ == finding_key(
                items@[k]@,
            ),
            forall|k: int| 0 <= k < items.len() ==> valid_finding(#[trigger] items@[k]@),
            forall|k: int| 0 <= k < items.len() ==> normal_finding(#[trigger] items@[k]@),
            views(items@) + normalized_views(views(v@)) == normalized_views(input),
        decreases v.len(),
    {
        let ghost before = v@;
        let f = v.remove(0);
        let n = normalize(f);
        let k = finding_key_vec(&n);
        let ghost items_before = items@;
        items.push(n);
        keys.push(k);
        proof {
            assert(views(before)[0] == f@);
            assert(normalized_views(views(before)) =~= seq![normalize_view(f@)]
                + normalized_views(views(v@)));
            assert(views(items@) =~= views(items_before).push(n@));
            assert(views(items@) + normalized_views(views(v@)) =~= views(items_before)
                + normalized_views(views(before)));
        }
    }
    assert(views(items@) =~= normalized_views(input)) by {
        assert(normalized_views(views(v@)) =~= Seq::<FindingView>::empty());
    }
    let ghost unsorted = views(items@);
    let sorted = crate::lexicographic::sort_by_keys(items, keys, Ghost(finding_key_fn()));
    proof {
        assert forall|k: int| 0 <= k < views(sorted@).len() implies normal_finding(
            #[trigger] views(sorted@)[k],
        ) by {
            let x = views(sorted@)[k];
            assert(views(sorted@).contains(x));
            vstd::seq_lib::to_multiset_contains(views(sorted@), x);
            assert(views(sorted@).to_multiset().count(x) > 0);
            assert(unsorted.to_multiset().count(x) > 0);
            assert(unsorted.contains(x)) by {
                vstd::seq_lib::to_multiset_contains(unsorted, x);
            }
            let m = choose|m: int| 0 <= m < unsorted.len() && unsorted[m] == x;
            assert(unsorted[m] == items@[m]@);
        }
        lemma_sorted_findings_is(normalized_views(input), views(sorted@));
    }
    sorted
}

fn push_opt_finding_key(out: &mut Vec<u64>, f: &Option<CompatibilityFinding>)
    ensures
        final(out)@ == old(out)@ + opt_finding_key(opt_finding_view(*f)),
{
    match f {
        None => {
            out.push(0);
            assert(final(out)@ =~= old(out)@ + seq![0u64]);
        },
        Some(v) => {
            let ghost start = out@;
            out.push(1);
            let mut k = finding_key_vec(v);
            out.append(&mut k);
            assert(out@ =~= start + (seq![1u64] + finding_key(v@)));
        },
    }
}

/// The sort key of a difference.
pub fn difference_key_vec(d: &CompatibilityDifference) -> (r: Vec<u64>)
    ensures
        r@ == difference_key(d@),
{
    let mut out: Vec<u64> = Vec::new();
    out.push(class_code_exec(d.class));
    push_opt_finding_key(&mut out, &d.editor);
    push_opt_finding_key(&mut out, &d.herbix);
    out.push(review_code_exec(d.review));
    assert(out@ =~= difference_key(d@));
    out
}

fn first_equal_finding(h: &Vec<CompatibilityFinding>, x: &CompatibilityFinding) -> (r: usize)
    ensures
        r as int == first_match(views(h@), |y: FindingView| y == x@),
        r <= h.len(),
{
    let ghost p = |y: FindingView| y == x@;
    let mut i: usize = 0;
    while i < h.len() && !same_finding(&h[i], x)
        invariant
            i <= h.len(),
            p == (|y: FindingView| y == x@),
            forall|k: int| 0 <= k < i ==> !p(#[trigger] views(h@)[k]),
        decreases h.len() - i,
    {
        assert(views(h@)[i as int] == h@[i as int]@);
        i = i + 1;
    }
    proof {
        if i < h.len() {
            assert(views(h@)[i as int] == h@[i as int]@);
        }
        lemma_first_match(views(h@), p, i as int);
    }
    i
}

fn first_same_rule(h: &Vec<CompatibilityFinding>, x: &CompatibilityFinding) -> (r: usize)
    ensures
        r as int == first_match(views(h@), |y: FindingView| y.rule == x@.rule),
        r <= h.len(),
{
    let ghost p = |y: FindingView| y.rule == x@.rule;
    let mut i: usize = 0;
    while i < h.len() && !same_text(h[i].rule.as_str(), x.rule.as_str())
        invariant
            i <= h.len(),
            p == (|y: FindingView| y.rule == x@.rule),
            forall|k: int| 0 <= k < i ==> !p(#[trigger] views(h@)[k]),
        decreases h.len() - i,
    {
        assert(views(h@)[i as int] == h@[i as int]@);
        i = i + 1;
    }
    proof {
        if i < h.len() {
            assert(views(h@)[i as int] == h@[i as int]@);
        }
        lemma_first_match(views(h@), p, i as int);
    }
    i
}

/// Compares the normalised findings of this editor with those of the
/// reference checker for one case. Each editor finding, in key order, takes
/// the first identical reference finding (a match), else the first of the
/// same rule (different details), else stands alone (editor only); reference
/// findings left over are reference only, or unsupported by this editor for
/// strategic-region rules. Each difference carries the review of the expected
/// difference that covers it, and the differences come in key order.
pub fn compare_findings(
    case: &str,
    compared_domains: Vec<String>,
    editor: Vec<CompatibilityFinding>,
    herbix: Vec<CompatibilityFinding>,
    expected: Vec<ExpectedDifference>,
) -> (r: CompatibilityComparison)
    ensures
        r.case@ == case@,
        r.compared_domains@ == compared_domains@,
        views(r.differences@).to_multiset() == comparison_differences(
            case@,
            views(expected@),
            views(editor@),
            views(herbix@),
        ).to_multiset(),
        sorted_by(views(r.differences@), key_le(difference_key_fn())),
{
    let ghost x_views = views(expected@);
    let ghost total = comparison_differences(case@, x_views, views(editor@), views(herbix@));
    let mut e = normalize_and_sort(editor);
    let mut h = normalize_and_sort(herbix);
    let mut raw: Vec<CompatibilityDifference> = Vec::new();
    assert(views(raw@) + paired_differences(case@, x_views, views(e@), views(h@)) =~= total);
    while e.len() > 0
        invariant
            x_views == views(expected@),
            views(raw@) + paired_differences(case@, x_views, views(e@), views(h@)) == total,
        decreases e.len(),
    {
        let ghost e_before = views(e@);
        let ghost h_before = views(h@);
        let ghost raw_before = views(raw@);
        let x = e.remove(0);
        let ghost xv = x@;
        proof {
            assert(e_before[0] == x@);
            assert(views(e@) =~= e_before.drop_first());
            assert((|y: FindingView| y == e_before[0]) =~= (|y: FindingView| y == xv));
            assert((|y: FindingView| y.rule == e_before[0].rule) =~= (|y: FindingView| y.rule
                == xv.rule));
        }
        let i = first_equal_finding(&h, &x);
        if i < h.len() {
            let y = h.remove(i);
            proof {
                assert(views(h@) =~= h_before.remove(i as int));
                assert(h_before[i as int] == y@);
            }
            let d = make_difference(case, ComparisonClass::Match, Some(x), Some(y), &expected);
            raw.push(d);
        } else {
            let j = first_same_rule(&h, &x);
            if j < h.len() {
                let y = h.remove(j);
                proof {
                    assert(views(h@) =~= h_before.remove(j as int));
                    assert(h_before[j as int] == y@);
                }
                let d = make_difference(
                    case,
                    ComparisonClass::DifferentDetails,
                    Some(x),
                    Some(y),
                    &expected,
                );
                raw.push(d);
            } else {
                let d = make_difference(case, ComparisonClass::EditorOnly, Some(x), None, &expected);
                raw.push(d);
            }
        }
        proof {
            let step = paired_differences(case@, x_views, e_before, h_before);
            assert(views(raw@) =~= raw_before.push(raw@[raw@.len() - 1]@));
            assert(step =~= seq![raw@[raw@.len() - 1]@] + paired_differences(
                case@,
                x_views,
                views(e@),
                views(h@),
            ));
            assert(views(raw@) + paired_differences(case@, x_views, views(e@), views(h@))
                =~= raw_before + step);
        }
    }
    while h.len() > 0
        invariant
            x_views == views(expected@),
            views(raw@) + unmatched_references(case@, x_views, views(h@)) == total,
        decreases h.len(),
    {
        let ghost h_before = views(h@);
        let ghost raw_before = views(raw@);
        let y = h.remove(0);
        let class = if starts_with_text(y.rule.as_str(), "strategic_region.") {
            ComparisonClass::UnsupportedByUs
        } else {
            ComparisonClass::ReferenceOnly
        };
        let d = make_difference(case, class, None, Some(y), &expected);
        raw.push(d);
        proof {
            assert(h_before[0] == y@);
            assert(views(h@) =~= h_before.drop_first());
            assert(views(raw@) =~= raw_before.push(unmatched_reference(case@, x_views, y@)));
            assert(unmatched_references(case@, x_views, h_before) =~= seq![
                unmatched_reference(case@, x_views, y@),
            ] + unmatched_references(case@, x_views, views(h@)));
            assert(views(raw@) + unmatched_references(case@, x_views, views(h@)) =~= raw_before
                + unmatched_references(case@, x_views, h_before));
        }
    }
    assert(views(raw@) =~= total) by {
        assert(unmatched_references(case@, x_views, views(h@)) =~= Seq::<DifferenceView>::empty());
    }
    let mut keys: Vec<Vec<u64>> = Vec::new();
    let mut k: usize = 0;
    while k < raw.len()
        invariant
            k <= raw.len(),
            keys.len() == k,
            forall|m: int| 0 <= m < k ==> (#[trigger] keys@[m])@ == difference_key(raw@[m]@),
        decreases raw.len() - k,
    {
        keys.push(difference_key_vec(&raw[k]));
        k = k + 1;
    }
    let differences = crate::lexicographic::sort_by_keys(raw, keys, Ghost(difference_key_fn()));
    CompatibilityComparison { case: case.to_owned(), compared_domains, differences }
}

/// Whether a difference leaves a case clean: a match, or a policy
/// difference that has been reviewed.
pub open spec fn clean_difference(d: DifferenceView) -> bool {
    d.class == ComparisonClass::Match || (d.class == ComparisonClass::PolicyDifference && d.review
        != ReviewClassification::Unreviewed)
}

pub open spec fn class_name(c: ComparisonClass) -> Seq<char> {
    match c {
        ComparisonClass::Match => "Match"@,
        ComparisonClass::EditorOnly => "EditorOnly"@,
        ComparisonClass::ReferenceOnly => "ReferenceOnly"@,
        ComparisonClass::DifferentDetails => "DifferentDetails"@,
        ComparisonClass::UnsupportedByUs => "UnsupportedByUs"@,
        ComparisonClass::UnsupportedByReference => "UnsupportedByReference"@,
        ComparisonClass::PolicyDifference => "PolicyDifference"@,
        ComparisonClass::NeedsReview => "NeedsReview"@,
    }
}

fn class_name_exec(c: ComparisonClass) -> (r: &'static str)
    ensures
        r@ == class_name(c),
{
    match c {
        ComparisonClass::Match => "Match",
        ComparisonClass::EditorOnly => "EditorOnly",
        ComparisonClass::ReferenceOnly => "ReferenceOnly",
        ComparisonClass::DifferentDetails => "DifferentDetails",
        ComparisonClass::UnsupportedByUs => "UnsupportedByUs",
        ComparisonClass::UnsupportedByReference => "UnsupportedByReference",
        ComparisonClass::PolicyDifference => "PolicyDifference",
        ComparisonClass::NeedsReview => "NeedsReview",
    }
}

pub open spec fn review_name(r: ReviewClassification) -> Seq<char> {
    match r {
        ReviewClassification::OurBug => "OurBug"@,
        ReviewClassification::ReferenceLimitation => "ReferenceLimitation"@,
        ReviewClassification::DifferentPolicy => "DifferentPolicy"@,
        ReviewClassification::FalsePositive => "FalsePositive"@,
        ReviewClassification::NeedsHoi4EngineTest => "NeedsHoi4EngineTest"@,
        ReviewClassification::ExpectedDifference => "ExpectedDifference"@,
        ReviewClassification::Unreviewed => "Unreviewed"@,
    }
}

fn review_name_exec(r: ReviewClassification) -> (s: &'static str)
    ensures
        s@ == review_name(r),
{
    match r {
        ReviewClassification::OurBug => "OurBug",
        ReviewClassification::ReferenceLimitation => "ReferenceLimitation",
        ReviewClassification::DifferentPolicy => "DifferentPolicy",
        ReviewClassification::FalsePositive => "FalsePositive",
        ReviewClassification::NeedsHoi4EngineTest => "NeedsHoi4EngineTest",
        ReviewClassification::ExpectedDifference => "ExpectedDifference",
        ReviewClassification::Unreviewed => "Unreviewed",
    }
}

/// Texts joined with a comma and a space between each two.
pub open spec fn joined(s: Seq<Seq<char>>) -> Seq<char>
    decreases s.len(),
{
    if s.len() == 0 {
        Seq::empty()
    } else if s.len() == 1 {
        s[0]
    } else {
        joined(s.drop_last()) + ", "@ + s.last()
    }
}

/// The rule a difference is listed under.
pub open spec fn difference_rule(d: DifferenceView) -> Seq<char> {
    match d.editor {
        Some(f) => f.rule,
        None => match d.herbix {
            Some(f) => f.rule,
            None => "unknown"@,
        },
    }
}

/// The report lines of the differences, with a heading wherever the class
/// changes from the one before.
pub open spec fn report_body(d: Seq<DifferenceView>, current: Option<ComparisonClass>) -> Seq<char>
    decreases d.len(),
{
    if d.len() == 0 {
        Seq::empty()
    } else {
        let x = d[0];
        let heading = if current != Some(x.class) {
            "\n"@ + class_name(x.class) + "\n"@
        } else {
            Seq::empty()
        };
        heading + "  "@ + difference_rule(x) + " ("@ + review_name(x.review) + ")\n"@
            + report_body(d.drop_first(), Some(x.class))
    }
}

impl CompatibilityComparison {
    /// A comparison is clean when every difference is a match or a reviewed
    /// policy difference.
    pub fn is_strictly_clean(&self) -> (r: bool)
        ensures
            r == (forall|i: int|
                0 <= i < self.differences@.len() ==> clean_difference(
                    #[trigger] self.differences@[i]@,
                )),
    {
        let mut i: usize = 0;
        while i < self.differences.len()
            invariant
                i <= self.differences@.len(),
                forall|k: int|
                    0 <= k < i ==> clean_difference(#[trigger] self.differences@[k]@),
            decreases self.differences.len() - i,
        {
            let d = &self.differences[i];
            let clean = match d.class {
                ComparisonClass::Match => true,
                ComparisonClass::PolicyDifference => d.review != ReviewClassification::Unreviewed,
                _ => false,
            };
            if !clean {
                assert(!clean_difference(self.differences@[i as int]@));
                return false;
            }
            i = i + 1;
        }
        true
    }

    /// A plain-text report: the case, the compared domains, then each
    /// difference's rule and review under a heading for its class.
    #[verifier::rlimit(40)]
    pub fn human_report(&self) -> (r: String)
        ensures
            r@ == "Case: "@ + self.case@ + "\nCoverage: "@ + joined(views(self.compared_domains@))
                + "\n"@ + report_body(views(self.differences@), None),
    {
        let mut out = String::from_str("Case: ");
        out.append(self.case.as_str());
        out.append("\nCoverage: ");
        let ghost start = out@;
        let mut i: usize = 0;
        while i < self.compared_domains.len()
            invariant
                i <= self.compared_domains@.len(),
                out@ == start + joined(views(self.compared_domains@).subrange(0, i as int)),
            decreases self.compared_domains.len() - i,
        {
            let ghost ds = views(self.compared_domains@);
            if i > 0 {
                out.append(", ");
            }
            out.append(self.compared_domains[i].as_str());
            proof {
                let prefix = ds.subrange(0, i + 1);
                assert(prefix.drop_last() =~= ds.subrange(0, i as int));
                assert(prefix.last() == self.compared_domains@[i as int]@);
                if i == 0 {
                    assert(joined(ds.subrange(0, 0)) =~= Seq::<char>::empty());
                }
            }
            i = i + 1;
        }
        assert(views(self.compared_domains@).subrange(0, i as int) =~= views(
            self.compared_domains@,
        ));
        out.append("\n");
        let ghost full = out@ + report_body(views(self.differences@), None);
        let mut current: Option<ComparisonClass> = None;
        let mut k: usize = 0;
        assert(views(self.differences@).subrange(0, self.differences@.len() as int) =~= views(
            self.differences@,
        ));
        while k < self.differences.len()
            invariant
                k <= self.differences@.len(),
                out@ + report_body(
                    views(self.differences@).subrange(k as int, self.differences@.len() as int),
                    current,
                ) == full,
            decreases self.differences.len() - k,
        {
            let ghost rest = views(self.differences@).subrange(
                k as int,
                self.differences@.len() as int,
            );
            let ghost before = out@;
            let d = &self.differences[k];
            let ghost cur_before = current;
            assert(rest[0] == d@);
            if current != Some(d.class) {
                out.append("\n");
                out.append(class_name_exec(d.class));
                out.append("\n");
                current = Some(d.class);
            }
            let rule: &str = match &d.editor {
                Some(f) => f.rule.as_str(),
                None => match &d.herbix {
                    Some(f) => f.rule.as_str(),
                    None => "unknown",
                },
            };
            out.append("  ");
            out.append(rule);
            out.append(" (");
            out.append(review_name_exec(d.review));
            out.append(")\n");
            proof {
                assert(rest.drop_first() =~= views(self.differences@).subrange(
                    k + 1,
                    self.differences@.len() as int,
                ));
                let heading = if cur_before != Some(d@.class) {
                    "\n"@ + class_name(d@.class) + "\n"@
                } else {
                    Seq::<char>::empty()
                };
                let line = "  "@ + difference_rule(d@) + " ("@ + review_name(d@.review) + ")\n"@;
                assert(out@ =~= before + heading + line);
                assert(report_body(rest, cur_before) == heading + line + report_body(
                    rest.drop_first(),
                    current,
                ));
                assert(out@ + report_body(rest.drop_first(), current) =~= before + report_body(
                    rest,
                    cur_before,
                ));
            }
            k = k + 1;
        }
        assert(views(self.differences@).subrange(
            self.differences@.len() as int,
            self.differences@.len() as int,
        ) =~= Seq::<DifferenceView>::empty());
        out
    }
}


/// Where a snapshot of reference findings came from.
#[derive(Debug, Clone, PartialEq, Eq)]
pub struct CompatibilitySnapshotProvenance {
    pub reference_tool: String,
    pub reference_version: String,
    pub source_identifier: String,
    pub project_fingerprint: String,
    pub normalization_version: u32,
}

/// Reference findings captured for one project.
#[derive(Debug, Clone, PartialEq, Eq)]
pub struct CompatibilitySnapshot {
    pub schema_version: u32,
    pub provenance: CompatibilitySnapshotProvenance,
    pub findings: Vec<CompatibilityFinding>,
}

/// Why a snapshot cannot be used for a project.
#[derive(Debug, Clone, PartialEq, Eq)]
pub enum CompatibilitySnapshotError {
    SchemaVersionMismatch { expected: u32, found: u32 },
    ReferenceToolMismatch { expected: String, found: String },
    ReferenceVersionMismatch { expected: String, found: String },
    StaleReferenceSnapshot { expected: String, found: String },
}

/// A case of the comparison suite.
#[derive(Debug, Clone, PartialEq, Eq)]
pub struct CompatibilityCase {
    pub name: String,
    pub project_root: String,
    pub base_game_root: Option<String>,
    pub enabled_domains: Vec<String>,
    pub snapshot: Option<String>,
    pub notes: Option<String>,
}

/// A sequence without runs of equal neighbours: each run kept once.
pub open spec fn without_repeats(s: Seq<FindingView>) -> Seq<FindingView>
    decreases s.len(),
{
    if s.len() == 0 {
        s
    } else {
        let d = without_repeats(s.drop_last());
        if d.len() > 0 && d.last() == s.last() {
            d
        } else {
            d.push(s.last())
        }
    }
}

proof fn lemma_without_repeats_last(s: Seq<FindingView>)
    requires
        s.len() > 0,
    ensures
        without_repeats(s).len() > 0,
        without_repeats(s).last() == s.last(),
{
}

proof fn lemma_without_repeats_normal(s: Seq<FindingView>)
    requires
        sorted_by(s, key_le(finding_key_fn())),
        forall|k: int| 0 <= k < s.len() ==> normal_finding(#[trigger] s[k]),
    ensures
        normal_findings(without_repeats(s)),
        forall|k: int| 0 <= k < without_repeats(s).len() ==> lex_le(
            finding_key(#[trigger] without_repeats(s)[k]),
            finding_key(s.last()),
        ),
    decreases s.len(),
{
    if s.len() > 0 {
        let t = s.drop_last();
        let d = without_repeats(t);
        assert(sorted_by(t, key_le(finding_key_fn()))) by {
            assert forall|i: int, j: int| 0 <= i < j < t.len() implies #[trigger] key_le(finding_key_fn())(
                t[i],
                t[j],
            ) by {
                assert(key_le(finding_key_fn())(s[i], s[j]));
            }
        }
        assert forall|k: int| 0 <= k < t.len() implies normal_finding(#[trigger] t[k]) by {
            assert(normal_finding(s[k]));
        }
        lemma_without_repeats_normal(t);
        let x = s.last();
        assert(normal_finding(s[s.len() - 1]));
        if t.len() > 0 {
            lemma_without_repeats_last(t);
            assert(key_le(finding_key_fn())(s[s.len() - 2], s[s.len() - 1]));
            assert(lex_le(finding_key(t.last()), finding_key(x)));
            assert forall|k: int| 0 <= k < d.len() implies lex_le(finding_key(#[trigger] d[k]), finding_key(x)) by {
                assert(lex_le(finding_key(d[k]), finding_key(t.last())));
                crate::lexicographic::lemma_lex_le_transitive(
                    finding_key(d[k]),
                    finding_key(t.last()),
                    finding_key(x),
                );
            }
            if d.last() != x {
                let r = d.push(x);
                assert(normal_finding(d.last()));
                lemma_lex_total(finding_key(d.last()), finding_key(x));
                if finding_key(d.last()) == finding_key(x) {
                    lemma_finding_key_injective(d.last(), x);
                }
                assert(lex_less(finding_key(d.last()), finding_key(x)));
                assert forall|i: int, j: int| 0 <= i < j < r.len() implies lex_less(
                    finding_key(#[trigger] r[i]),
                    finding_key(#[trigger] r[j]),
                ) by {
                    if j == r.len() - 1 {
                        if i < d.len() - 1 {
                            assert(lex_less(finding_key(d[i]), finding_key(d[d.len() - 1])));
                            lemma_lex_transitive(finding_key(d[i]), finding_key(d.last()), finding_key(x));
                        }
                    } else {
                        assert(r[i] == d[i] && r[j] == d[j]);
                    }
                }
                assert forall|k: int| 0 <= k < r.len() implies normal_finding(#[trigger] r[k]) by {
                    if k < d.len() {
                        assert(r[k] == d[k]);
                    }
                }
                assert forall|k: int| 0 <= k < r.len() implies lex_le(finding_key(#[trigger] r[k]), finding_key(x)) by {
                    if k < d.len() {
                        assert(r[k] == d[k]);
                    } else {
                        lemma_lex_irreflexive(finding_key(x));
                    }
                }
            }
        } else {
            assert(d =~= Seq::<FindingView>::empty());
            let r = d.push(x);
            assert(r =~= seq![x]);
            lemma_lex_irreflexive(finding_key(x));
        }
    }
}

/// Normalising the findings of a normalised snapshot leaves them as they
/// are: normalisation is idempotent.
pub proof fn lemma_normalized_fixpoint(w: Seq<FindingView>)
    requires
        normal_findings(w),
    ensures
        without_repeats(sorted_findings(normalized_views(w))) == w,
{
    assert forall|k: int| 0 <= k < w.len() implies normalize_view(#[trigger] w[k]) == w[k] by {
        let f = w[k];
        assert(normal_finding(f));
        lemma_ascending_set_is(f.province_ids, f.province_ids);
        lemma_ascending_set_is(f.state_ids, f.state_ids);
    }
    assert(normalized_views(w) =~= w);
    assert(sorted_by(w, key_le(finding_key_fn()))) by {
        assert forall|i: int, j: int| 0 <= i < j < w.len() implies #[trigger] key_le(finding_key_fn())(w[i], w[j]) by {
            assert(lex_less(finding_key(w[i]), finding_key(w[j])));
            lemma_lex_asymmetric(finding_key(w[i]), finding_key(w[j]));
        }
    }
    lemma_sorted_findings_is(w, w);
    lemma_without_repeats_strict(w, w.len() as int);
    assert(w.take(w.len() as int) =~= w);
}

proof fn lemma_without_repeats_strict(w: Seq<FindingView>, n: int)
    requires
        normal_findings(w),
        0 <= n <= w.len(),
    ensures
        without_repeats(w.take(n)) == w.take(n),
    decreases n,
{
    if n > 0 {
        lemma_without_repeats_strict(w, n - 1);
        let t = w.take(n);
        assert(t.drop_last() =~= w.take(n - 1));
        if n > 1 {
            assert(w.take(n - 1).last() == w[n - 2]);
            assert(lex_less(finding_key(w[n - 2]), finding_key(w[n - 1])));
            lemma_lex_irreflexive(finding_key(w[n - 1]));
            assert(w.take(n - 1).push(w[n - 1]) =~= t);
        } else {
            assert(w.take(0) =~= Seq::<FindingView>::empty());
            assert(t =~= Seq::<FindingView>::empty().push(w[0]));
        }
    }
}

impl CompatibilitySnapshot {
    /// The snapshot with its findings normalised, in key order, each kept once.
    pub fn normalized(self) -> (r: Self)
        ensures
            r.schema_version == self.schema_version,
            r.provenance == self.provenance,
            views(r.findings@) == without_repeats(
                sorted_findings(normalized_views(views(self.findings@))),
            ),
            normal_findings(views(r.findings@)),
    {
        let sorted = normalize_and_sort(self.findings);
        let ghost s = views(sorted@);
        let mut out: Vec<CompatibilityFinding> = Vec::new();
        let mut sorted = sorted;
        let mut i: usize = 0;
        let total_len = sorted.len();
        let ghost total = total_len as nat;
        assert(s.subrange(0, 0) =~= Seq::<FindingView>::empty());
        while sorted.len() > 0
            invariant
                s.len() == total,
                total <= usize::MAX,
                i + sorted@.len() == total,
                views(sorted@) == s.subrange(i as int, total as int),
                views(out@) == without_repeats(s.subrange(0, i as int)),
            decreases sorted.len(),
        {
            let ghost before = views(sorted@);
            let f = sorted.remove(0);
            assert(before[0] == f@);
            assert(s[i as int] == f@);
            let ghost out_before = views(out@);
            let repeat = out.len() > 0 && same_finding(&out[out.len() - 1], &f);
            let ghost prefix = s.subrange(0, i + 1);
            proof {
                assert(prefix.drop_last() =~= s.subrange(0, i as int));
                assert(prefix.last() == f@);
                if out.len() > 0 {
                    assert(out_before.last() == out@[out.len() - 1]@);
                }
            }
            if !repeat {
                out.push(f);
                assert(views(out@) =~= out_before.push(f@));
            }
            assert(views(sorted@) =~= before.drop_first());
            assert(views(sorted@) =~= s.subrange(i + 1, total as int));
            i = i + 1;
        }
        assert(s.subrange(0, total as int) =~= s);
        proof {
            lemma_without_repeats_normal(s);
        }
        CompatibilitySnapshot {
            schema_version: self.schema_version,
            provenance: self.provenance,
            findings: out,
        }
    }

    /// Checks that the snapshot was taken with this editor's schema, the
    /// expected reference tool and version, and the project as it is now.
    pub fn validate_for_project(&self, fingerprint: &str) -> (r: Result<(), CompatibilitySnapshotError>)
        ensures
            self.schema_version != SNAPSHOT_SCHEMA_VERSION ==> r == Err::<(), CompatibilitySnapshotError>(
                CompatibilitySnapshotError::SchemaVersionMismatch {
                    expected: SNAPSHOT_SCHEMA_VERSION,
                    found: self.schema_version,
                },
            ),
            self.schema_version == SNAPSHOT_SCHEMA_VERSION && self.provenance.reference_tool@
                != HERBIX_REFERENCE_TOOL@ ==> (match r {
                Err(CompatibilitySnapshotError::ReferenceToolMismatch { expected, found }) => expected@
                    == HERBIX_REFERENCE_TOOL@ && found@ == self.provenance.reference_tool@,
                _ => false,
            }),
            self.schema_version == SNAPSHOT_SCHEMA_VERSION && self.provenance.reference_tool@
                == HERBIX_REFERENCE_TOOL@ && self.provenance.reference_version@
                != HERBIX_REFERENCE_VERSION@ ==> (match r {
                Err(
                    CompatibilitySnapshotError::ReferenceVersionMismatch { expected, found },
                ) => expected@ == HERBIX_REFERENCE_VERSION@ && found@
                    == self.provenance.reference_version@,
                _ => false,
            }),
            self.schema_version == SNAPSHOT_SCHEMA_VERSION && self.provenance.reference_tool@
                == HERBIX_REFERENCE_TOOL@ && self.provenance.reference_version@
                == HERBIX_REFERENCE_VERSION@ && self.provenance.project_fingerprint@
                != fingerprint@ ==> (match r {
                Err(CompatibilitySnapshotError::StaleReferenceSnapshot { expected, found }) => expected@
                    == fingerprint@ && found@ == self.provenance.project_fingerprint@,
                _ => false,
            }),
            r is Ok <==> (self.schema_version == SNAPSHOT_SCHEMA_VERSION
                && self.provenance.reference_tool@ == HERBIX_REFERENCE_TOOL@
                && self.provenance.reference_version@ == HERBIX_REFERENCE_VERSION@
                && self.provenance.project_fingerprint@ == fingerprint@),
    {
        if self.schema_version != SNAPSHOT_SCHEMA_VERSION {
            return Err(
                CompatibilitySnapshotError::SchemaVersionMismatch {
                    expected: SNAPSHOT_SCHEMA_VERSION,
                    found: self.schema_version,
                },
            );
        }
        if !same_text(self.provenance.reference_tool.as_str(), HERBIX_REFERENCE_TOOL) {
            return Err(
                CompatibilitySnapshotError::ReferenceToolMismatch {
                    expected: HERBIX_REFERENCE_TOOL.to_owned(),
                    found: self.provenance.reference_tool.clone(),
                },
            );
        }
        if !same_text(self.provenance.reference_version.as_str(), HERBIX_REFERENCE_VERSION) {
            return Err(
                CompatibilitySnapshotError::ReferenceVersionMismatch {
                    expected: HERBIX_REFERENCE_VERSION.to_owned(),
                    found: self.provenance.reference_version.clone(),
                },
            );
        }
        if !same_text(self.provenance.project_fingerprint.as_str(), fingerprint) {
            return Err(
                CompatibilitySnapshotError::StaleReferenceSnapshot {
                    expected: fingerprint.to_owned(),
                    found: self.provenance.project_fingerprint.clone(),
                },
            );
        }
        Ok(())
    }
}

/// The reference rule that an editor diagnostic kind corresponds to, for the
/// kinds both checkers report.
pub open spec fn editor_rule(kind: ProjectDiagnosticKind) -> Option<Seq<char>> {
    match kind {
        ProjectDiagnosticKind::DuplicateProvinceId => Some("province.duplicate_id"@),
        ProjectDiagnosticKind::DuplicateProvinceRgb => Some("province.duplicate_color"@),
        ProjectDiagnosticKind::MissingDefinitionForColor => Some("province.missing_definition"@),
        ProjectDiagnosticKind::UnusedDefinition => Some("province.definition_absent_from_bitmap"@),
        ProjectDiagnosticKind::UnknownProvince => Some("state.missing_province"@),
        ProjectDiagnosticKind::ProvinceInMultipleStates => Some("state.duplicate_membership"@),
        ProjectDiagnosticKind::VictoryPointOutsideState => Some("state.vp_outside_state"@),
        ProjectDiagnosticKind::SeaOrLakeAssigned => Some("state.sea_province"@),
        _ => None,
    }
}

fn editor_rule_exec(kind: ProjectDiagnosticKind) -> (r: Option<&'static str>)
    ensures
        r is Some <==> editor_rule(kind) is Some,
        r matches Some(x) ==> x@ == editor_rule(kind).unwrap(),
{
    match kind {
        ProjectDiagnosticKind::DuplicateProvinceId => Some("province.duplicate_id"),
        ProjectDiagnosticKind::DuplicateProvinceRgb => Some("province.duplicate_color"),
        ProjectDiagnosticKind::MissingDefinitionForColor => Some("province.missing_definition"),
        ProjectDiagnosticKind::UnusedDefinition => Some("province.definition_absent_from_bitmap"),
        ProjectDiagnosticKind::UnknownProvince => Some("state.missing_province"),
        ProjectDiagnosticKind::ProvinceInMultipleStates => Some("state.duplicate_membership"),
        ProjectDiagnosticKind::VictoryPointOutsideState => Some("state.vp_outside_state"),
        ProjectDiagnosticKind::SeaOrLakeAssigned => Some("state.sea_province"),
        _ => None,
    }
}

pub open spec fn finding_severity(s: ValidationSeverity) -> FindingSeverity {
    match s {
        ValidationSeverity::Error => FindingSeverity::Error,
        ValidationSeverity::Warning => FindingSeverity::Warning,
        ValidationSeverity::Information => FindingSeverity::Information,
    }
}

/// The normalised finding of an editor diagnostic whose source is `logical_source`:
/// its rule, severity, related provinces with its own province, its state,
/// map location and code.
pub open spec fn editor_finding_view(
    d: ProjectValidationDiagnostic,
    logical_source: Option<Seq<char>>,
) -> Option<FindingView> {
    match editor_rule(d.kind) {
        None => None,
        Some(rule) => Some(
            normalize_view(
                FindingView {
                    rule,
                    severity: finding_severity(d.severity),
                    province_ids: match d.province_id {
                        Some(p) => d.related_province_ids@.push(p),
                        None => d.related_province_ids@,
                    },
                    state_ids: match d.state_id {
                        Some(s) => seq![s],
                        None => Seq::empty(),
                    },
                    coordinate: coordinate_view(d.map_location),
                    logical_source,
                    detail: Some(d.code@),
                },
            ),
        ),
    }
}

/// The finding of an editor diagnostic, given the path it is reported under.
pub fn editor_finding(diagnostic: &ProjectValidationDiagnostic, logical_source: Option<String>) -> (r:
    Option<CompatibilityFinding>)
    ensures
        opt_finding_view(r) == editor_finding_view(*diagnostic, opt_str_view(logical_source)),
{
    let rule = match editor_rule_exec(diagnostic.kind) {
        Some(rule) => rule,
        None => return None,
    };
    let mut province_ids: Vec<u32> = Vec::new();
    let mut i: usize = 0;
    while i < diagnostic.related_province_ids.len()
        invariant
            i <= diagnostic.related_province_ids@.len(),
            province_ids@ == diagnostic.related_province_ids@.subrange(0, i as int),
        decreases diagnostic.related_province_ids.len() - i,
    {
        province_ids.push(diagnostic.related_province_ids[i]);
        i = i + 1;
        assert(province_ids@ =~= diagnostic.related_province_ids@.subrange(0, i as int));
    }
    assert(province_ids@ =~= diagnostic.related_province_ids@);
    if let Some(p) = diagnostic.province_id {
        province_ids.push(p);
    }
    let mut state_ids: Vec<u32> = Vec::new();
    if let Some(s) = diagnostic.state_id {
        state_ids.push(s);
    }
    let severity = match diagnostic.severity {
        ValidationSeverity::Error => FindingSeverity::Error,
        ValidationSeverity::Warning => FindingSeverity::Warning,
        ValidationSeverity::Information => FindingSeverity::Information,
    };
    let finding = CompatibilityFinding {
        rule: rule.to_owned(),
        severity,
        province_ids,
        state_ids,
        coordinate: diagnostic.map_location,
        logical_source,
        detail: Some(diagnostic.code.clone()),
    };
    assert(finding@.state_ids =~= (match diagnostic.state_id {
        Some(s) => seq![s],
        None => Seq::<u32>::empty(),
    }));
    Some(normalize(finding))
}

/// Calls `Path::strip_prefix`: the part of `path` after `root` when `root`
/// is a leading run of its components. Which characters separate components
/// depends on the platform, so of the result only what the documentation
/// shows for every platform is stated: a path stripped of itself leaves the
/// empty path.
#[verifier::external_body]
fn strip_root(path: &str, root: &str) -> (r: Option<String>)
    ensures
        path@ == root@ ==> r is Some && r.unwrap()@ == Seq::<char>::empty(),
{
    match std::path::Path::new(path).strip_prefix(root) {
        Ok(rest) => Some(rest.to_string_lossy().into_owned()),
        Err(_) => None,
    }
}

proof fn lemma_forward_slashes_twice(s: Seq<char>)
    ensures
        forward_slashes(forward_slashes(s)) == forward_slashes(s),
{
    assert(forward_slashes(forward_slashes(s)) =~= forward_slashes(s));
}

/// The text that a path is reported under: what is left of it once the
/// project root is taken off its front (where that succeeded), else the path
/// itself, with every backslash turned into a forward slash.
pub open spec fn redacted(stripped: Option<Seq<char>>, path: Seq<char>) -> Seq<char> {
    forward_slashes(
        match stripped {
            Some(rest) => rest,
            None => path,
        },
    )
}

/// The reported text of `path`, given what taking the project root off its
/// front left of it (`None` where the root does not lead the path).
pub fn redact_stripped_path(stripped: Option<String>, path: &str) -> (r: String)
    ensures
        r@ == redacted(opt_str_view(stripped), path@),
{
    match stripped {
        Some(rest) => with_forward_slashes(rest.as_str()),
        None => with_forward_slashes(path),
    }
}

/// A path made relative to the project root where the root leads it, written
/// with forward slashes only: the reported text of `path` for what taking
/// the root off its front gave.
pub fn redact_path(path: &str, root: &str) -> (r: String)
    ensures
        exists|rest: Option<Seq<char>>| r@ == redacted(rest, path@),
        forward_slashes(r@) == r@,
        path@ == root@ ==> r@ == Seq::<char>::empty(),
{
    let stripped = strip_root(path, root);
    let ghost rest = opt_str_view(stripped);
    let text = redact_stripped_path(stripped, path);
    proof {
        let t = match rest {
            Some(x) => x,
            None => path@,
        };
        lemma_forward_slashes_twice(t);
    }
    text
}

/// The finding of an editor diagnostic, with its path made relative to the
/// project root where the root leads it. The finding is there exactly for
/// the kinds that have a reference rule; its source is there exactly when
/// the diagnostic has a path, and every other field is as `editor_finding`
/// gives it.
pub fn normalize_editor_diagnostic(diagnostic: &ProjectValidationDiagnostic, project_root: &str) -> (r:
    Option<CompatibilityFinding>)
    ensures
        r is Some <==> editor_rule(diagnostic.kind) is Some,
        r matches Some(f) ==> (f@.logical_source is Some <==> diagnostic.path is Some) && Some(f@)
            == editor_finding_view(*diagnostic, f@.logical_source),
{
    let logical_source: Option<String> = match &diagnostic.path {
        Some(path) => Some(redact_path(path.as_str(), project_root)),
        None => None,
    };
    let ghost ls = opt_str_view(logical_source);
    assert(ls matches Some(l) ==> forward_slashes(l) == l);
    let r = editor_finding(diagnostic, logical_source);
    r
}

} // verus!
