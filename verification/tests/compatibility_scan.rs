use std::io::Cursor;

use hoi4_editor::compatibility::{
    parse_definitions, scan_project, CompatibilityCode, CompatibilityReport, CompatibilitySeverity,
    FileRead, ScanInputs,
};
use image::{DynamicImage, ImageFormat, Rgb, RgbImage};

fn bitmap_with_dimensions(width: u32, height: u32, color_at: impl Fn(u32, u32) -> [u8; 3]) -> Vec<u8> {
    let image = RgbImage::from_fn(width, height, |x, y| Rgb(color_at(x, y)));
    let mut bytes = Cursor::new(Vec::new());
    DynamicImage::ImageRgb8(image)
        .write_to(&mut bytes, ImageFormat::Bmp)
        .unwrap();
    bytes.into_inner()
}

fn bitmap(pixels: &[[u8; 3]]) -> Vec<u8> {
    bitmap_with_dimensions(pixels.len() as u32, 1, |x, _| pixels[x as usize])
}

fn definitions(records: &[(u32, [u8; 3])]) -> Vec<u8> {
    let mut text = String::from("0;0;0;0;land;false;unknown;0\r\n");
    for (id, [r, g, b]) in records {
        text.push_str(&format!("{id};{r};{g};{b};land;false;plains;1\r\n"));
    }
    text.into_bytes()
}

struct Fixture(ScanInputs);

impl Fixture {
    fn new(name: &str, records: &[(u32, [u8; 3])], pixels: &[[u8; 3]]) -> Self {
        let root = format!("fixtures/{name}");
        Fixture(ScanInputs {
            root: root.clone(),
            map_directory: format!("{root}/map"),
            map_directory_exists: true,
            bitmap_path: format!("{root}/map/provinces.bmp"),
            bitmap: FileRead::Bytes(bitmap(pixels)),
            definition_path: format!("{root}/map/definition.csv"),
            definition: FileRead::Bytes(definitions(records)),
            related: Vec::new(),
            states_directory: format!("{root}/history/states"),
            states_directory_exists: false,
            state_file_count: 0,
            state_province_references: Vec::new(),
        })
    }

    fn states(&mut self, file_count: usize, references: &[u32]) {
        self.0.states_directory_exists = true;
        self.0.state_file_count = file_count;
        self.0.state_province_references = references.to_vec();
    }

    fn scan(&self) -> CompatibilityReport {
        scan_project(self.0.clone())
    }
}

fn has(report: &CompatibilityReport, code: CompatibilityCode) -> bool {
    report.findings.iter().any(|finding| finding.code == code)
}

#[test]
fn contiguous_and_tiny_projects_are_compatible_without_dimension_findings() {
    let fixture = Fixture::new(
        "tiny",
        &[(1, [1, 2, 3]), (2, [4, 5, 6])],
        &[[1, 2, 3], [4, 5, 6]],
    );
    let report = fixture.scan();
    assert_eq!(report.severity(), CompatibilitySeverity::Compatible);
    assert_eq!(report.bitmap.as_ref().unwrap().dimensions, [2, 1]);
    assert!(report.definitions.as_ref().unwrap().ids_contiguous);
    assert!(!has(&report, CompatibilityCode::SparseProvinceIds));
}

#[test]
fn sparse_ids_are_supported_with_a_non_blocking_structural_finding() {
    let records = [
        (1, [1, 1, 1]),
        (7, [2, 2, 2]),
        (42, [3, 3, 3]),
        (500, [4, 4, 4]),
    ];
    let fixture = Fixture::new(
        "sparse",
        &records,
        &[[1, 1, 1], [2, 2, 2], [3, 3, 3], [4, 4, 4]],
    );
    let report = fixture.scan();
    assert_eq!(report.severity(), CompatibilitySeverity::Warning);
    assert!(report.is_editor_compatible());
    assert!(has(&report, CompatibilityCode::SparseProvinceIds));
    assert_eq!(report.bitmap.as_ref().unwrap().dimensions, [4, 1]);
    let definitions = report.definitions.as_ref().unwrap();
    assert_eq!(definitions.record_count, 4);
    assert_eq!(definitions.minimum_province_id, Some(1));
    assert_eq!(definitions.maximum_province_id, Some(500));
    assert!(!definitions.ids_contiguous);
}

#[test]
fn custom_dimensions_are_compatible_independently_of_contiguous_ids() {
    for [width, height] in [
        [3, 2],
        [64, 64],
        [128, 128],
        [256, 128],
        [192, 64],
        [130, 70],
    ] {
        let mut fixture = Fixture::new(
            "custom-dimensions",
            &[(1, [1, 2, 3]), (2, [4, 5, 6])],
            &[[1, 2, 3], [4, 5, 6]],
        );
        fixture.0.bitmap = FileRead::Bytes(bitmap_with_dimensions(width, height, |x, y| {
            if x == 0 && y == 0 {
                [1, 2, 3]
            } else {
                [4, 5, 6]
            }
        }));
        let report = fixture.scan();
        assert_eq!(report.severity(), CompatibilitySeverity::Compatible);
        assert_eq!(report.bitmap.as_ref().unwrap().dimensions, [width, height]);
        assert!(report.definitions.as_ref().unwrap().ids_contiguous);
        assert!(!has(&report, CompatibilityCode::SparseProvinceIds));
    }
}

#[test]
fn high_sparse_ids_and_duplicate_ids_are_reported_structurally() {
    let sparse = Fixture::new(
        "high",
        &[(1, [1, 1, 1]), (50_000, [2, 2, 2])],
        &[[1, 1, 1], [2, 2, 2]],
    );
    assert!(has(&sparse.scan(), CompatibilityCode::SparseProvinceIds));
    let duplicate = Fixture::new(
        "duplicate-id",
        &[(1, [1, 1, 1]), (1, [2, 2, 2])],
        &[[1, 1, 1], [2, 2, 2]],
    );
    assert!(has(&duplicate.scan(), CompatibilityCode::DuplicateProvinceId));
}

#[test]
fn duplicate_colors_and_color_cross_checks_are_bounded_findings() {
    let duplicate = Fixture::new(
        "duplicate-color",
        &[(1, [1, 1, 1]), (2, [1, 1, 1])],
        &[[1, 1, 1]],
    );
    assert!(has(&duplicate.scan(), CompatibilityCode::DuplicateProvinceColor));
    let missing = Fixture::new("missing-color", &[(1, [1, 1, 1])], &[[9, 9, 9]]);
    assert!(has(
        &missing.scan(),
        CompatibilityCode::BitmapColorMissingDefinition
    ));
    let unused = Fixture::new(
        "unused-color",
        &[(1, [1, 1, 1]), (2, [2, 2, 2])],
        &[[1, 1, 1]],
    );
    assert!(has(&unused.scan(), CompatibilityCode::DefinitionColorUnused));
}

#[test]
fn province_only_and_state_references_are_distinguished() {
    let province_only = Fixture::new("province-only", &[(1, [1, 2, 3])], &[[1, 2, 3]]);
    let report = province_only.scan();
    assert!(!report.states.state_editing_available);
    assert!(has(&report, CompatibilityCode::StatesDirectoryMissing));

    let mut with_state = Fixture::new("state-reference", &[(1, [1, 2, 3])], &[[1, 2, 3]]);
    with_state.states(1, &[2]);
    let report = with_state.scan();
    assert_eq!(report.states.state_file_count, 1);
    assert!(has(
        &report,
        CompatibilityCode::StateReferencesMissingProvince
    ));
}

#[test]
fn malformed_inputs_and_scans_are_read_only() {
    let mut bitmap = Fixture::new("bad-bitmap", &[(1, [1, 2, 3])], &[[1, 2, 3]]);
    bitmap.0.bitmap = FileRead::Bytes(b"not a bitmap".to_vec());
    assert!(has(
        &bitmap.scan(),
        CompatibilityCode::ProvinceBitmapUnreadable
    ));

    let mut definition = Fixture::new("bad-definition", &[(1, [1, 2, 3])], &[[1, 2, 3]]);
    definition.0.definition = FileRead::Bytes(b"not;valid\r\n".to_vec());
    assert!(has(
        &definition.scan(),
        CompatibilityCode::DefinitionMalformed
    ));

    let stable = Fixture::new("read-only", &[(1, [1, 2, 3])], &[[1, 2, 3]]);
    let before = stable.0.clone();
    let first = stable.scan();
    assert_eq!(before, stable.0);
    assert_eq!(first, stable.scan());
    assert!(!has(&first, CompatibilityCode::ProvinceBitmapUnreadable));
}

#[test]
fn missing_inputs_have_their_own_findings() {
    let mut fixture = Fixture::new("missing", &[(1, [1, 2, 3])], &[[1, 2, 3]]);
    fixture.0.bitmap = FileRead::Missing;
    fixture.0.definition = FileRead::Missing;
    let report = fixture.scan();
    assert!(has(&report, CompatibilityCode::ProvinceBitmapMissing));
    assert!(has(&report, CompatibilityCode::DefinitionMissing));
    assert_eq!(report.severity(), CompatibilitySeverity::Malformed);
    assert_eq!(
        report.primary_blocker().unwrap().code,
        CompatibilityCode::ProvinceBitmapMissing
    );

    fixture.0.map_directory_exists = false;
    let report = fixture.scan();
    assert_eq!(report.findings.len(), 2);
    assert_eq!(report.findings[0].code, CompatibilityCode::MapDirectoryMissing);
    assert_eq!(report.findings[1].code, CompatibilityCode::StatesDirectoryMissing);
    assert_eq!(report.findings[0].context.path.as_deref(), Some("fixtures/missing/map"));
}

#[test]
fn zero_ids_and_related_bitmaps_are_checked() {
    let mut fixture = Fixture::new("zero", &[(1, [1, 2, 3]), (0, [4, 5, 6])], &[[1, 2, 3], [4, 5, 6]]);
    fixture.0.related = vec![
        ("fixtures/zero/map/rivers.bmp".to_owned(), FileRead::Bytes(bitmap(&[[0, 0, 0]]))),
        ("fixtures/zero/map/heightmap.bmp".to_owned(), FileRead::Unreadable),
    ];
    let report = fixture.scan();
    let range = report
        .findings
        .iter()
        .find(|f| f.code == CompatibilityCode::InvalidProvinceIdRange)
        .unwrap();
    assert_eq!(range.context.sample_province_ids, vec![0]);
    assert_eq!(range.context.count, Some(2));
    let mismatch = report
        .findings
        .iter()
        .find(|f| f.code == CompatibilityCode::RelatedBitmapDimensionsMismatch)
        .unwrap();
    assert_eq!(mismatch.context.expected_dimensions, Some([2, 1]));
    assert_eq!(mismatch.context.actual_dimensions, Some([1, 1]));
    assert!(has(&report, CompatibilityCode::RelatedBitmapUnreadable));
    assert_eq!(report.related_bitmaps.len(), 2);
    assert_eq!(report.related_bitmaps[0].dimensions, Some([1, 1]));
    assert_eq!(report.related_bitmaps[1].dimensions, None);
}

#[test]
fn definition_table_grammar() {
    let records = parse_definitions(b"0;0;0;0;land\r\n\r\n5;1;2;3;sea\n7;255;0;9\n").unwrap();
    assert_eq!(records.len(), 2);
    assert_eq!(records[0].id, 5);
    assert_eq!(records[0].rgb, [1, 2, 3]);
    assert_eq!(records[1].id, 7);
    assert_eq!(records[1].rgb, [255, 0, 9]);
    assert!(parse_definitions(b"1;256;0;0\n").is_none());
    assert!(parse_definitions(b"1;2;3\n").is_none());
    assert!(parse_definitions(b"1;+2;3;4\n").is_none());
    assert_eq!(parse_definitions(b"").unwrap().len(), 0);
    let kept_zero = parse_definitions(b"1;1;1;1\n0;2;2;2\n").unwrap();
    assert_eq!(kept_zero[1].id, 0);
}

#[test]
fn duplicate_samples_are_sorted_and_bounded() {
    let records: Vec<(u32, [u8; 3])> = (1..=20u32).flat_map(|id| [(id, [id as u8, 0, 0]), (id, [id as u8, 1, 0])]).collect();
    let pixels: Vec<[u8; 3]> = records.iter().map(|(_, c)| *c).collect();
    let fixture = Fixture::new("many-duplicates", &records, &pixels);
    let report = fixture.scan();
    let duplicate = report
        .findings
        .iter()
        .find(|f| f.code == CompatibilityCode::DuplicateProvinceId)
        .unwrap();
    assert_eq!(duplicate.context.count, Some(20));
    assert_eq!(duplicate.context.sample_province_ids, (1..=16u32).collect::<Vec<_>>());
    assert!(!has(&report, CompatibilityCode::SparseProvinceIds));
}
