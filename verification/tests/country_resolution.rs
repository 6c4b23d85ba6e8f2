use hoi4_editor::country_files::{parse_color_block, ParsedColor};
use hoi4_editor::political::{
    resolve_color, resolve_display_name, CountryColorResolution, CountryColorResolutionKind,
    PoliticalOwnerResolution, SourcedColor,
};

fn sourced(color: ParsedColor, precedence: u32, path: Option<&str>) -> Option<SourcedColor> {
    Some(SourcedColor { color, precedence, path: path.map(str::to_owned) })
}

fn names(entries: &[(&str, &str)]) -> Vec<(String, String)> {
    entries.iter().map(|(k, v)| ((*k).to_owned(), (*v).to_owned())).collect()
}

#[test]
fn color_resolution_distinguishes_unknown_missing_and_unparsable_colors() {
    let unknown = resolve_color("ZZZ", false, &None, &None);
    assert_eq!(
        unknown,
        CountryColorResolution {
            kind: CountryColorResolutionKind::CountryTagUnknown,
            tag: "ZZZ".to_owned(),
            rgb: None,
            source_path: None,
            source_type: None,
        }
    );
    let missing = resolve_color(
        "BRA",
        true,
        &None,
        &sourced(parse_color_block("graphical_culture = western"), 0, Some("countries/BRA.txt")),
    );
    assert_eq!(missing.kind, CountryColorResolutionKind::ColorMissing);
    assert_eq!(missing.source_type.as_deref(), Some("per-country definition"));
    assert_eq!(missing.source_path.as_deref(), Some("countries/BRA.txt"));
    let bad = resolve_color(
        "BAD",
        true,
        &None,
        &sourced(parse_color_block("color = rgb { 1 nope 3 }"), 0, None),
    );
    assert_eq!(bad.kind, CountryColorResolutionKind::ColorParseFailed);
    assert_eq!(bad.rgb, None);
    let nothing = resolve_color("NON", true, &None, &None);
    assert_eq!(nothing.kind, CountryColorResolutionKind::ColorMissing);
    assert_eq!(nothing.source_type, None);
}

#[test]
fn consolidated_colors_win_only_from_an_equal_or_higher_source() {
    let consolidated = sourced(ParsedColor::Value([255, 13, 20]), 2, Some("colors.txt"));
    let own = sourced(ParsedColor::Value([1, 2, 3]), 1, None);
    let winner = resolve_color("THK", true, &consolidated, &own);
    assert_eq!(winner.rgb, Some([255, 13, 20]));
    assert_eq!(winner.source_type.as_deref(), Some("common/countries/colors.txt"));

    let lower = sourced(ParsedColor::Value([255, 13, 20]), 0, None);
    let higher_own = sourced(ParsedColor::Value([1, 2, 3]), 1, None);
    assert_eq!(resolve_color("THK", true, &lower, &higher_own).rgb, Some([1, 2, 3]));
    assert_eq!(resolve_color("THK", true, &lower, &None).rgb, Some([255, 13, 20]));

    let line_source = PoliticalOwnerResolution::Country(winner).diagnostic_lines();
    assert_eq!(
        line_source,
        vec![
            "Owner tag: THK".to_owned(),
            "Resolved country tag: THK".to_owned(),
            "Resolved RGB: 255, 13, 20".to_owned(),
            "Resolution source type: common/countries/colors.txt".to_owned(),
            "Resolution source path: colors.txt".to_owned(),
        ]
    );
}

#[test]
fn display_names_prefer_generic_then_history_ideology_then_tag() {
    let localized = names(&[
        ("THK", "Thiryn Kingdom"),
        ("INV_neutrality", "Ironvale Confederacy"),
        ("INV_fascism", "Wrong history"),
    ]);
    assert_eq!(resolve_display_name("THK", &localized, &None), "Thiryn Kingdom");
    assert_eq!(
        resolve_display_name("INV", &localized, &Some(Some("neutrality".to_owned()))),
        "Ironvale Confederacy"
    );
    assert_eq!(resolve_display_name("ZZZ", &localized, &None), "ZZZ");
    assert_eq!(resolve_display_name("INV", &localized, &Some(None)), "INV");
}

#[test]
fn display_names_without_history_use_the_stable_ideology_order() {
    let localized = names(&[
        ("THK", "Base Thiryn"),
        ("ASV_fascism", "Fascist"),
        ("ASV_neutrality", "Ash Vultures"),
        ("THK", "Mod Thiryn"),
    ]);
    assert_eq!(resolve_display_name("THK", &localized, &None), "Mod Thiryn");
    assert_eq!(resolve_display_name("ASV", &localized, &None), "Ash Vultures");
    assert_eq!(
        resolve_display_name("ASV", &localized, &Some(Some("communism".to_owned()))),
        "ASV"
    );
}
