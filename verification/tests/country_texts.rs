use hoi4_editor::country_files::{
    hoi4_language, is_country_tag, localization_tag, localized_country_names,
    parse_color_block, parse_multi_country_colors, parse_ruling_ideology, ParsedColor,
};

fn pair(tag: &str, color: ParsedColor) -> (String, ParsedColor) {
    (tag.to_owned(), color)
}

#[test]
fn country_tags_are_three_upper_case_letters_or_digits() {
    assert!(is_country_tag("GER"));
    assert!(is_country_tag("D01"));
    assert!(!is_country_tag("ger"));
    assert!(!is_country_tag("GE"));
    assert!(!is_country_tag("GERM"));
    assert!(!is_country_tag("GÉR"));
    assert_eq!(localization_tag("INV_neutrality"), Some("INV".to_owned()));
    assert_eq!(localization_tag("THK"), Some("THK".to_owned()));
    assert_eq!(localization_tag("germany_ADJ"), None);
}

#[test]
fn color_blocks_need_a_key_braces_and_three_bytes() {
    assert_eq!(parse_color_block("color = { 10 20 30 }"), ParsedColor::Value([10, 20, 30]));
    assert_eq!(parse_color_block("color=rgb{255 0 7}"), ParsedColor::Value([255, 0, 7]));
    assert_eq!(parse_color_block(" color_ui = rgb { 1 2 3 }"), ParsedColor::Missing);
    assert_eq!(parse_color_block("background_color = { 1 2 3 }"), ParsedColor::Missing);
    assert_eq!(parse_color_block("color = { 1 2 }"), ParsedColor::Invalid);
    assert_eq!(parse_color_block("color = { 1 2 300 }"), ParsedColor::Invalid);
    assert_eq!(parse_color_block("color = hsv { 0.5 0.5 0.5 }"), ParsedColor::Invalid);
    assert_eq!(parse_color_block("color = { 1 2 3"), ParsedColor::Invalid);
    assert_eq!(parse_color_block("color ="), ParsedColor::Invalid);
    assert_eq!(parse_color_block(""), ParsedColor::Missing);
    assert_eq!(
        parse_color_block("color_ui = { 9 9 9 }\ncolor = { 4 5 6 }"),
        ParsedColor::Value([4, 5, 6])
    );
}

#[test]
fn consolidated_colors_read_each_block_without_color_ui() {
    let text = "THK = {\n color = rgb { 255 13 20 }\n color_ui = rgb { 1 2 3 }\n}\n\
                GYE = { color = rgb { 24 25 34 } }\n\
                CBS = { color = rgb { 255 220 105 } }\n\
                INV = { color = rgb { 105 82 56 } }\n";
    assert_eq!(
        parse_multi_country_colors(text),
        vec![
            pair("THK", ParsedColor::Value([255, 13, 20])),
            pair("GYE", ParsedColor::Value([24, 25, 34])),
            pair("CBS", ParsedColor::Value([255, 220, 105])),
            pair("INV", ParsedColor::Value([105, 82, 56])),
        ]
    );
}

#[test]
fn consolidated_colors_skip_comments_and_keep_the_last_block_of_a_tag() {
    let text = "# GER = { color = { 1 1 1 } }\r\n\
                GER = { # opened here\r\n  color = { 2 2 2 }\r\n}\r\n\
                lower = { color = { 3 3 3 } }\n\
                ENG = { color = { 4 4 }}\n\
                GER = { color = { 5 5 5 } }\n\
                FRA = {\n color = { 6 6 6 }";
    assert_eq!(
        parse_multi_country_colors(text),
        vec![pair("GER", ParsedColor::Value([5, 5, 5])), pair("ENG", ParsedColor::Invalid)]
    );
    assert_eq!(parse_multi_country_colors(""), Vec::new());
}

#[test]
fn ruling_party_is_the_word_after_its_key() {
    assert_eq!(
        parse_ruling_ideology("set_politics = { ruling_party = neutrality }"),
        Some("neutrality".to_owned())
    );
    assert_eq!(
        parse_ruling_ideology("set_politics = {\n\truling_party=\"fascism\"}"),
        Some("fascism".to_owned())
    );
    assert_eq!(parse_ruling_ideology("ruling_party neutrality"), None);
    assert_eq!(parse_ruling_ideology("ruling_party = }"), None);
    assert_eq!(parse_ruling_ideology("ruling_party = \"\""), None);
    assert_eq!(parse_ruling_ideology("capital = 5"), None);
}

#[test]
fn localisation_names_come_from_tagged_keys_of_the_language() {
    let language = hoi4_language("en-US");
    assert_eq!(language, "english");
    let text = "\u{feff}l_english:\n THK:1 \"Thiryn Kingdom\"\n INV_neutrality:0 \"Ironvale Confederacy\"\r\n \
                INV_fascism:0 \"Wrong history\" # note\n lower:0 \"Nope\"\n EMP:0 \"\"\n \u{feff}GER:0 \"Germany\"";
    assert_eq!(
        localized_country_names(text, language),
        vec![
            ("THK".to_owned(), "Thiryn Kingdom".to_owned()),
            ("INV_neutrality".to_owned(), "Ironvale Confederacy".to_owned()),
            ("INV_fascism".to_owned(), "Wrong history".to_owned()),
            ("GER".to_owned(), "Germany".to_owned()),
        ]
    );
    assert_eq!(localized_country_names(text, "french"), Vec::new());
}

#[test]
fn game_languages_follow_the_locale() {
    assert_eq!(hoi4_language("pt-BR"), "braz_por");
    assert_eq!(hoi4_language("es-ES"), "spanish");
    assert_eq!(hoi4_language("fr-FR"), "french");
    assert_eq!(hoi4_language("ru-RU"), "russian");
    assert_eq!(hoi4_language("zh-CN"), "simp_chinese");
    assert_eq!(hoi4_language("de-DE"), "english");
}
