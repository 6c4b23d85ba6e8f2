//! The political view's country colors: how an owner tag's color was
//! resolved, the color a state is drawn in, and what the inspector says
//! about it.
use vstd::prelude::*;
use crate::country_files::trimmed;
use crate::map_layers::{
    political_color_spec, political_fallback_color, Color, MapBaseView,
};
use crate::text::{decimal, push_decimal, same_text};
use crate::country_files::ParsedColor;
use crate::state::{clone_opt_str, opt_str_view};

verus! {

/// How a country's color was found, or why it was not.
#[derive(Debug, Clone, Copy, PartialEq, Eq, Structural)]
pub enum CountryColorResolutionKind {
    Resolved,
    CountryTagUnknown,
    ColorMissing,
    ColorParseFailed,
}

/// The outcome of looking up a country's color.
#[derive(Debug, Clone, PartialEq, Eq)]
pub struct CountryColorResolution {
    pub kind: CountryColorResolutionKind,
    pub tag: String,
    pub rgb: Option<Color>,
    pub source_path: Option<String>,
    pub source_type: Option<String>,
}

/// Whose color a state is drawn in.
#[derive(Debug, Clone, PartialEq, Eq)]
pub enum PoliticalOwnerResolution {
    OwnerMissing,
    Country(CountryColorResolution),
}

/// The grey of states without an owner.
pub const OWNER_MISSING_COLOR: Color = [0x68, 0x68, 0x68];


/// Why a country is drawn in its fallback color, if it is.
pub open spec fn fallback_reason(kind: CountryColorResolutionKind) -> Option<Seq<char>> {
    match kind {
        CountryColorResolutionKind::Resolved => None,
        CountryColorResolutionKind::CountryTagUnknown => Some("country tag unknown"@),
        CountryColorResolutionKind::ColorMissing => Some("country known but color missing"@),
        CountryColorResolutionKind::ColorParseFailed => Some("country color parse failure"@),
    }
}

/// The line giving a resolved color, or saying that the fallback is used.
pub open spec fn rgb_line(rgb: Option<Color>) -> Seq<char> {
    match rgb {
        Some(c) => "Resolved RGB: "@ + decimal(c[0] as nat) + ", "@ + decimal(c[1] as nat) + ", "@
            + decimal(c[2] as nat),
        None => "Resolved RGB: <fallback>"@,
    }
}

/// The inspector's lines about an owner: its tag, the resolved tag and
/// color, then the source type and path and the fallback reason where
/// there are any.
pub open spec fn owner_lines(o: PoliticalOwnerResolution) -> Seq<Seq<char>> {
    match o {
        PoliticalOwnerResolution::OwnerMissing => seq![
            "Owner tag: <missing>"@,
            "Resolution: owner missing (neutral grey)"@,
        ],
        PoliticalOwnerResolution::Country(res) => {
            let base = seq![
                "Owner tag: "@ + res.tag@,
                "Resolved country tag: "@ + res.tag@,
                rgb_line(res.rgb),
            ];
            let with_type = match res.source_type {
                Some(t) => base.push("Resolution source type: "@ + t@),
                None => base,
            };
            let with_path = match res.source_path {
                Some(p) => with_type.push("Resolution source path: "@ + p@),
                None => with_type,
            };
            match fallback_reason(res.kind) {
                Some(x) => with_path.push("Fallback reason: "@ + x),
                None => with_path,
            }
        },
    }
}

impl PoliticalOwnerResolution {
    /// The resolved color, the tag's fallback color when none was resolved,
    /// or grey without an owner.
    pub fn color_for_map(&self) -> (r: Color)
        ensures
            r == (match self {
                PoliticalOwnerResolution::OwnerMissing => OWNER_MISSING_COLOR,
                PoliticalOwnerResolution::Country(resolution) => match resolution.rgb {
                    Some(rgb) => rgb,
                    None => political_color_spec(vstd::utf8::encode_utf8(trimmed(resolution.tag@))),
                },
            }),
    {
        match self {
            PoliticalOwnerResolution::OwnerMissing => OWNER_MISSING_COLOR,
            PoliticalOwnerResolution::Country(resolution) => match resolution.rgb {
                Some(rgb) => rgb,
                None => political_fallback_color(resolution.tag.as_str()),
            },
        }
    }

    /// The inspector's lines about the resolution.
    pub fn diagnostic_lines(&self) -> (r: Vec<String>)
        ensures
            r@.map_values(|l: String| l@) == owner_lines(*self),
    {
        match self {
            PoliticalOwnerResolution::OwnerMissing => {
                let mut lines: Vec<String> = Vec::new();
                lines.push(String::from_str("Owner tag: <missing>"));
                lines.push(String::from_str("Resolution: owner missing (neutral grey)"));
                proof {
                    assert(lines@.map_values(|l: String| l@) =~= owner_lines(*self));
                }
                lines
            },
            PoliticalOwnerResolution::Country(resolution) => {
                let mut lines: Vec<String> = Vec::new();
                let mut first = String::from_str("Owner tag: ");
                first.append(resolution.tag.as_str());
                lines.push(first);
                let mut second = String::from_str("Resolved country tag: ");
                second.append(resolution.tag.as_str());
                lines.push(second);
                let third = match resolution.rgb {
                    Some(rgb) => {
                        let mut line = String::from_str("Resolved RGB: ");
                        push_decimal(&mut line, rgb[0] as u64);
                        line.append(", ");
                        push_decimal(&mut line, rgb[1] as u64);
                        line.append(", ");
                        push_decimal(&mut line, rgb[2] as u64);
                        line
                    },
                    None => String::from_str("Resolved RGB: <fallback>"),
                };
                lines.push(third);
                if let Some(source_type) = &resolution.source_type {
                    let mut line = String::from_str("Resolution source type: ");
                    line.append(source_type.as_str());
                    lines.push(line);
                }
                if let Some(path) = &resolution.source_path {
                    let mut line = String::from_str("Resolution source path: ");
                    line.append(path.as_str());
                    lines.push(line);
                }
                let reason = match resolution.kind {
                    CountryColorResolutionKind::Resolved => None,
                    CountryColorResolutionKind::CountryTagUnknown => Some("country tag unknown"),
                    CountryColorResolutionKind::ColorMissing => Some("country known but color missing"),
                    CountryColorResolutionKind::ColorParseFailed => Some("country color parse failure"),
                };
                if let Some(reason) = reason {
                    let mut line = String::from_str("Fallback reason: ");
                    line.append(reason);
                    lines.push(line);
                }
                proof {
                    assert(lines@.map_values(|l: String| l@) =~= owner_lines(*self));
                }
                lines
            },
        }
    }
}

/// The owner and provinces of one state, as the political view reads them.
#[derive(Debug, Clone, PartialEq, Eq)]
pub struct PoliticalStateOwnership {
    pub owner: Option<String>,
    pub provinces: Vec<u32>,
}

/// What a country label shows.
#[derive(Debug, Clone, Copy, PartialEq, Eq, Structural)]
pub enum PoliticalLabelVisibility {
    Hidden,
    FlagOnly,
    NameOnly,
    NameAndFlag,
}

/// Country labels are drawn in the political view only.
pub fn political_labels_visible_in_view(view: MapBaseView) -> (r: bool)
    ensures
        r == (view == MapBaseView::Political),
{
    view == MapBaseView::Political
}

// ---------------------------------------------------------------------------
// Resolving a country's color and name
// ---------------------------------------------------------------------------

/// A resolution as plain values: kind, tag, color, source path and type.
pub open spec fn resolution_view(r: CountryColorResolution) -> (
    CountryColorResolutionKind,
    Seq<char>,
    Option<Color>,
    Option<Seq<char>>,
    Option<Seq<char>>,
) {
    (r.kind, r.tag@, r.rgb, opt_str_view(r.source_path), opt_str_view(r.source_type))
}

/// What a parsed color says about a country whose color comes from a
/// source of the given type and path.
pub open spec fn parsed_resolution(
    color: ParsedColor,
    tag: Seq<char>,
    path: Option<Seq<char>>,
    source_type: Seq<char>,
) -> (CountryColorResolutionKind, Seq<char>, Option<Color>, Option<Seq<char>>, Option<Seq<char>>) {
    match color {
        ParsedColor::Value(rgb) => (
            CountryColorResolutionKind::Resolved,
            tag,
            Some(rgb),
            path,
            Some(source_type),
        ),
        ParsedColor::Invalid => (
            CountryColorResolutionKind::ColorParseFailed,
            tag,
            None,
            path,
            Some(source_type),
        ),
        ParsedColor::Missing => (
            CountryColorResolutionKind::ColorMissing,
            tag,
            None,
            path,
            Some(source_type),
        ),
    }
}

/// The resolution that a parsed color gives.
pub fn to_resolution(color: ParsedColor, tag: &str, path: &Option<String>, source_type: &str) -> (r:
    CountryColorResolution)
    ensures
        resolution_view(r) == parsed_resolution(color, tag@, opt_str_view(*path), source_type@),
{
    let kind = match color {
        ParsedColor::Value(_) => CountryColorResolutionKind::Resolved,
        ParsedColor::Invalid => CountryColorResolutionKind::ColorParseFailed,
        ParsedColor::Missing => CountryColorResolutionKind::ColorMissing,
    };
    let rgb = match color {
        ParsedColor::Value(c) => Some(c),
        _ => None,
    };
    CountryColorResolution {
        kind,
        tag: String::from_str(tag),
        rgb,
        source_path: clone_opt_str(path),
        source_type: Some(String::from_str(source_type)),
    }
}

/// A color read for a country from one source: the color, the precedence
/// rank of the source, and its path on disk, if it has one.
#[derive(Debug, Clone, PartialEq, Eq)]
pub struct SourcedColor {
    pub color: ParsedColor,
    pub precedence: u32,
    pub path: Option<String>,
}

pub const CONSOLIDATED_COLORS_SOURCE: &'static str = "common/countries/colors.txt";

pub const COUNTRY_DEFINITION_SOURCE: &'static str = "per-country definition";

/// How a country's color is resolved: an unknown tag has none; the
/// consolidated color file wins over the country's own definition when its
/// source ranks at least as high; otherwise the definition, then the
/// consolidated file, is used; with neither the color is missing.
pub open spec fn color_resolution_spec(
    tag: Seq<char>,
    known: bool,
    consolidated: Option<SourcedColor>,
    country: Option<SourcedColor>,
) -> (CountryColorResolutionKind, Seq<char>, Option<Color>, Option<Seq<char>>, Option<Seq<char>>) {
    if !known {
        (CountryColorResolutionKind::CountryTagUnknown, tag, None, None, None)
    } else {
        match (consolidated, country) {
            (Some(c), Some(k)) => if c.precedence >= k.precedence {
                parsed_resolution(c.color, tag, opt_str_view(c.path), CONSOLIDATED_COLORS_SOURCE@)
            } else {
                parsed_resolution(k.color, tag, opt_str_view(k.path), COUNTRY_DEFINITION_SOURCE@)
            },
            (None, Some(k)) => parsed_resolution(
                k.color,
                tag,
                opt_str_view(k.path),
                COUNTRY_DEFINITION_SOURCE@,
            ),
            (Some(c), None) => parsed_resolution(
                c.color,
                tag,
                opt_str_view(c.path),
                CONSOLIDATED_COLORS_SOURCE@,
            ),
            (None, None) => (CountryColorResolutionKind::ColorMissing, tag, None, None, None),
        }
    }
}

/// The color that a parsed color gives, if it gives one.
pub open spec fn color_value(c: ParsedColor) -> Option<Color> {
    match c {
        ParsedColor::Value(rgb) => Some(rgb),
        _ => None,
    }
}

/// Which source decides a country's color: the consolidated color file
/// whenever it is present and ranks at least as high as the country's own
/// definition (so it wins ties), the definition otherwise; the color is then
/// the deciding source's color, with that source's type and path. The
/// resolution always keeps the tag, and a known country's color resolves
/// exactly when the deciding source gives a color value.
pub proof fn lemma_color_source_laws(tag: Seq<char>, c: SourcedColor, k: SourcedColor)
    ensures
        c.precedence >= k.precedence ==> color_resolution_spec(tag, true, Some(c), Some(k)).2 == color_value(c.color)
            && color_resolution_spec(tag, true, Some(c), Some(k)).4 == Some(CONSOLIDATED_COLORS_SOURCE@)
            && color_resolution_spec(tag, true, Some(c), Some(k)).3 == opt_str_view(c.path),
        c.precedence < k.precedence ==> color_resolution_spec(tag, true, Some(c), Some(k)).2 == color_value(k.color)
            && color_resolution_spec(tag, true, Some(c), Some(k)).4 == Some(COUNTRY_DEFINITION_SOURCE@)
            && color_resolution_spec(tag, true, Some(c), Some(k)).3 == opt_str_view(k.path),
        color_resolution_spec(tag, true, Some(c), Some(k)) == (if c.precedence >= k.precedence {
            color_resolution_spec(tag, true, Some(c), None)
        } else {
            color_resolution_spec(tag, true, None, Some(k))
        }),
        color_resolution_spec(tag, true, Some(c), None).2 == color_value(c.color),
        color_resolution_spec(tag, true, None, Some(k)).2 == color_value(k.color),
        color_resolution_spec(tag, true, Some(c), None).3 == opt_str_view(c.path),
        color_resolution_spec(tag, true, None, Some(k)).3 == opt_str_view(k.path),
        color_resolution_spec(tag, false, Some(c), Some(k)).0 == CountryColorResolutionKind::CountryTagUnknown,
        color_resolution_spec(tag, true, None, None).0 == CountryColorResolutionKind::ColorMissing,
        color_resolution_spec(tag, true, Some(c), None).0 == CountryColorResolutionKind::Resolved <==> color_value(
            c.color,
        ) is Some,
        color_resolution_spec(tag, true, None, Some(k)).0 == CountryColorResolutionKind::Resolved <==> color_value(
            k.color,
        ) is Some,
        color_resolution_spec(tag, true, Some(c), Some(k)).1 == tag,
        color_resolution_spec(tag, false, Some(c), Some(k)).1 == tag,
        color_resolution_spec(tag, true, Some(c), None).4 == Some(CONSOLIDATED_COLORS_SOURCE@),
        color_resolution_spec(tag, true, None, Some(k)).4 == Some(COUNTRY_DEFINITION_SOURCE@),
        color_resolution_spec(tag, false, Some(c), Some(k)).2 is None,
        color_resolution_spec(tag, true, None, None).2 is None,
{
}

/// Resolves a country's color from what its sources gave.
pub fn resolve_color(
    tag: &str,
    known: bool,
    consolidated: &Option<SourcedColor>,
    country: &Option<SourcedColor>,
) -> (r: CountryColorResolution)
    ensures
        resolution_view(r) == color_resolution_spec(tag@, known, *consolidated, *country),
        r.tag@ == tag@,
        !known ==> r.kind == CountryColorResolutionKind::CountryTagUnknown && r.rgb is None,
        known ==> (r.kind == CountryColorResolutionKind::Resolved <==> r.rgb is Some),
        known && consolidated is None && country is None ==> r.kind == CountryColorResolutionKind::ColorMissing
            && r.rgb is None && r.source_type is None,
        known && consolidated is Some && (country is Some ==> consolidated.unwrap().precedence
            >= country.unwrap().precedence) ==> {
            &&& r.rgb == color_value(consolidated.unwrap().color)
            &&& opt_str_view(r.source_type) == Some(CONSOLIDATED_COLORS_SOURCE@)
            &&& opt_str_view(r.source_path) == opt_str_view(consolidated.unwrap().path)
        },
        known && country is Some && (consolidated is Some ==> consolidated.unwrap().precedence
            < country.unwrap().precedence) ==> {
            &&& r.rgb == color_value(country.unwrap().color)
            &&& opt_str_view(r.source_type) == Some(COUNTRY_DEFINITION_SOURCE@)
            &&& opt_str_view(r.source_path) == opt_str_view(country.unwrap().path)
        },
{
    if !known {
        return CountryColorResolution {
            kind: CountryColorResolutionKind::CountryTagUnknown,
            tag: String::from_str(tag),
            rgb: None,
            source_path: None,
            source_type: None,
        };
    }
    match (consolidated, country) {
        (Some(c), Some(k)) => {
            if c.precedence >= k.precedence {
                to_resolution(c.color, tag, &c.path, CONSOLIDATED_COLORS_SOURCE)
            } else {
                to_resolution(k.color, tag, &k.path, COUNTRY_DEFINITION_SOURCE)
            }
        },
        (None, Some(k)) => to_resolution(k.color, tag, &k.path, COUNTRY_DEFINITION_SOURCE),
        (Some(c), None) => to_resolution(c.color, tag, &c.path, CONSOLIDATED_COLORS_SOURCE),
        (None, None) => CountryColorResolution {
            kind: CountryColorResolutionKind::ColorMissing,
            tag: String::from_str(tag),
            rgb: None,
            source_path: None,
            source_type: None,
        },
    }
}

/// The name that the last entry for `key` gives, if any.
pub open spec fn name_lookup(names: Seq<(Seq<char>, Seq<char>)>, key: Seq<char>) -> Option<Seq<char>>
    decreases names.len(),
{
    if names.len() == 0 {
        None
    } else if names.last().0 == key {
        Some(names.last().1)
    } else {
        name_lookup(names.drop_last(), key)
    }
}

pub open spec fn names_view(v: Seq<(String, String)>) -> Seq<(Seq<char>, Seq<char>)> {
    v.map_values(|e: (String, String)| (e.0@, e.1@))
}

/// The localisation key of a country under an ideology: `TAG_ideology`.
pub open spec fn ideology_key(tag: Seq<char>, ideology: Seq<char>) -> Seq<char> {
    tag + "_"@ + ideology
}

/// A country's display name: its own localised name; else the name under
/// the ruling party of its history; else, for a country without a history,
/// the first name under neutrality, democratic, fascism or communism; else
/// the tag itself.
pub open spec fn display_name_spec(
    tag: Seq<char>,
    names: Seq<(Seq<char>, Seq<char>)>,
    history: Option<Option<Seq<char>>>,
) -> Seq<char> {
    if name_lookup(names, tag) is Some {
        name_lookup(names, tag)->0
    } else if history matches Some(Some(i)) && name_lookup(names, ideology_key(tag, i)) is Some {
        name_lookup(names, ideology_key(tag, history->0->0))->0
    } else if history is None && name_lookup(names, ideology_key(tag, "neutrality"@)) is Some {
        name_lookup(names, ideology_key(tag, "neutrality"@))->0
    } else if history is None && name_lookup(names, ideology_key(tag, "democratic"@)) is Some {
        name_lookup(names, ideology_key(tag, "democratic"@))->0
    } else if history is None && name_lookup(names, ideology_key(tag, "fascism"@)) is Some {
        name_lookup(names, ideology_key(tag, "fascism"@))->0
    } else if history is None && name_lookup(names, ideology_key(tag, "communism"@)) is Some {
        name_lookup(names, ideology_key(tag, "communism"@))->0
    } else {
        tag
    }
}

fn lookup_name(names: &Vec<(String, String)>, key: &str) -> (r: Option<String>)
    ensures
        opt_str_view(r) == name_lookup(names_view(names@), key@),
{
    let mut i = names.len();
    proof {
        assert(names_view(names@).take(names@.len() as int) =~= names_view(names@));
    }
    while i > 0
        invariant
            i <= names@.len(),
            name_lookup(names_view(names@), key@) == name_lookup(names_view(names@).take(i as int), key@),
        decreases i,
    {
        let ghost prefix = names_view(names@).take(i as int);
        proof {
            assert(prefix.drop_last() =~= names_view(names@).take(i - 1));
        }
        if same_text(names[i - 1].0.as_str(), key) {
            return Some(names[i - 1].1.clone());
        }
        i = i - 1;
    }
    proof {
        assert(names_view(names@).take(0) =~= Seq::<(Seq<char>, Seq<char>)>::empty());
    }
    None
}

fn lookup_ideology(names: &Vec<(String, String)>, tag: &str, ideology: &str) -> (r: Option<String>)
    ensures
        opt_str_view(r) == name_lookup(names_view(names@), ideology_key(tag@, ideology@)),
{
    let mut key = String::from_str(tag);
    key.append("_");
    key.append(ideology);
    lookup_name(names, key.as_str())
}

/// A country's display name from the localised names (key and name, a
/// later entry for a key winning) and its history: none, or the ruling
/// party it sets, if any.
pub fn resolve_display_name(
    tag: &str,
    names: &Vec<(String, String)>,
    history: &Option<Option<String>>,
) -> (r: String)
    ensures
        r@ == display_name_spec(
            tag@,
            names_view(names@),
            match history {
                Some(h) => Some(opt_str_view(*h)),
                None => None,
            },
        ),
{
    if let Some(name) = lookup_name(names, tag) {
        return name;
    }
    match history {
        Some(Some(ideology)) => {
            if let Some(name) = lookup_ideology(names, tag, ideology.as_str()) {
                return name;
            }
        },
        Some(None) => {},
        None => {
            if let Some(name) = lookup_ideology(names, tag, "neutrality") {
                return name;
            }
            if let Some(name) = lookup_ideology(names, tag, "democratic") {
                return name;
            }
            if let Some(name) = lookup_ideology(names, tag, "fascism") {
                return name;
            }
            if let Some(name) = lookup_ideology(names, tag, "communism") {
                return name;
            }
        },
    }
    String::from_str(tag)
}

} // verus!
