//! Base map views, workspace view memory, image overlay validation and the
//! deterministic political fallback palette.
use vstd::prelude::*;
use crate::country_files::{trim_text, trimmed};

verus! {

/// An RGB color.
pub type Color = [u8; 3];

pub const AMBIGUOUS_PROVINCE_COLOR: Color = [255, 0, 255];
pub const UNASSIGNED_LAND_COLOR: Color = [128, 128, 128];
pub const UNKNOWN_PROVINCE_COLOR: Color = [255, 0, 0];
pub const STATE_BOUNDARY_COLOR: Color = [20, 20, 20];
pub const SELECTED_STATE_COLOR: Color = [255, 230, 0];

#[derive(Debug, Clone, Copy, PartialEq, Eq, PartialOrd, Ord, Default, Structural)]
pub enum MapBaseView {
    #[default]
    ProvinceColors,
    ProvinceTypes,
    Terrain,
    Continents,
    Coastal,
    States,
    Political,
    Resources,
}

impl MapBaseView {
    /// The views reachable through the digit shortcuts `1` to `7`.
    pub open spec fn shortcut_spec(key: char) -> Option<MapBaseView> {
        if key == '1' {
            Some(MapBaseView::ProvinceColors)
        } else if key == '2' {
            Some(MapBaseView::ProvinceTypes)
        } else if key == '3' {
            Some(MapBaseView::Terrain)
        } else if key == '4' {
            Some(MapBaseView::Continents)
        } else if key == '5' {
            Some(MapBaseView::Coastal)
        } else if key == '6' {
            Some(MapBaseView::States)
        } else if key == '7' {
            Some(MapBaseView::Political)
        } else {
            None
        }
    }

    pub fn from_canonical_shortcut(key: char) -> (r: Option<MapBaseView>)
        ensures
            r == Self::shortcut_spec(key),
    {
        if key == '1' {
            Some(MapBaseView::ProvinceColors)
        } else if key == '2' {
            Some(MapBaseView::ProvinceTypes)
        } else if key == '3' {
            Some(MapBaseView::Terrain)
        } else if key == '4' {
            Some(MapBaseView::Continents)
        } else if key == '5' {
            Some(MapBaseView::Coastal)
        } else if key == '6' {
            Some(MapBaseView::States)
        } else if key == '7' {
            Some(MapBaseView::Political)
        } else {
            None
        }
    }

    pub open spec fn label_spec(self) -> Seq<char> {
        match self {
            MapBaseView::ProvinceColors => "Province Colors"@,
            MapBaseView::ProvinceTypes => "Province Types"@,
            MapBaseView::Terrain => "Terrain / Biome"@,
            MapBaseView::Continents => "Continents"@,
            MapBaseView::Coastal => "Coastal Provinces"@,
            MapBaseView::States => "States"@,
            MapBaseView::Political => "Political"@,
            MapBaseView::Resources => "Resources"@,
        }
    }

    pub fn label(self) -> (r: &'static str)
        ensures
            r@ == self.label_spec(),
    {
        match self {
            MapBaseView::ProvinceColors => "Province Colors",
            MapBaseView::ProvinceTypes => "Province Types",
            MapBaseView::Terrain => "Terrain / Biome",
            MapBaseView::Continents => "Continents",
            MapBaseView::Coastal => "Coastal Provinces",
            MapBaseView::States => "States",
            MapBaseView::Political => "Political",
            MapBaseView::Resources => "Resources",
        }
    }

    pub open spec fn requires_state_history_spec(self) -> bool {
        self is States || self is Political || self is Resources
    }

    pub fn requires_state_history(self) -> (r: bool)
        ensures
            r == self.requires_state_history_spec(),
    {
        matches!(self, MapBaseView::States | MapBaseView::Political | MapBaseView::Resources)
    }

    pub fn is_province_view(self) -> (r: bool)
        ensures
            r == !self.requires_state_history_spec(),
    {
        !self.requires_state_history()
    }
}

#[derive(Debug, Clone, Copy, PartialEq, Eq, Structural)]
pub enum DeveloperMapOverlay {
    CompactDiagnostics,
    DetailedDiagnostics,
}

#[derive(Debug, Clone, Copy, PartialEq, Eq, Structural)]
pub enum WorkspaceMode {
    Provinces,
    States,
}

impl WorkspaceMode {
    pub fn label(self) -> (r: &'static str)
        ensures
            r@ == (match self {
                WorkspaceMode::Provinces => "Provinces"@,
                WorkspaceMode::States => "States"@,
            }),
    {
        match self {
            WorkspaceMode::Provinces => "Provinces",
            WorkspaceMode::States => "States",
        }
    }

    pub open spec fn next_spec(self) -> WorkspaceMode {
        match self {
            WorkspaceMode::Provinces => WorkspaceMode::States,
            WorkspaceMode::States => WorkspaceMode::Provinces,
        }
    }

    pub fn next(self) -> (r: WorkspaceMode)
        ensures
            r == self.next_spec(),
    {
        match self {
            WorkspaceMode::Provinces => WorkspaceMode::States,
            WorkspaceMode::States => WorkspaceMode::Provinces,
        }
    }
}

/// Switching workspaces twice returns to the first workspace, and a switch
/// never stays in place.
pub proof fn law_workspace_next_alternates(mode: WorkspaceMode)
    ensures
        mode.next_spec().next_spec() == mode,
        mode.next_spec() != mode,
{
}

/// The last base view chosen in each workspace.
#[derive(Debug, Clone, Copy, PartialEq, Eq, Structural)]
pub struct WorkspaceViewPreferences {
    provinces: MapBaseView,
    states: MapBaseView,
}

impl WorkspaceViewPreferences {
    pub closed spec fn get_spec(self, workspace: WorkspaceMode) -> MapBaseView {
        match workspace {
            WorkspaceMode::Provinces => self.provinces,
            WorkspaceMode::States => self.states,
        }
    }

    /// These preferences after remembering `view` for `workspace`.
    pub closed spec fn with_view(self, workspace: WorkspaceMode, view: MapBaseView) -> Self {
        match workspace {
            WorkspaceMode::Provinces => WorkspaceViewPreferences { provinces: view, ..self },
            WorkspaceMode::States => WorkspaceViewPreferences { states: view, ..self },
        }
    }

    /// Province colors for the province workspace, the state view for the state workspace.
    pub fn default_preferences() -> (r: Self)
        ensures
            r.get_spec(WorkspaceMode::Provinces) == MapBaseView::ProvinceColors,
            r.get_spec(WorkspaceMode::States) == MapBaseView::States,
    {
        WorkspaceViewPreferences { provinces: MapBaseView::ProvinceColors, states: MapBaseView::States }
    }

    pub fn get(self, workspace: WorkspaceMode) -> (r: MapBaseView)
        ensures
            r == self.get_spec(workspace),
    {
        match workspace {
            WorkspaceMode::Provinces => self.provinces,
            WorkspaceMode::States => self.states,
        }
    }

    pub fn remember(&mut self, workspace: WorkspaceMode, view: MapBaseView)
        ensures
            *final(self) == old(self).with_view(workspace, view),
    {
        match workspace {
            WorkspaceMode::Provinces => self.provinces = view,
            WorkspaceMode::States => self.states = view,
        }
    }

    /// Remembering a view for one workspace is read back for that workspace and
    /// leaves the other workspace's memory untouched.
    pub proof fn law_view_preferences_are_independent(self, workspace: WorkspaceMode, view: MapBaseView)
        ensures
            self.with_view(workspace, view).get_spec(workspace) == view,
            self.with_view(workspace, view).get_spec(workspace.next_spec()) == self.get_spec(
                workspace.next_spec(),
            ),
    {
    }
}

impl Default for WorkspaceViewPreferences {
    /// Province colors for the province workspace, the state view for the state workspace.
    fn default() -> (r: Self)
        ensures
            r.get_spec(WorkspaceMode::Provinces) == MapBaseView::ProvinceColors,
            r.get_spec(WorkspaceMode::States) == MapBaseView::States,
    {
        WorkspaceViewPreferences::default_preferences()
    }
}

#[derive(Debug, Clone, PartialEq, Eq)]
pub enum ImageOverlaySource {
    ProjectHeightmap,
    Custom(String),
}

#[derive(Debug, Clone, Copy, PartialEq, Eq)]
pub struct ImageOverlayMetadata {
    pub exists: bool,
    pub dimensions: Option<[u32; 2]>,
}

#[derive(Debug, Clone, Copy, PartialEq, Eq)]
pub enum ImageOverlayValidationIssue {
    Missing,
    MissingDimensions,
    EmptyDimensions,
    DimensionMismatch { expected: [u32; 2], actual: [u32; 2] },
}

/// The issues of an overlay image against the map size, in the order:
/// missing file, missing dimensions (which ends the list), empty dimensions,
/// dimension mismatch.
pub open spec fn overlay_issues(
    image: ImageOverlayMetadata,
    map_dimensions: [u32; 2],
) -> Seq<ImageOverlayValidationIssue> {
    let missing: Seq<ImageOverlayValidationIssue> = if !image.exists {
        seq![ImageOverlayValidationIssue::Missing]
    } else {
        seq![]
    };
    match image.dimensions {
        None => missing.push(ImageOverlayValidationIssue::MissingDimensions),
        Some(actual) => {
            let empty: Seq<ImageOverlayValidationIssue> = if actual[0] == 0 || actual[1] == 0 {
                seq![ImageOverlayValidationIssue::EmptyDimensions]
            } else {
                seq![]
            };
            let mismatch: Seq<ImageOverlayValidationIssue> = if actual[0] != map_dimensions[0]
                || actual[1] != map_dimensions[1] {
                seq![
                    ImageOverlayValidationIssue::DimensionMismatch {
                        expected: map_dimensions,
                        actual,
                    },
                ]
            } else {
                seq![]
            };
            missing + empty + mismatch
        },
    }
}

pub fn validate_image_overlay_metadata(
    image: ImageOverlayMetadata,
    map_dimensions: [u32; 2],
) -> (r: Vec<ImageOverlayValidationIssue>)
    ensures
        r@ == overlay_issues(image, map_dimensions),
{
    let mut issues: Vec<ImageOverlayValidationIssue> = Vec::new();
    if !image.exists {
        issues.push(ImageOverlayValidationIssue::Missing);
    }
    let actual = match image.dimensions {
        Some(actual) => actual,
        None => {
            issues.push(ImageOverlayValidationIssue::MissingDimensions);
            return issues;
        },
    };
    if actual[0] == 0 || actual[1] == 0 {
        issues.push(ImageOverlayValidationIssue::EmptyDimensions);
    }
    if actual[0] != map_dimensions[0] || actual[1] != map_dimensions[1] {
        issues.push(
            ImageOverlayValidationIssue::DimensionMismatch { expected: map_dimensions, actual },
        );
    }
    proof {
        let ghost expected = overlay_issues(image, map_dimensions);
        assert(issues@ =~= expected);
    }
    issues
}

pub fn image_overlay_is_aligned(image: ImageOverlayMetadata, map_dimensions: [u32; 2]) -> (r: bool)
    ensures
        r == (overlay_issues(image, map_dimensions).len() == 0),
        r == (image.exists && image.dimensions is Some && image.dimensions.unwrap()[0]
            == map_dimensions[0] && image.dimensions.unwrap()[1] == map_dimensions[1]
            && map_dimensions[0] != 0 && map_dimensions[1] != 0),
{
    let issues = validate_image_overlay_metadata(image, map_dimensions);
    issues.len() == 0
}

// ---------------------------------------------------------------------------
// Political fallback palette
// ---------------------------------------------------------------------------

pub const FNV_OFFSET_BASIS: u32 = 0x811c_9dc5;

pub const FNV_PRIME: u32 = 0x0100_0193;

pub const FALLBACK_STEP: u32 = 0x9e37_79b9;

pub open spec fn wrap32(x: int) -> u32 {
    (x % 0x1_0000_0000) as u32
}

/// FNV-1a over a byte sequence, starting from `hash`.
pub open spec fn fnv1a_from(hash: u32, bytes: Seq<u8>) -> u32
    decreases bytes.len(),
{
    if bytes.len() == 0 {
        hash
    } else {
        let mixed = hash ^ (bytes[0] as u32);
        fnv1a_from(wrap32(mixed as int * FNV_PRIME as int), bytes.drop_first())
    }
}

pub open spec fn ascii_upper(b: u8) -> u8 {
    if 97 <= b <= 122 {
        (b - 32) as u8
    } else {
        b
    }
}

/// The colors that the political palette must never produce, because the map
/// already uses them for diagnostics, boundaries, selection, black and white.
pub open spec fn reserved_colors() -> Seq<Color> {
    seq![
        AMBIGUOUS_PROVINCE_COLOR,
        UNASSIGNED_LAND_COLOR,
        UNKNOWN_PROVINCE_COLOR,
        STATE_BOUNDARY_COLOR,
        SELECTED_STATE_COLOR,
        [0u8, 0u8, 0u8],
        [255u8, 255u8, 255u8],
    ]
}

pub open spec fn is_reserved(color: Color) -> bool {
    reserved_colors().contains(color)
}

pub open spec fn color_from_hash(hash: u32) -> Color {
    [
        (48 + (hash & 0x7f)) as u8,
        (48 + ((hash >> 8u32) & 0x7f)) as u8,
        (48 + ((hash >> 16u32) & 0x7f)) as u8,
    ]
}

/// Starting at `hash`, step by the fallback increment until the color is not
/// reserved, at most `fuel` times.
pub open spec fn first_free_color(hash: u32, fuel: nat) -> Color
    decreases fuel,
{
    if !is_reserved(color_from_hash(hash)) || fuel == 0 {
        color_from_hash(hash)
    } else {
        first_free_color(wrap32(hash as int + FALLBACK_STEP as int), (fuel - 1) as nat)
    }
}

/// The political color of a country tag: FNV-1a over the ASCII-uppercased bytes
/// of the trimmed tag, stepped past reserved colors.
pub open spec fn political_color_spec(trimmed_bytes: Seq<u8>) -> Color {
    first_free_color(fnv1a_from(FNV_OFFSET_BASIS, trimmed_bytes.map_values(|b: u8| ascii_upper(b))), 7)
}


fn same_color(a: Color, b: Color) -> (r: bool)
    ensures
        r == (a == b),
{
    let r = a[0] == b[0] && a[1] == b[1] && a[2] == b[2];
    proof {
        if r {
            assert(a =~= b);
        } else {
            assert(a@ != b@);
        }
    }
    r
}

pub fn is_reserved_diagnostic_color(color: Color) -> (r: bool)
    ensures
        r == is_reserved(color),
{
    let reserved: [Color; 7] = [
        AMBIGUOUS_PROVINCE_COLOR,
        UNASSIGNED_LAND_COLOR,
        UNKNOWN_PROVINCE_COLOR,
        STATE_BOUNDARY_COLOR,
        SELECTED_STATE_COLOR,
        [0, 0, 0],
        [255, 255, 255],
    ];
    proof {
        assert(reserved@ =~= reserved_colors());
    }
    let mut i: usize = 0;
    while i < 7
        invariant
            i <= 7,
            reserved@ == reserved_colors(),
            forall|j: int| 0 <= j < i ==> reserved@[j] != color,
        decreases 7 - i,
    {
        if same_color(reserved[i], color) {
            proof {
                assert(reserved_colors()[i as int] == color);
            }
            return true;
        }
        i = i + 1;
    }
    proof {
        if reserved_colors().contains(color) {
            let k = choose|k: int| 0 <= k < 7 && reserved_colors()[k] == color;
            assert(reserved@[k] == color);
        }
    }
    false
}

fn political_color_from_hash(hash: u32) -> (r: Color)
    ensures
        r == color_from_hash(hash),
{
    assert((hash & 0x7f) < 128 && ((hash >> 8) & 0x7f) < 128 && ((hash >> 16) & 0x7f) < 128)
        by (bit_vector);
    [
        (48 + (hash & 0x7f)) as u8,
        (48 + ((hash >> 8) & 0x7f)) as u8,
        (48 + ((hash >> 16) & 0x7f)) as u8,
    ]
}

/// Six pairwise different red channels reachable in up to eight steps.
proof fn lemma_red_channels_distinct(r0: u32, i: u32, j: u32)
    requires
        r0 < 128,
        i < j < 8,
    ensures
        (r0 + 57 * i) % 128 != (r0 + 57 * j) % 128,
{
    assert((r0 + 57 * i) % 128 != (r0 + 57 * j) % 128) by (bit_vector)
        requires
            r0 < 128,
            i < j,
            j < 8,
    ;
}

proof fn lemma_step_red(h: u32)
    ensures
        (wrap32(h as int + FALLBACK_STEP as int) & 0x7f) == ((h & 0x7f) + 57) % 128,
{
    let h2 = wrap32(h as int + FALLBACK_STEP as int);
    assert(h2 == h.wrapping_add(0x9e37_79b9u32));
    assert((h.wrapping_add(0x9e37_79b9u32) & 0x7f) == ((h & 0x7f) + 57) % 128) by (bit_vector);
}

proof fn lemma_pigeonhole(colors: Seq<Color>)
    requires
        colors.no_duplicates(),
        forall|k: int| 0 <= k < colors.len() ==> is_reserved(#[trigger] colors[k]),
    ensures
        colors.len() <= reserved_colors().len(),
{
    colors.unique_seq_to_set();
    reserved_colors().lemma_cardinality_of_set();
    assert(colors.to_set().subset_of(reserved_colors().to_set()));
    vstd::set_lib::lemma_len_subset(colors.to_set(), reserved_colors().to_set());
}

proof fn lemma_first_free_shift(hash: u32, fuel: nat, steps: nat)
    requires
        steps <= fuel,
        forall|k: nat| k < steps ==> is_reserved(#[trigger] color_from_hash(step_hash(hash, k))),
    ensures
        first_free_color(hash, fuel) == first_free_color(step_hash(hash, steps), (fuel - steps) as nat),
    decreases steps,
{
    if steps > 0 {
        assert(is_reserved(color_from_hash(step_hash(hash, 0))));
        let next = wrap32(hash as int + FALLBACK_STEP as int);
        assert forall|k: nat| k < (steps - 1) as nat implies is_reserved(
            #[trigger] color_from_hash(step_hash(next, k)),
        ) by {
            lemma_step_hash_succ(hash, k);
            assert(is_reserved(color_from_hash(step_hash(hash, k + 1))));
        }
        lemma_first_free_shift(next, (fuel - 1) as nat, (steps - 1) as nat);
        lemma_step_hash_succ(hash, (steps - 1) as nat);
    }
}

/// The hash after `k` fallback steps.
pub open spec fn step_hash(hash: u32, k: nat) -> u32
    decreases k,
{
    if k == 0 {
        hash
    } else {
        wrap32(step_hash(hash, (k - 1) as nat) as int + FALLBACK_STEP as int)
    }
}

proof fn lemma_step_hash_succ(hash: u32, k: nat)
    ensures
        step_hash(wrap32(hash as int + FALLBACK_STEP as int), k) == step_hash(hash, k + 1),
    decreases k,
{
    let next = wrap32(hash as int + FALLBACK_STEP as int);
    if k > 0 {
        lemma_step_hash_succ(hash, (k - 1) as nat);
        assert(step_hash(next, k) == wrap32(step_hash(next, (k - 1) as nat) as int + FALLBACK_STEP as int));
        assert(step_hash(hash, k + 1) == wrap32(step_hash(hash, k) as int + FALLBACK_STEP as int));
    } else {
        assert(step_hash(hash, 1) == wrap32(step_hash(hash, 0) as int + FALLBACK_STEP as int));
    }
}

/// The deterministic fallback color of a country tag.  Case and surrounding
/// white space of the tag do not matter, and the result is never a reserved
/// diagnostic color.
pub fn political_fallback_color(tag: &str) -> (r: Color)
    ensures
        r == political_color_spec(vstd::utf8::encode_utf8(trimmed(tag@))),
        !is_reserved(r),
{
    let text = trim_text(tag);
    let bytes = text.as_str().as_bytes();
    let ghost upper = bytes@.map_values(|b: u8| ascii_upper(b));
    let mut hash: u32 = FNV_OFFSET_BASIS;
    let mut i: usize = 0;
    proof {
        assert(upper.skip(0) =~= upper);
    }
    while i < bytes.len()
        invariant
            i <= bytes@.len(),
            upper == bytes@.map_values(|b: u8| ascii_upper(b)),
            fnv1a_from(hash, upper.skip(i as int)) == fnv1a_from(FNV_OFFSET_BASIS, upper),
        decreases bytes@.len() - i,
    {
        let b = bytes[i];
        let u: u8 = if 97 <= b && b <= 122 {
            b - 32
        } else {
            b
        };
        proof {
            assert(upper.skip(i as int).drop_first() =~= upper.skip(i + 1));
            assert(upper.skip(i as int)[0] == u);
        }
        hash = (hash ^ (u as u32)).wrapping_mul(FNV_PRIME);
        i = i + 1;
    }
    proof {
        assert(upper.skip(bytes@.len() as int) =~= Seq::<u8>::empty());
    }
    let ghost h0 = hash;
    proof {
        assert((h0 & 0x7f) < 128) by (bit_vector);
        assert((h0 & 0x7f) == (h0 & 0x7f) % 128);
    }
    let mut color = political_color_from_hash(hash);
    let mut steps: u32 = 0;
    let ghost mut seen: Seq<Color> = seq![];
    while is_reserved_diagnostic_color(color)
        invariant
            steps <= 7,
            (h0 & 0x7f) < 128,
            hash == step_hash(h0, steps as nat),
            color == color_from_hash(hash),
            seen.len() == steps,
            forall|k: int| 0 <= k < steps ==> seen[k] == color_from_hash(step_hash(h0, k as nat)),
            forall|k: int| 0 <= k < steps ==> is_reserved(#[trigger] seen[k]),
            (hash & 0x7f) == ((h0 & 0x7f) + 57 * steps) % 128,
            forall|k: int| 0 <= k < steps ==> (#[trigger] seen[k])[0] == 48 + ((h0 & 0x7f) + 57 * k) % 128,
        decreases 7 - steps,
    {
        proof {
            if steps == 7 {
                let all = seen.push(color);
                assert forall|a: int, b: int| 0 <= a < b < 8 implies all[a] != all[b] by {
                    lemma_red_channels_distinct(h0 & 0x7f, a as u32, b as u32);
                }
                lemma_pigeonhole(all);
            }
            lemma_step_red(hash);
            seen = seen.push(color);
        }
        hash = hash.wrapping_add(FALLBACK_STEP);
        color = political_color_from_hash(hash);
        steps = steps + 1;
    }
    proof {
        assert forall|k: nat| k < steps as nat implies is_reserved(
            #[trigger] color_from_hash(step_hash(h0, k)),
        ) by {
            assert(seen[k as int] == color_from_hash(step_hash(h0, k)));
        }
        lemma_first_free_shift(h0, 7, steps as nat);
    }
    color
}

/// The colors made from a hash have every channel between 48 and 175.
pub open spec fn palette_channels(c: Color) -> bool {
    48 <= c[0] <= 175 && 48 <= c[1] <= 175 && 48 <= c[2] <= 175
}

proof fn lemma_color_from_hash_channels(h: u32)
    ensures
        palette_channels(color_from_hash(h)),
{
    assert(h & 0x7f <= 127) by (bit_vector);
    assert((h >> 8u32) & 0x7f <= 127) by (bit_vector);
    assert((h >> 16u32) & 0x7f <= 127) by (bit_vector);
}

proof fn lemma_first_free_channels(h: u32, fuel: nat)
    ensures
        palette_channels(first_free_color(h, fuel)),
    decreases fuel,
{
    lemma_color_from_hash_channels(h);
    if !(!is_reserved(color_from_hash(h)) || fuel == 0) {
        lemma_first_free_channels(wrap32(h as int + FALLBACK_STEP as int), (fuel - 1) as nat);
    }
}

/// A country tag's fallback color ignores the case of ASCII letters: tags
/// whose bytes agree up to case get the same color; each channel of it lies
/// between 48 and 175. Uppercasing turns exactly the lowercase ASCII letters
/// into their capitals and leaves every other byte alone.
pub proof fn lemma_political_color_laws(x: Seq<u8>, y: Seq<u8>, b: u8)
    ensures
        x.map_values(|c: u8| ascii_upper(c)) == y.map_values(|c: u8| ascii_upper(c)) ==> political_color_spec(x)
            == political_color_spec(y),
        palette_channels(political_color_spec(x)),
        97 <= b <= 122 ==> ascii_upper(b) == b - 32,
        !(97 <= b <= 122) ==> ascii_upper(b) == b,
        ascii_upper(ascii_upper(b)) == ascii_upper(b),
{
    lemma_first_free_channels(fnv1a_from(FNV_OFFSET_BASIS, x.map_values(|c: u8| ascii_upper(c))), 7);
}

/// The number keys 1 to 7 choose the seven views other than resources, each
/// its own; no other key chooses one.
pub proof fn lemma_view_shortcut_laws(a: char, b: char)
    ensures
        MapBaseView::shortcut_spec(a) is Some <==> ('1' <= a <= '7'),
        MapBaseView::shortcut_spec(a) is Some && MapBaseView::shortcut_spec(a) == MapBaseView::shortcut_spec(b) ==> a == b,
        MapBaseView::shortcut_spec(a) != Some(MapBaseView::Resources),
{
}

/// Switching the workspace twice comes back to where it started, and once
/// always changes it.
pub proof fn lemma_workspace_switch_laws(m: WorkspaceMode)
    ensures
        m.next_spec() != m,
        m.next_spec().next_spec() == m,
{
}

} // verus!
