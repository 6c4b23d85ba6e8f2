//! Where the interface puts its bars, menus and sidebar buttons for a given
//! window size. Text widths and heights come from the font and are measured
//! by the caller; the sidebar buttons are sprites of a fixed size.
use vstd::prelude::*;
use crate::interface::ButtonId;

verus! {

/// A rectangle in window pixels: its top left corner and its size.
#[derive(Debug, Clone, Copy, PartialEq, Eq, Structural)]
pub struct Rect {
    pub x: u32,
    pub y: u32,
    pub w: u32,
    pub h: u32,
}

/// The width of a drop-down entry.
pub const DROPDOWN_WIDTH: u32 = 320;

/// The side of a sidebar button: a 24 pixel sprite with 4 pixels of padding
/// on each side.
pub const SIDEBAR_BUTTON_SIZE: u32 = 32;

/// The labels of the workspace bar, which depend on the window's width.
#[derive(Debug, Clone, Copy)]
pub struct WorkspaceLabels {
    pub provinces: &'static str,
    pub review: Option<&'static str>,
    pub map_placeholder: &'static str,
    pub layers_placeholder: &'static str,
}

pub open spec fn compact_window(width: u32) -> bool {
    width < 700
}

/// Narrow windows get short labels; the review button appears from 720
/// pixels on, with its long label from 980 pixels on.
pub fn workspace_labels(window_width: u32) -> (r: WorkspaceLabels)
    ensures
        r.provinces@ == (if compact_window(window_width) { "Provinces"@ } else { "Workspace: Provinces"@ }),
        r.review is Some <==> window_width >= 720,
        r.review matches Some(t) ==> t@ == (if window_width < 980 { "Review"@ } else { "Review Changes"@ }),
        r.map_placeholder@ == (if compact_window(window_width) {
            "Map             "@
        } else {
            "Map View: Coastal Provinces   "@
        }),
        r.layers_placeholder@ == (if compact_window(window_width) {
            "Layers          "@
        } else {
            "Overlays: Province Borders, State Borders   "@
        }),
{
    let compact = window_width < 700;
    WorkspaceLabels {
        provinces: if compact { "Provinces" } else { "Workspace: Provinces" },
        review: if window_width >= 720 {
            Some(if window_width < 980 { "Review" } else { "Review Changes" })
        } else {
            None
        },
        map_placeholder: if compact { "Map             " } else { "Map View: Coastal Provinces   " },
        layers_placeholder: if compact {
            "Layers          "
        } else {
            "Overlays: Province Borders, State Borders   "
        },
    }
}

/// The measured sizes of the texts of the bars: the height of a bar button
/// and of a drop-down entry, the widths of the main menu headers in order,
/// and the widths of the workspace bar's labels as `workspace_labels` chose
/// them (the review width is ignored where there is no review button).
#[derive(Debug, Clone, PartialEq, Eq)]
pub struct BarMeasures {
    pub button_height: u32,
    pub entry_height: u32,
    pub menu_widths: Vec<u32>,
    pub provinces_width: u32,
    pub states_width: u32,
    pub apply_width: u32,
    pub review_width: u32,
    pub map_width: u32,
    pub layers_width: u32,
}

/// Where everything goes.
#[derive(Debug, Clone, PartialEq, Eq)]
pub struct InterfaceLayout {
    pub menus: Vec<Rect>,
    pub workspace_buttons: Vec<(ButtonId, Rect)>,
    /// The workspace drop-downs: whether it is the map view selector, and
    /// its header.
    pub dropdowns: Vec<(bool, Rect)>,
    pub toolbar_height: u32,
    pub tools: Vec<(ButtonId, Rect)>,
    pub state_tools: Vec<(ButtonId, Rect)>,
    pub options: Vec<(ButtonId, Rect)>,
    pub sidebar_width: u32,
}

/// The sum of the first `n` widths.
pub open spec fn width_sum(ws: Seq<u32>, n: int) -> int
    decreases n,
{
    if n <= 0 || n > ws.len() {
        0
    } else {
        width_sum(ws, n - 1) + ws[n - 1]
    }
}

/// The main menu headers, side by side from the left edge.
pub open spec fn menu_rects(ws: Seq<u32>, height: u32) -> Seq<Rect> {
    Seq::new(ws.len(), |i: int| Rect { x: width_sum(ws, i) as u32, y: 0, w: ws[i], h: height })
}

/// Entry `k` of a drop-down whose header is `header`: stacked below it.
pub open spec fn entry_rect_spec(header: Rect, k: int, entry_height: u32) -> Rect {
    Rect {
        x: header.x,
        y: (header.y + header.h + k * entry_height) as u32,
        w: DROPDOWN_WIDTH,
        h: entry_height,
    }
}

/// The sidebar tools of the province workspace, of the state workspace, and
/// its options, in order.
pub open spec fn province_tool_ids() -> Seq<ButtonId> {
    seq![ButtonId::SidebarToolPaintArea, ButtonId::SidebarToolPaintBucket, ButtonId::SidebarToolLasso]
}

pub open spec fn state_tool_ids() -> Seq<ButtonId> {
    seq![
        ButtonId::SidebarStateSelect,
        ButtonId::SidebarStatePan,
        ButtonId::SidebarStateLasso,
        ButtonId::SidebarStateBrush,
        ButtonId::SidebarStateFill,
    ]
}

pub open spec fn option_ids() -> Seq<ButtonId> {
    seq![
        ButtonId::SidebarOptionRiverOverlay,
        ButtonId::SidebarOptionAdjacencies,
        ButtonId::SidebarOptionProvinceIds,
        ButtonId::SidebarOptionProvinceBoundaries,
        ButtonId::SidebarOptionStateBoundaries,
        ButtonId::SidebarOptionImageOverlay,
    ]
}

/// Buttons stacked downwards from `top`.
pub open spec fn stacked_down(ids: Seq<ButtonId>, top: u32) -> Seq<(ButtonId, Rect)> {
    Seq::new(
        ids.len(),
        |i: int| (ids[i], Rect { x: 0, y: (top + i * 32) as u32, w: 32, h: 32 }),
    )
}

/// Buttons stacked upwards from the bottom edge at `bottom`.
pub open spec fn stacked_up(ids: Seq<ButtonId>, bottom: u32) -> Seq<(ButtonId, Rect)> {
    Seq::new(
        ids.len(),
        |i: int| (ids[i], Rect { x: 0, y: (bottom - (i + 1) * 32) as u32, w: 32, h: 32 }),
    )
}

/// The measures fit in the window's arithmetic.
pub open spec fn measures_fit(window: [u32; 2], m: BarMeasures) -> bool {
    &&& width_sum(m.menu_widths@, m.menu_widths@.len() as int) <= u32::MAX
    &&& m.provinces_width + m.states_width + m.map_width <= u32::MAX
    &&& 2 * m.button_height + 5 * 32 <= u32::MAX
    &&& window[1] >= 6 * 32
}

/// The layout: the main menu headers on the top row; below them the
/// workspace bar with the two workspace buttons from the left, the apply
/// button and, where there is one, the review button from the right, and
/// the map view and overlays drop-downs after the workspace buttons (the
/// overlays drop-down only where it does not reach the action buttons);
/// the province and state tools stacked down the sidebar under both bars,
/// the options stacked up from the bottom edge.
pub open spec fn layout_spec(window: [u32; 2], labels: WorkspaceLabels, m: BarMeasures) -> (
    Seq<Rect>,
    Seq<(ButtonId, Rect)>,
    Seq<(bool, Rect)>,
    u32,
    Seq<(ButtonId, Rect)>,
    Seq<(ButtonId, Rect)>,
    Seq<(ButtonId, Rect)>,
    u32,
) {
    let bh = m.button_height;
    let menu_height: u32 = if m.menu_widths@.len() > 0 { bh } else { 0 };
    let apply_x = if window[0] >= m.apply_width { (window[0] - m.apply_width) as u32 } else { 0 };
    let action_x = match labels.review {
        Some(_) => if apply_x >= m.review_width { (apply_x - m.review_width) as u32 } else { 0 },
        None => apply_x,
    };
    let row = menu_height;
    let left = seq![
        (ButtonId::WorkspaceProvinces, Rect { x: 0, y: row, w: m.provinces_width, h: bh }),
        (ButtonId::WorkspaceStates, Rect { x: m.provinces_width, y: row, w: m.states_width, h: bh }),
        (ButtonId::WorkspaceApplyToMod, Rect { x: apply_x, y: row, w: m.apply_width, h: bh }),
    ];
    let buttons = match labels.review {
        Some(_) => left.push(
            (ButtonId::WorkspaceReviewChanges, Rect { x: action_x, y: row, w: m.review_width, h: bh }),
        ),
        None => left,
    };
    let map_x = m.provinces_width + m.states_width;
    let layers_x = map_x + m.map_width;
    let map = (true, Rect { x: map_x as u32, y: row, w: m.map_width, h: bh });
    let layers_end = if layers_x + m.layers_width > u32::MAX { u32::MAX as int } else { layers_x + m.layers_width };
    let dropdowns = if layers_end > action_x {
        seq![map]
    } else {
        seq![map, (false, Rect { x: layers_x as u32, y: row, w: m.layers_width, h: bh })]
    };
    let toolbar_height = (menu_height + menu_height) as u32;
    (
        menu_rects(m.menu_widths@, bh),
        buttons,
        dropdowns,
        toolbar_height,
        stacked_down(province_tool_ids(), toolbar_height),
        stacked_down(state_tool_ids(), toolbar_height),
        stacked_up(option_ids(), window[1]),
        32,
    )
}

pub open spec fn layout_view(l: InterfaceLayout) -> (
    Seq<Rect>,
    Seq<(ButtonId, Rect)>,
    Seq<(bool, Rect)>,
    u32,
    Seq<(ButtonId, Rect)>,
    Seq<(ButtonId, Rect)>,
    Seq<(ButtonId, Rect)>,
    u32,
) {
    (l.menus@, l.workspace_buttons@, l.dropdowns@, l.toolbar_height, l.tools@, l.state_tools@, l.options@, l.sidebar_width)
}

/// Entry `k` of a drop-down below its header.
pub fn entry_rect(header: Rect, k: u32, entry_height: u32) -> (r: Rect)
    requires
        header.y + header.h + k * entry_height <= u32::MAX,
    ensures
        r == entry_rect_spec(header, k as int, entry_height),
{
    Rect { x: header.x, y: header.y + header.h + k * entry_height, w: DROPDOWN_WIDTH, h: entry_height }
}

fn menu_row(widths: &Vec<u32>, height: u32) -> (r: Vec<Rect>)
    requires
        width_sum(widths@, widths@.len() as int) <= u32::MAX,
    ensures
        r@ == menu_rects(widths@, height),
{
    let mut out: Vec<Rect> = Vec::new();
    let mut x: u32 = 0;
    let mut i: usize = 0;
    while i < widths.len()
        invariant
            i <= widths@.len(),
            width_sum(widths@, widths@.len() as int) <= u32::MAX,
            x == width_sum(widths@, i as int),
            out@ == menu_rects(widths@, height).take(i as int),
        decreases widths@.len() - i,
    {
        proof {
            lemma_width_sum_grows(widths@, i as int + 1, widths@.len() as int);
        }
        out.push(Rect { x, y: 0, w: widths[i], h: height });
        x = x + widths[i];
        i = i + 1;
        proof {
            assert(out@ =~= menu_rects(widths@, height).take(i as int));
        }
    }
    proof {
        assert(out@ =~= menu_rects(widths@, height));
    }
    out
}

proof fn lemma_width_sum_grows(ws: Seq<u32>, a: int, b: int)
    requires
        0 <= a <= b <= ws.len(),
    ensures
        width_sum(ws, a) <= width_sum(ws, b),
        width_sum(ws, a) >= 0,
    decreases b - a,
{
    if a < b {
        lemma_width_sum_grows(ws, a, b - 1);
    }
    lemma_width_sum_nonnegative(ws, a);
}

proof fn lemma_width_sum_nonnegative(ws: Seq<u32>, n: int)
    ensures
        width_sum(ws, n) >= 0,
    decreases n,
{
    if n > 0 && n <= ws.len() {
        lemma_width_sum_nonnegative(ws, n - 1);
    }
}

fn stack_down(ids: &Vec<ButtonId>, top: u32) -> (r: Vec<(ButtonId, Rect)>)
    requires
        top + ids@.len() * 32 <= u32::MAX,
    ensures
        r@ == stacked_down(ids@, top),
{
    let mut out: Vec<(ButtonId, Rect)> = Vec::new();
    let mut y: u32 = top;
    let mut i: usize = 0;
    while i < ids.len()
        invariant
            i <= ids@.len(),
            top + ids@.len() * 32 <= u32::MAX,
            y == top + i * 32,
            out@ == stacked_down(ids@, top).take(i as int),
        decreases ids@.len() - i,
    {
        out.push((ids[i], Rect { x: 0, y, w: SIDEBAR_BUTTON_SIZE, h: SIDEBAR_BUTTON_SIZE }));
        proof {
            assert(top + (i + 1) * 32 <= top + ids@.len() * 32) by (nonlinear_arith)
                requires i + 1 <= ids@.len();
        }
        y = y + SIDEBAR_BUTTON_SIZE;
        i = i + 1;
        proof {
            assert(out@ =~= stacked_down(ids@, top).take(i as int));
        }
    }
    proof {
        assert(out@ =~= stacked_down(ids@, top));
    }
    out
}

fn stack_up(ids: &Vec<ButtonId>, bottom: u32) -> (r: Vec<(ButtonId, Rect)>)
    requires
        bottom >= ids@.len() * 32,
    ensures
        r@ == stacked_up(ids@, bottom),
{
    let mut out: Vec<(ButtonId, Rect)> = Vec::new();
    let mut y: u32 = bottom;
    let mut i: usize = 0;
    while i < ids.len()
        invariant
            i <= ids@.len(),
            bottom >= ids@.len() * 32,
            y == bottom - i * 32,
            out@ == stacked_up(ids@, bottom).take(i as int),
        decreases ids@.len() - i,
    {
        proof {
            assert((i + 1) * 32 <= ids@.len() * 32) by (nonlinear_arith)
                requires i + 1 <= ids@.len();
        }
        y = y - SIDEBAR_BUTTON_SIZE;
        out.push((ids[i], Rect { x: 0, y, w: SIDEBAR_BUTTON_SIZE, h: SIDEBAR_BUTTON_SIZE }));
        i = i + 1;
        proof {
            assert(out@ =~= stacked_up(ids@, bottom).take(i as int));
        }
    }
    proof {
        assert(out@ =~= stacked_up(ids@, bottom));
    }
    out
}

fn ids_of(ids: Ghost<Seq<ButtonId>>, items: &[ButtonId]) -> (r: Vec<ButtonId>)
    requires
        items@ == ids@,
    ensures
        r@ == ids@,
{
    let mut out: Vec<ButtonId> = Vec::new();
    let mut i: usize = 0;
    while i < items.len()
        invariant
            i <= items@.len(),
            out@ == items@.take(i as int),
        decreases items@.len() - i,
    {
        out.push(items[i]);
        i = i + 1;
        proof {
            assert(out@ =~= items@.take(i as int));
        }
    }
    proof {
        assert(out@ =~= items@);
    }
    out
}

/// Lays the interface out in a window of `window` pixels, with the labels
/// that `workspace_labels` chose for its width and their measured sizes.
pub fn interface_layout(window: [u32; 2], labels: WorkspaceLabels, m: &BarMeasures) -> (r: InterfaceLayout)
    requires
        measures_fit(window, *m),
    ensures
        layout_view(r) == layout_spec(window, labels, *m),
{
    let bh = m.button_height;
    let menu_height: u32 = if m.menu_widths.len() > 0 { bh } else { 0 };
    let menus = menu_row(&m.menu_widths, bh);
    let apply_x = window[0].saturating_sub(m.apply_width);
    let action_x = match labels.review {
        Some(_) => apply_x.saturating_sub(m.review_width),
        None => apply_x,
    };
    let row = menu_height;
    let mut buttons: Vec<(ButtonId, Rect)> = Vec::new();
    buttons.push((ButtonId::WorkspaceProvinces, Rect { x: 0, y: row, w: m.provinces_width, h: bh }));
    buttons.push((ButtonId::WorkspaceStates, Rect { x: m.provinces_width, y: row, w: m.states_width, h: bh }));
    buttons.push((ButtonId::WorkspaceApplyToMod, Rect { x: apply_x, y: row, w: m.apply_width, h: bh }));
    match labels.review {
        Some(_) => {
            buttons.push((ButtonId::WorkspaceReviewChanges, Rect { x: action_x, y: row, w: m.review_width, h: bh }));
        },
        None => {},
    }
    let map_x = m.provinces_width + m.states_width;
    let layers_x = map_x + m.map_width;
    let mut dropdowns: Vec<(bool, Rect)> = Vec::new();
    dropdowns.push((true, Rect { x: map_x, y: row, w: m.map_width, h: bh }));
    if layers_x.saturating_add(m.layers_width) <= action_x {
        dropdowns.push((false, Rect { x: layers_x, y: row, w: m.layers_width, h: bh }));
    }
    let toolbar_height = menu_height + menu_height;
    let province_tools = ids_of(
        Ghost(province_tool_ids()),
        &[ButtonId::SidebarToolPaintArea, ButtonId::SidebarToolPaintBucket, ButtonId::SidebarToolLasso],
    );
    let state_tools = ids_of(
        Ghost(state_tool_ids()),
        &[
            ButtonId::SidebarStateSelect,
            ButtonId::SidebarStatePan,
            ButtonId::SidebarStateLasso,
            ButtonId::SidebarStateBrush,
            ButtonId::SidebarStateFill,
        ],
    );
    let options = ids_of(
        Ghost(option_ids()),
        &[
            ButtonId::SidebarOptionRiverOverlay,
            ButtonId::SidebarOptionAdjacencies,
            ButtonId::SidebarOptionProvinceIds,
            ButtonId::SidebarOptionProvinceBoundaries,
            ButtonId::SidebarOptionStateBoundaries,
            ButtonId::SidebarOptionImageOverlay,
        ],
    );
    let layout = InterfaceLayout {
        menus,
        workspace_buttons: buttons,
        dropdowns,
        toolbar_height,
        tools: stack_down(&province_tools, toolbar_height),
        state_tools: stack_down(&state_tools, toolbar_height),
        options: stack_up(&options, window[1]),
        sidebar_width: SIDEBAR_BUTTON_SIZE,
    };
    proof {
        let s = layout_spec(window, labels, *m);
        assert(layout.workspace_buttons@ =~= s.1);
        assert(layout.dropdowns@ =~= s.2);
    }
    layout
}

} // verus!
