//! What a mouse click on the interface does: which drop-down menus open or
//! close, which button is pressed, and whether the click falls through to
//! the map. Where the pointer is, and which element lies under it, is
//! measured by the caller and handed in as a `ClickHit`.
use vstd::prelude::*;
use crate::interface::{ButtonId, InterfaceDrawContext, button_enabled_spec};

verus! {

/// Which drop-down menus are open: the main toolbar menus and the
/// workspace bar's drop-downs, each in order.
#[derive(Debug, Clone, PartialEq, Eq)]
pub struct MenuState {
    pub toolbar: Vec<bool>,
    pub workspace: Vec<bool>,
}

/// What lies under the pointer. A menu header or button is the first one
/// that contains the pointer; `toolbar_entries[i]` is the first visible entry
/// of toolbar menu `i` under the pointer, and likewise for the workspace
/// drop-downs; `option_button` carries the option's position in the sidebar.
#[derive(Debug, Clone, PartialEq, Eq)]
pub struct ClickHit {
    pub toolbar_menu: Option<usize>,
    pub workspace_menu: Option<usize>,
    pub toolbar_entries: Vec<Option<ButtonId>>,
    pub workspace_entries: Vec<Option<ButtonId>>,
    pub workspace_button: Option<ButtonId>,
    pub tool_button: Option<ButtonId>,
    pub state_tool_button: Option<ButtonId>,
    pub option_button: Option<(usize, ButtonId)>,
    pub over_bars: bool,
}

impl MenuState {
    /// All menus closed.
    pub fn new(toolbar_menus: usize, workspace_menus: usize) -> (r: Self)
        ensures
            r.toolbar@ == closed_menus(toolbar_menus as nat),
            r.workspace@ == closed_menus(workspace_menus as nat),
    {
        MenuState { toolbar: closed_vec(toolbar_menus), workspace: closed_vec(workspace_menus) }
    }
}

/// The hit fits the menus: one entry per menu, and a hit header or option
/// exists.
pub open spec fn hit_fits(tb: Seq<bool>, ws: Seq<bool>, hit: ClickHit) -> bool {
    &&& hit.toolbar_entries@.len() == tb.len()
    &&& hit.workspace_entries@.len() == ws.len()
    &&& (hit.toolbar_menu matches Some(i) ==> i < tb.len())
    &&& (hit.workspace_menu matches Some(j) ==> j < ws.len())
    &&& (hit.option_button matches Some((k, _)) ==> k < 6)
}

pub open spec fn any_open(m: Seq<bool>) -> bool {
    exists|i: int| 0 <= i < m.len() && m[i]
}

pub open spec fn closed_menus(n: nat) -> Seq<bool> {
    Seq::new(n, |i: int| false)
}

/// The first entry under the pointer among the open menus of `open`,
/// looking from position `i` on.
pub open spec fn first_open_entry(open: Seq<bool>, entries: Seq<Option<ButtonId>>, i: int) -> Option<ButtonId>
    decreases open.len() - i,
{
    if i < 0 || i >= open.len() {
        None
    } else if open[i] && i < entries.len() && entries[i] is Some {
        entries[i]
    } else {
        first_open_entry(open, entries, i + 1)
    }
}

/// A workspace bar button can be pressed: the state workspace where states
/// are available, review and apply in the state workspace, the rest always.
pub open spec fn workspace_button_enabled(id: ButtonId, ictx: InterfaceDrawContext) -> bool {
    match id {
        ButtonId::WorkspaceStates => ictx.states_available,
        ButtonId::WorkspaceReviewChanges | ButtonId::WorkspaceApplyToMod => ictx.state_actions.state_view,
        _ => true,
    }
}

pub open spec fn pressed_if(enabled: bool, id: ButtonId) -> Result<ButtonId, bool> {
    if enabled {
        Ok(id)
    } else {
        Err(false)
    }
}

/// What a click does, as the menus after it and the answer: `Ok` with the
/// pressed button, or `Err` with whether the click falls through to the map.
///
/// While a menu is open, a click on a menu header opens that menu alone (or
/// closes it, where it was the open one), and any other click closes every
/// menu and presses the entry under it, if it is enabled. Otherwise the
/// workspace buttons, the workspace drop-down headers, the sidebar tools of
/// the current workspace, the sidebar options and the toolbar headers are
/// tried in turn; a click on none of them falls through unless it is over
/// the toolbar or the sidebar.
pub open spec fn click_spec(tb: Seq<bool>, ws: Seq<bool>, hit: ClickHit, ictx: InterfaceDrawContext) -> (
    Seq<bool>,
    Seq<bool>,
    Result<ButtonId, bool>,
) {
    if any_open(tb) || any_open(ws) {
        let ctb = closed_menus(tb.len());
        let cws = closed_menus(ws.len());
        match hit.toolbar_menu {
            Some(i) => (ctb.update(i as int, !tb[i as int]), cws, Err(false)),
            None => match hit.workspace_menu {
                Some(j) => (ctb, cws.update(j as int, !ws[j as int]), Err(false)),
                None => {
                    let clicked = match first_open_entry(tb, hit.toolbar_entries@, 0) {
                        Some(id) => Some(id),
                        None => first_open_entry(ws, hit.workspace_entries@, 0),
                    };
                    (
                        ctb,
                        cws,
                        match clicked {
                            Some(id) => pressed_if(button_enabled_spec(ictx.state_actions, id), id),
                            None => Err(false),
                        },
                    )
                },
            },
        }
    } else {
        match hit.workspace_button {
            Some(id) => (tb, ws, pressed_if(workspace_button_enabled(id, ictx), id)),
            None => match hit.workspace_menu {
                Some(j) => (tb, ws.update(j as int, !ws[j as int]), Err(false)),
                None => {
                    let tool = if ictx.state_actions.state_view {
                        hit.state_tool_button
                    } else {
                        hit.tool_button
                    };
                    match tool {
                        Some(id) => (tb, ws, Ok(id)),
                        None => match hit.option_button {
                            Some((k, id)) => (tb, ws, pressed_if(ictx.available_options[k as int], id)),
                            None => match hit.toolbar_menu {
                                Some(i) => (tb.update(i as int, !tb[i as int]), ws, Err(false)),
                                None => (tb, ws, Err(!hit.over_bars)),
                            },
                        },
                    }
                },
            },
        }
    }
}

fn closed_vec(n: usize) -> (r: Vec<bool>)
    ensures
        r@ == closed_menus(n as nat),
{
    let mut v: Vec<bool> = Vec::new();
    let mut i: usize = 0;
    while i < n
        invariant
            i <= n,
            v@ == closed_menus(i as nat),
        decreases n - i,
    {
        v.push(false);
        i = i + 1;
        proof {
            assert(v@ =~= closed_menus(i as nat));
        }
    }
    v
}

fn has_open(m: &Vec<bool>) -> (r: bool)
    ensures
        r == any_open(m@),
{
    let mut i: usize = 0;
    while i < m.len()
        invariant
            i <= m@.len(),
            forall|k: int| 0 <= k < i ==> !m@[k],
        decreases m@.len() - i,
    {
        if m[i] {
            return true;
        }
        i = i + 1;
    }
    false
}

fn find_open_entry(open: &Vec<bool>, entries: &Vec<Option<ButtonId>>) -> (r: Option<ButtonId>)
    ensures
        r == first_open_entry(open@, entries@, 0),
{
    let mut i: usize = 0;
    while i < open.len()
        invariant
            i <= open@.len(),
            first_open_entry(open@, entries@, 0) == first_open_entry(open@, entries@, i as int),
        decreases open@.len() - i,
    {
        if open[i] && i < entries.len() {
            match entries[i] {
                Some(id) => {
                    return Some(id);
                },
                None => {},
            }
        }
        i = i + 1;
    }
    None
}

fn workspace_button_usable(id: ButtonId, ictx: InterfaceDrawContext) -> (r: bool)
    ensures
        r == workspace_button_enabled(id, ictx),
{
    match id {
        ButtonId::WorkspaceStates => ictx.states_available,
        ButtonId::WorkspaceReviewChanges | ButtonId::WorkspaceApplyToMod => ictx.state_actions.state_view,
        _ => true,
    }
}

fn pressed(enabled: bool, id: ButtonId) -> (r: Result<ButtonId, bool>)
    ensures
        r == pressed_if(enabled, id),
{
    if enabled {
        Ok(id)
    } else {
        Err(false)
    }
}

/// Acts on a click: opens or closes menus and answers `Ok` with the pressed
/// button, or `Err` with whether the click falls through to the map.
pub fn on_mouse_click(menus: &mut MenuState, hit: &ClickHit, ictx: InterfaceDrawContext) -> (r: Result<ButtonId, bool>)
    requires
        hit_fits(old(menus).toolbar@, old(menus).workspace@, *hit),
    ensures
        (final(menus).toolbar@, final(menus).workspace@, r) == click_spec(
            old(menus).toolbar@,
            old(menus).workspace@,
            *hit,
            ictx,
        ),
{
    if has_open(&menus.toolbar) || has_open(&menus.workspace) {
        let clicked = match find_open_entry(&menus.toolbar, &hit.toolbar_entries) {
            Some(id) => Some(id),
            None => find_open_entry(&menus.workspace, &hit.workspace_entries),
        };
        let tb_len = menus.toolbar.len();
        let ws_len = menus.workspace.len();
        let mut tb = closed_vec(tb_len);
        let mut ws = closed_vec(ws_len);
        match hit.toolbar_menu {
            Some(i) => {
                let enable = !menus.toolbar[i];
                tb.set(i, enable);
                menus.toolbar = tb;
                menus.workspace = ws;
                return Err(false);
            },
            None => {},
        }
        match hit.workspace_menu {
            Some(j) => {
                let enable = !menus.workspace[j];
                ws.set(j, enable);
                menus.toolbar = tb;
                menus.workspace = ws;
                return Err(false);
            },
            None => {},
        }
        menus.toolbar = tb;
        menus.workspace = ws;
        return match clicked {
            Some(id) => pressed(ictx.state_actions.button_enabled(id), id),
            None => Err(false),
        };
    }
    match hit.workspace_button {
        Some(id) => {
            return pressed(workspace_button_usable(id, ictx), id);
        },
        None => {},
    }
    match hit.workspace_menu {
        Some(j) => {
            let enable = !menus.workspace[j];
            menus.workspace.set(j, enable);
            return Err(false);
        },
        None => {},
    }
    let tool = if ictx.state_actions.state_view {
        hit.state_tool_button
    } else {
        hit.tool_button
    };
    match tool {
        Some(id) => {
            return Ok(id);
        },
        None => {},
    }
    match hit.option_button {
        Some((k, id)) => {
            return pressed(ictx.available_options[k], id);
        },
        None => {},
    }
    match hit.toolbar_menu {
        Some(i) => {
            let enable = !menus.toolbar[i];
            menus.toolbar.set(i, enable);
            Err(false)
        },
        None => Err(!hit.over_bars),
    }
}

/// While a menu is open, a click leaves at most one menu open, and that only
/// where it was on a menu header.
pub proof fn lemma_open_menu_click_leaves_one(tb: Seq<bool>, ws: Seq<bool>, hit: ClickHit, ictx: InterfaceDrawContext)
    requires
        hit_fits(tb, ws, hit),
        any_open(tb) || any_open(ws),
    ensures
        ({
            let (ntb, nws, r) = click_spec(tb, ws, hit, ictx);
            &&& ntb.len() == tb.len()
            &&& nws.len() == ws.len()
            &&& forall|i: int, j: int| 0 <= i < ntb.len() && 0 <= j < ntb.len() && ntb[i] && ntb[j] ==> i == j
            &&& forall|i: int, j: int| 0 <= i < nws.len() && 0 <= j < nws.len() && nws[i] && nws[j] ==> i == j
            &&& !(any_open(ntb) && any_open(nws))
            &&& (hit.toolbar_menu is None && hit.workspace_menu is None ==> !any_open(ntb) && !any_open(nws))
        }),
{
}

/// A pressed toolbar entry is always one that can be used (so Remove State
/// is pressed only where a state can be removed), and an entry under the
/// pointer in an open toolbar menu is pressed exactly when it can be used;
/// a click that presses nothing never opens a menu unless it was on a menu
/// header.
pub proof fn lemma_pressed_entries_are_enabled(tb: Seq<bool>, ws: Seq<bool>, hit: ClickHit, ictx: InterfaceDrawContext)
    requires
        hit_fits(tb, ws, hit),
        any_open(tb) || any_open(ws),
        hit.toolbar_menu is None,
        hit.workspace_menu is None,
    ensures
        click_spec(tb, ws, hit, ictx).2 matches Ok(id) ==> button_enabled_spec(ictx.state_actions, id),
        click_spec(tb, ws, hit, ictx).2 is Err ==> click_spec(tb, ws, hit, ictx).2 == Err::<ButtonId, bool>(false),
        click_spec(tb, ws, hit, ictx).2 == Ok::<ButtonId, bool>(ButtonId::ToolbarEditRemoveState)
            ==> ictx.state_actions.can_remove_state && ictx.state_actions.state_view
            && !ictx.state_actions.property_editor_open,
        first_open_entry(tb, hit.toolbar_entries@, 0) matches Some(id) ==> click_spec(tb, ws, hit, ictx).2 == (if button_enabled_spec(ictx.state_actions, id) {
            Ok::<ButtonId, bool>(id)
        } else {
            Err(false)
        }),
{
}

} // verus!
