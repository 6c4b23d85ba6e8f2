use hoi4_editor::interface::{ButtonId, InterfaceDrawContext, MapViewMode, StateActionAvailability};
use hoi4_editor::menus::{on_mouse_click, ClickHit, MenuState};

fn ictx(state_view: bool) -> InterfaceDrawContext {
    InterfaceDrawContext {
        view_mode: None,
        selected_tool: None,
        state_tool: None,
        map_view_mode: Some(MapViewMode::ProvinceColors),
        enabled_options: [false; 6],
        available_options: [true, false, true, true, true, true],
        states_available: false,
        state_actions: StateActionAvailability { state_view, can_undo: true, ..Default::default() },
        blocks_tooltips: false,
    }
}

fn nothing() -> ClickHit {
    ClickHit {
        toolbar_menu: None,
        workspace_menu: None,
        toolbar_entries: vec![None; 5],
        workspace_entries: vec![None; 2],
        workspace_button: None,
        tool_button: None,
        state_tool_button: None,
        option_button: None,
        over_bars: false,
    }
}

#[test]
fn header_click_opens_and_closes_a_menu() {
    let mut menus = MenuState::new(5, 2);
    let hit = ClickHit { toolbar_menu: Some(1), ..nothing() };
    assert_eq!(on_mouse_click(&mut menus, &hit, ictx(false)), Err(false));
    assert_eq!(menus.toolbar, vec![false, true, false, false, false]);
    let other = ClickHit { workspace_menu: Some(0), ..nothing() };
    assert_eq!(on_mouse_click(&mut menus, &other, ictx(false)), Err(false));
    assert_eq!(menus.toolbar, vec![false; 5]);
    assert_eq!(menus.workspace, vec![true, false]);
    assert_eq!(on_mouse_click(&mut menus, &other, ictx(false)), Err(false));
    assert_eq!(menus.workspace, vec![false, false]);
}

#[test]
fn entry_click_presses_enabled_entries_and_closes_menus() {
    let mut menus = MenuState::new(5, 2);
    menus.toolbar[1] = true;
    let mut hit = nothing();
    hit.toolbar_entries[1] = Some(ButtonId::ToolbarEditUndo);
    assert_eq!(on_mouse_click(&mut menus, &hit, ictx(false)), Ok(ButtonId::ToolbarEditUndo));
    assert_eq!(menus.toolbar, vec![false; 5]);
    menus.toolbar[1] = true;
    hit.toolbar_entries[1] = Some(ButtonId::ToolbarEditRedo);
    assert_eq!(on_mouse_click(&mut menus, &hit, ictx(false)), Err(false));
    assert_eq!(menus.toolbar, vec![false; 5]);
}

#[test]
fn closed_menus_try_buttons_tools_and_options() {
    let mut menus = MenuState::new(5, 2);
    let states = ClickHit { workspace_button: Some(ButtonId::WorkspaceStates), ..nothing() };
    assert_eq!(on_mouse_click(&mut menus, &states, ictx(false)), Err(false));
    let provinces = ClickHit { workspace_button: Some(ButtonId::WorkspaceProvinces), ..nothing() };
    assert_eq!(on_mouse_click(&mut menus, &provinces, ictx(false)), Ok(ButtonId::WorkspaceProvinces));
    let tools = ClickHit {
        tool_button: Some(ButtonId::ToolbarFileSave),
        state_tool_button: Some(ButtonId::ToolbarEditUndo),
        ..nothing()
    };
    assert_eq!(on_mouse_click(&mut menus, &tools, ictx(false)), Ok(ButtonId::ToolbarFileSave));
    assert_eq!(on_mouse_click(&mut menus, &tools, ictx(true)), Ok(ButtonId::ToolbarEditUndo));
    let unavailable = ClickHit { option_button: Some((1, ButtonId::ToolbarFileReveal)), ..nothing() };
    assert_eq!(on_mouse_click(&mut menus, &unavailable, ictx(false)), Err(false));
    let available = ClickHit { option_button: Some((2, ButtonId::ToolbarFileReveal)), ..nothing() };
    assert_eq!(on_mouse_click(&mut menus, &available, ictx(false)), Ok(ButtonId::ToolbarFileReveal));
}

#[test]
fn clicks_fall_through_outside_the_bars() {
    let mut menus = MenuState::new(5, 2);
    assert_eq!(on_mouse_click(&mut menus, &nothing(), ictx(false)), Err(true));
    let bars = ClickHit { over_bars: true, ..nothing() };
    assert_eq!(on_mouse_click(&mut menus, &bars, ictx(false)), Err(false));
}
