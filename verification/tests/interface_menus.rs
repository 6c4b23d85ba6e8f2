use hoi4_editor::interface::{tool_button_state, ToolButtonState, ViewMode};
use hoi4_editor::interface::{
    button_visible, map_view_button_active, overlay_button_active, overlay_summary, ButtonId,
    InterfaceDrawContext, MapViewMode, StateActionAvailability,
};

fn context(state_view: bool) -> InterfaceDrawContext {
    InterfaceDrawContext {
        view_mode: None,
        selected_tool: None,
        state_tool: None,
        map_view_mode: Some(MapViewMode::ProvinceColors),
        enabled_options: [false; 6],
        available_options: [true; 6],
        states_available: true,
        state_actions: StateActionAvailability { state_view, ..Default::default() },
        blocks_tooltips: false,
    }
}

#[test]
fn map_view_menu_marks_only_the_current_canonical_view() {
    assert!(map_view_button_active(ButtonId::ToolbarViewMode1, Some(MapViewMode::ProvinceColors)));
    assert!(map_view_button_active(ButtonId::ToolbarViewStateMap, Some(MapViewMode::States)));
    assert!(map_view_button_active(ButtonId::ToolbarViewPoliticalMap, Some(MapViewMode::Political)));
    assert!(!map_view_button_active(ButtonId::ToolbarViewMode1, Some(MapViewMode::States)));
    assert!(!map_view_button_active(ButtonId::ToolbarViewMode2, Some(MapViewMode::ProvinceColors)));
}

#[test]
fn view_menu_reflects_independent_overlay_states() {
    let enabled = [true, false, true, false, true, true];
    assert!(overlay_button_active(ButtonId::ToolbarViewToggleRiverOverlay, enabled));
    assert!(!overlay_button_active(ButtonId::ToolbarViewToggleAdjacencies, enabled));
    assert!(overlay_button_active(ButtonId::ToolbarViewToggleImageOverlay, enabled));
    assert!(overlay_button_active(ButtonId::ToolbarImageToggleVisible, enabled));
}

#[test]
fn edit_and_tool_entries_follow_the_active_workspace_and_tool() {
    let provinces = context(false);
    assert!(!button_visible(ButtonId::ToolbarEditNewState, provinces));
    assert!(button_visible(ButtonId::ToolbarEditCoastal, provinces));

    let mut states = context(true);
    assert!(button_visible(ButtonId::ToolbarEditNewState, states));
    assert!(!button_visible(ButtonId::ToolbarEditCoastal, states));
    assert!(!button_visible(ButtonId::ToolbarEditToggleLassoSnap, states));
    states.state_actions.lasso_active = true;
    assert!(button_visible(ButtonId::ToolbarEditToggleLassoSnap, states));
}

#[test]
fn compact_overlay_summary_lists_only_enabled_layers() {
    assert_eq!(overlay_summary([true, false, false, false, true, false]), "Rivers, State Borders");
    assert_eq!(overlay_summary([false; 6]), "None");
}

#[test]
fn map_view_menu_ignores_missing_view() {
    assert!(!map_view_button_active(ButtonId::ToolbarViewMode1, None));
}

#[test]
fn sidebar_tools_follow_the_canvas_and_workspace() {
    let mut ictx = context(false);
    ictx.view_mode = Some(ViewMode::Color);
    ictx.selected_tool = Some(1);
    assert_eq!(tool_button_state(ictx, 1), ToolButtonState::Shown { active: true });
    assert_eq!(tool_button_state(ictx, 2), ToolButtonState::Shown { active: false });
    ictx.view_mode = Some(ViewMode::Terrain);
    assert_eq!(tool_button_state(ictx, 0), ToolButtonState::Shown { active: true });
    assert_eq!(tool_button_state(ictx, 1), ToolButtonState::Hidden);
    ictx.view_mode = Some(ViewMode::Coastal);
    assert_eq!(tool_button_state(ictx, 0), ToolButtonState::Hidden);
    let mut states = context(true);
    states.state_tool = Some(2);
    assert_eq!(tool_button_state(states, 2), ToolButtonState::Shown { active: true });
    assert_eq!(tool_button_state(states, 0), ToolButtonState::Shown { active: false });
}
