use hoi4_editor::interface::ButtonId;
use hoi4_editor::layout::{entry_rect, interface_layout, workspace_labels, BarMeasures, Rect};

fn measures() -> BarMeasures {
    BarMeasures {
        button_height: 24,
        entry_height: 22,
        menu_widths: vec![40, 40, 44, 48, 44],
        provinces_width: 150,
        states_width: 60,
        apply_width: 100,
        review_width: 120,
        map_width: 230,
        layers_width: 300,
    }
}

#[test]
fn labels_follow_the_window_width() {
    let narrow = workspace_labels(650);
    assert_eq!(narrow.provinces, "Provinces");
    assert_eq!(narrow.review, None);
    assert_eq!(narrow.layers_placeholder, "Layers          ");
    assert_eq!(workspace_labels(800).review, Some("Review"));
    assert_eq!(workspace_labels(1200).review, Some("Review Changes"));
    assert_eq!(workspace_labels(1200).provinces, "Workspace: Provinces");
}

#[test]
fn wide_window_layout() {
    let layout = interface_layout([1200, 800], workspace_labels(1200), &measures());
    assert_eq!(layout.menus[0], Rect { x: 0, y: 0, w: 40, h: 24 });
    assert_eq!(layout.menus[4], Rect { x: 172, y: 0, w: 44, h: 24 });
    assert_eq!(layout.toolbar_height, 48);
    assert_eq!(
        layout.workspace_buttons,
        vec![
            (ButtonId::WorkspaceProvinces, Rect { x: 0, y: 24, w: 150, h: 24 }),
            (ButtonId::WorkspaceStates, Rect { x: 150, y: 24, w: 60, h: 24 }),
            (ButtonId::WorkspaceApplyToMod, Rect { x: 1100, y: 24, w: 100, h: 24 }),
            (ButtonId::WorkspaceReviewChanges, Rect { x: 980, y: 24, w: 120, h: 24 }),
        ]
    );
    assert_eq!(
        layout.dropdowns,
        vec![(true, Rect { x: 210, y: 24, w: 230, h: 24 }), (false, Rect { x: 440, y: 24, w: 300, h: 24 })]
    );
    assert_eq!(layout.tools[2], (ButtonId::SidebarToolLasso, Rect { x: 0, y: 112, w: 32, h: 32 }));
    assert_eq!(layout.state_tools.len(), 5);
    assert_eq!(layout.options[0], (ButtonId::SidebarOptionRiverOverlay, Rect { x: 0, y: 768, w: 32, h: 32 }));
    assert_eq!(layout.options[5].1.y, 608);
    assert_eq!(layout.sidebar_width, 32);
    assert_eq!(entry_rect(layout.dropdowns[0].1, 2, 22), Rect { x: 210, y: 92, w: 320, h: 22 });
}

#[test]
fn overlays_selector_is_dropped_when_it_reaches_the_actions() {
    let layout = interface_layout([720, 600], workspace_labels(720), &measures());
    assert_eq!(layout.dropdowns.len(), 1);
    assert_eq!(layout.workspace_buttons[3].1.x, 500);
}
