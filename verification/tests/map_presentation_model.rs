use hoi4_editor::map_presentation::{build_map_presentation, PresentationState};
use hoi4_editor::presentation::UNCATEGORIZED_COLOR;
use hoi4_editor::state::VictoryPoint;

fn state(id: u32, category: Option<&str>, manpower: Option<u64>) -> PresentationState {
    PresentationState {
        id: Some(id),
        state_category: category.map(str::to_owned),
        manpower,
        ..Default::default()
    }
}

#[test]
fn presentation_keeps_sparse_vps_ordered_and_first_duplicate() {
    let mut first = state(1, Some("city"), Some(10));
    first.victory_points = vec![
        VictoryPoint { province_id: 99, value: 5 },
        VictoryPoint { province_id: 3, value: 10 },
    ];
    let mut second = state(2, Some("custom"), Some(20));
    second.victory_points = vec![VictoryPoint { province_id: 99, value: 50 }];
    let model = build_map_presentation(2, 4, &vec![first, second]);
    assert_eq!(
        model
            .victory_points
            .iter()
            .map(|marker| (marker.province_id, marker.value))
            .collect::<Vec<_>>(),
        vec![(3, 10), (99, 5)]
    );
    assert_eq!(model.generation, 2);
}

#[test]
fn legends_are_deterministic_and_outliers_do_not_flatten_the_scale() {
    let model = build_map_presentation(
        1,
        1,
        &vec![
            state(1, Some("city"), Some(10)),
            state(2, Some("rural"), Some(20)),
            state(3, Some("city"), Some(30)),
            state(4, Some("custom"), Some(1_000_000)),
        ],
    );
    assert_eq!(
        model.category_legend.iter().map(|entry| entry.category.as_str()).collect::<Vec<_>>(),
        ["city", "custom", "rural"]
    );
    assert!(model.manpower_high < 1_000_000);
    assert_ne!(model.states[&1].category_color, model.states[&2].category_color);
}

#[test]
fn dmz_and_project_switch_data_stay_in_the_model() {
    let mut dmz = state(10, Some("rural"), Some(1));
    dmz.demilitarized_zone = Some(true);
    let first = build_map_presentation(1, 0, &vec![dmz]);
    let second = build_map_presentation(2, 0, &vec![state(20, None, None)]);
    assert!(first.states[&10].demilitarized_zone);
    assert!(!second.states.contains_key(&10));
}

#[test]
fn legend_colors_follow_the_palette_and_later_states_replace_earlier_ones() {
    let model = build_map_presentation(
        7,
        3,
        &vec![
            state(5, Some("b"), Some(0)),
            state(5, Some("a"), Some(40)),
            state(6, Some(""), None),
            PresentationState { id: None, ..state(0, Some("ignored"), Some(9)) },
            state(8, Some("b"), Some(2)),
        ],
    );
    assert_eq!(model.category_legend.len(), 2);
    assert_eq!(model.category_legend[0].category, "a");
    assert_eq!(model.category_legend[0].color, [0x4e, 0x79, 0xa7]);
    assert_eq!(model.category_legend[1].category, "b");
    assert_eq!(model.category_legend[1].color, [0xf2, 0x8e, 0x2b]);
    assert_eq!(model.states.len(), 3);
    assert_eq!(model.states[&5].category.as_deref(), Some("a"));
    assert_eq!(model.states[&5].manpower, Some(40));
    assert_eq!(model.states[&6].category_color, UNCATEGORIZED_COLOR);
    assert_eq!(model.states[&8].category_color, [0xf2, 0x8e, 0x2b]);
    assert_eq!((model.manpower_low, model.manpower_high), (2, 2));
    assert_eq!(model.state_revision, 3);
}

#[test]
fn manpower_scale_takes_the_lower_nine_tenths_value() {
    let states = (1..=11).map(|id| state(id, None, Some(u64::from(id) * 100))).collect::<Vec<_>>();
    let model = build_map_presentation(1, 1, &states);
    assert_eq!(model.manpower_low, 100);
    assert_eq!(model.manpower_high, 1000);
    let empty = build_map_presentation(1, 1, &Vec::new());
    assert_eq!((empty.manpower_low, empty.manpower_high), (0, 0));
    assert!(empty.victory_points.is_empty());
}
