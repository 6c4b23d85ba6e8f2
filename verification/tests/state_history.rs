use std::collections::{BTreeMap, BTreeSet};

use hoi4_editor::history::{
    dated_history_impact, earliest_date, effective_state_history, DatedHistoryBlock, EffectiveHistoryOrigin, Hoi4Date, StateHistory,
    StateHistoryDelta,
};
use hoi4_editor::state::VictoryPoint;

fn date(year: i32, month: u32, day: u32, hour: u32) -> Hoi4Date {
    Hoi4Date { year, month, day, hour }
}

fn set(names: &[String]) -> BTreeSet<String> {
    names.iter().cloned().collect()
}

fn strings(items: &[&str]) -> BTreeSet<String> {
    items.iter().map(|s| s.to_string()).collect()
}

#[test]
fn dated_history_impact_tracks_only_values_effective_at_the_bookmark() {
    let blocks = vec![
        DatedHistoryBlock {
            date: date(1924, 1, 1, 1),
            changes: StateHistoryDelta {
                controller: Some("KOZ".to_owned()),
                added_cores: vec!["GER".to_owned()],
                removed_claims: vec!["ITA".to_owned()],
                victory_points: vec![VictoryPoint { province_id: 1234, value: 5 }],
                state_buildings: vec![("arms_factory".to_owned(), 1)],
                province_buildings: vec![(5678, vec![("bunker".to_owned(), 1)])],
                ..Default::default()
            },
        },
        DatedHistoryBlock {
            date: date(1925, 1, 1, 1),
            changes: StateHistoryDelta {
                owner: Some("LATER".to_owned()),
                added_cores: vec!["FRA".to_owned()],
                ..Default::default()
            },
        },
    ];

    let initial = dated_history_impact(&blocks, Some(date(1924, 1, 1, 12)));
    assert!(!initial.owner_has_dated_effects);
    assert!(initial.controller_has_dated_effects);
    assert_eq!(set(&initial.cores), strings(&["GER"]));
    assert_eq!(set(&initial.claims), strings(&["ITA"]));
    assert_eq!(initial.victory_points, BTreeSet::from([1234]));
    assert_eq!(set(&initial.state_buildings), strings(&["arms_factory"]));
    let buildings: BTreeMap<u32, BTreeSet<String>> =
        initial.province_buildings.iter().map(|(p, names)| (*p, set(names))).collect();
    assert_eq!(buildings, BTreeMap::from([(5678, strings(&["bunker"]))]));

    let unknown_date = dated_history_impact(&blocks, None);
    assert!(unknown_date.owner_has_dated_effects);
    assert_eq!(set(&unknown_date.cores), strings(&["FRA", "GER"]));
}

#[test]
fn repeated_names_are_kept_once_and_no_blocks_affect_nothing() {
    let blocks = vec![DatedHistoryBlock {
        date: date(1936, 1, 1, 12),
        changes: StateHistoryDelta {
            added_cores: vec!["GER".to_owned(), "GER".to_owned()],
            removed_cores: vec!["GER".to_owned()],
            ..Default::default()
        },
    }];
    let impact = dated_history_impact(&blocks, None);
    assert_eq!(impact.cores, vec!["GER".to_owned()]);
    assert!(!impact.owner_has_dated_effects);
    let none = dated_history_impact(&Vec::new(), None);
    assert!(none.cores.is_empty() && none.province_buildings.is_empty());
    assert!(date(1936, 1, 1, 12).not_after(date(1936, 1, 1, 12)));
    assert!(!date(1936, 1, 2, 0).not_after(date(1936, 1, 1, 23)));
}

#[test]
fn applies_only_history_up_to_the_initial_bookmark_and_marks_implicit_control() {
    let mut data = StateHistory {
        owner: Some("TOL".to_owned()),
        cores: vec!["TOL".to_owned()],
        claims: vec!["OLD".to_owned()],
        victory_points: vec![VictoryPoint { province_id: 2, value: 3 }],
        state_buildings: vec![("infrastructure".to_owned(), 1)],
        ..Default::default()
    };
    data.dated_blocks = vec![
        DatedHistoryBlock {
            date: date(1924, 1, 1, 12),
            changes: StateHistoryDelta {
                controller: Some("KOZ".to_owned()),
                removed_cores: vec!["TOL".to_owned()],
                added_cores: vec!["KOZ".to_owned()],
                removed_claims: vec!["OLD".to_owned()],
                added_claims: vec!["KOZ".to_owned()],
                victory_points: vec![VictoryPoint { province_id: 2, value: 8 }],
                state_buildings: vec![("infrastructure".to_owned(), 4)],
                ..Default::default()
            },
        },
        DatedHistoryBlock {
            date: date(1925, 1, 1, 12),
            changes: StateHistoryDelta { owner: Some("LATER".to_owned()), ..Default::default() },
        },
    ];
    let resolved = effective_state_history(&data, Some(date(1924, 1, 1, 12)));
    assert_eq!(resolved.owner.as_deref(), Some("TOL"));
    assert_eq!(resolved.controller.as_deref(), Some("KOZ"));
    assert_eq!(set(&resolved.cores), strings(&["KOZ"]));
    assert_eq!(set(&resolved.claims), strings(&["KOZ"]));
    assert_eq!(resolved.victory_points[0].value, 8);
    assert_eq!(resolved.state_buildings, vec![("infrastructure".to_owned(), 4)]);
    assert_eq!(resolved.controller_origin, EffectiveHistoryOrigin::Dated(date(1924, 1, 1, 12)));

    data.dated_blocks.clear();
    let implicit = effective_state_history(&data, None);
    assert!(implicit.controller.is_none());
    assert_eq!(implicit.controller_value.as_deref(), Some("TOL"));
    assert_eq!(implicit.controller_origin, EffectiveHistoryOrigin::ImplicitOwner);
}

#[test]
fn blocks_of_later_dates_apply_later_whatever_their_order() {
    let data = StateHistory {
        dated_blocks: vec![
            DatedHistoryBlock {
                date: date(1930, 1, 1, 12),
                changes: StateHistoryDelta { owner: Some("LATE".to_owned()), ..Default::default() },
            },
            DatedHistoryBlock {
                date: date(1920, 1, 1, 12),
                changes: StateHistoryDelta {
                    owner: Some("EARLY".to_owned()),
                    province_buildings: vec![(7, vec![("bunker".to_owned(), 2)])],
                    ..Default::default()
                },
            },
        ],
        ..Default::default()
    };
    let resolved = effective_state_history(&data, Some(date(1936, 1, 1, 12)));
    assert_eq!(resolved.owner.as_deref(), Some("LATE"));
    assert_eq!(resolved.owner_origin, EffectiveHistoryOrigin::Dated(date(1930, 1, 1, 12)));
    assert_eq!(resolved.province_buildings, vec![(7, vec![("bunker".to_owned(), 2)])]);
    assert_eq!(resolved.controller_value.as_deref(), Some("LATE"));
}

#[test]
fn selects_the_earliest_resolved_bookmark_date() {
    let dates = vec![date(1925, 6, 1, 12), date(1924, 1, 1, 12), date(1936, 1, 1, 12), date(1924, 1, 1, 12)];
    assert_eq!(earliest_date(&dates), Some(1));
    assert_eq!(earliest_date(&Vec::new()), None);
}
