use management::competition_groups::{
    group_label, knockout_qualifiers, seed_groups, sorted_group_standings, GroupStageConfig,
};
use management::football::Standing;

#[test]
fn labels_cycle_through_the_alphabet() {
    assert_eq!(group_label(0), "A");
    assert_eq!(group_label(7), "H");
    assert_eq!(group_label(25), "Z");
    assert_eq!(group_label(26), "A");
}

#[test]
fn snake_seeding_spreads_strength_across_groups() {
    let teams: Vec<String> = (1..=10).map(|i| format!("t{i}")).collect();
    let groups = seed_groups("cup", &teams);
    assert_eq!(groups.len(), 3);
    assert_eq!(groups[0].id, "cup-group-A");
    assert_eq!(groups[2].name, "C");
    assert_eq!(groups[0].team_ids, vec!["t1", "t6", "t7"]);
    assert_eq!(groups[1].team_ids, vec!["t2", "t5", "t8"]);
    assert_eq!(groups[2].team_ids, vec!["t3", "t4", "t9", "t10"]);
    let empty = seed_groups("cup", &[]);
    assert_eq!(empty.len(), 1);
    assert!(empty[0].team_ids.is_empty());
}

#[test]
fn default_group_stage_is_home_and_away_top_two() {
    let config = GroupStageConfig::default();
    assert_eq!(config.legs, 2);
    assert_eq!(config.matchday_gap_days, 7);
    assert_eq!(config.qualifiers_per_group, 2);
    assert_eq!(config.best_third_qualifiers, 0);
    assert_eq!(config.knockout_round_gap_days, 14);
    assert_eq!(config.max_concurrent_matches_per_day, None);
    assert_eq!(config.knockout_matches_per_day, 1);
}

fn row(id: &str, points: u32, goals_for: u32, goals_against: u32) -> Standing {
    let mut row = Standing::new(id.to_string());
    row.points = points;
    row.goals_for = goals_for;
    row.goals_against = goals_against;
    row
}

fn ids(rows: &[Standing]) -> Vec<&str> {
    rows.iter().map(|r| r.club_id.as_str()).collect()
}

#[test]
fn group_tables_sort_by_points_goal_difference_then_goals_keeping_ties() {
    let table = vec![
        row("tie-first", 3, 2, 1),
        row("fewer-goals", 3, 1, 0),
        row("leader", 6, 1, 1),
        row("tie-second", 3, 2, 1),
        row("worse-difference", 3, 5, 5),
    ];
    let sorted = sorted_group_standings(&table);
    assert_eq!(
        ids(&sorted),
        vec!["leader", "tie-first", "tie-second", "fewer-goals", "worse-difference"]
    );
    assert_eq!(sorted[0], table[2]);
}

#[test]
fn knockout_qualifiers_rank_each_place_across_groups_then_best_next_placed() {
    let groups = vec![
        vec![row("a3", 1, 0, 3), row("a1", 6, 4, 1), row("a2", 4, 2, 2)],
        vec![row("b1", 9, 6, 0), row("b2", 3, 1, 1), row("b3", 3, 1, 2)],
    ];
    assert_eq!(knockout_qualifiers(&groups, 2, 1), vec!["b1", "a1", "a2", "b2", "b3"]);
    assert_eq!(knockout_qualifiers(&groups, 2, 0), vec!["b1", "a1", "a2", "b2"]);
    assert_eq!(knockout_qualifiers(&groups, 0, 5), vec!["b1", "a1", "a2", "b2"]);
    assert_eq!(knockout_qualifiers(&groups, 3, 4), vec!["b1", "a1", "a2", "b2", "b3", "a3"]);
    assert!(knockout_qualifiers(&vec![], 2, 2).is_empty());
}
