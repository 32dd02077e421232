use management::football::{fixture_seed, standings_table, validate_fixtures, Fixture, Standing};

fn row(id: &str, points: u32, goals_for: u32, goals_against: u32) -> Standing {
    let mut row = Standing::new(id.to_string());
    row.points = points;
    row.goals_for = goals_for;
    row.goals_against = goals_against;
    row
}

#[test]
fn results_update_the_row_by_outcome() {
    let mut row = Standing::new("club".into());
    row.record(3, 1);
    row.record(2, 2);
    row.record(0, 4);
    assert_eq!(row.played, 3);
    assert_eq!((row.won, row.drawn, row.lost), (1, 1, 1));
    assert_eq!((row.goals_for, row.goals_against), (5, 7));
    assert_eq!(row.points, 4);
}

#[test]
fn table_orders_by_points_goal_difference_goals_then_id() {
    let rows = vec![
        row("d", 3, 1, 1),
        row("c", 6, 2, 2),
        row("b", 6, 4, 1),
        row("a", 6, 3, 0),
        row("e", 6, 4, 1),
    ];
    let table = standings_table(&rows);
    let order: Vec<&str> = table.iter().map(|r| r.club_id.as_str()).collect();
    assert_eq!(order, vec!["b", "e", "a", "c", "d"]);
    assert!(standings_table(&vec![]).is_empty());
}

fn fixture(id: &str, day: u32, home: &str, away: &str) -> Fixture {
    Fixture {
        id: id.into(),
        day,
        home: home.into(),
        away: away.into(),
        seed: 0,
    }
}

#[test]
fn fixture_lists_need_known_distinct_clubs_once_a_day() {
    let clubs = vec!["a".to_string(), "b".to_string(), "c".to_string(), "d".to_string()];
    let good = vec![fixture("1", 5, "a", "b"), fixture("2", 5, "c", "d"), fixture("3", 6, "a", "c")];
    assert_eq!(validate_fixtures(&good, 5, &clubs), Ok(()));
    let error = Err("Invalid or conflicting fixture".to_string());
    for bad in [
        vec![fixture("", 5, "a", "b")],
        vec![fixture("1", 4, "a", "b")],
        vec![fixture("1", 5, "a", "a")],
        vec![fixture("1", 5, "a", "z")],
        vec![fixture("1", 5, "a", "b"), fixture("1", 6, "c", "d")],
        vec![fixture("1", 5, "a", "b"), fixture("2", 5, "b", "c")],
    ] {
        assert_eq!(validate_fixtures(&bad, 5, &clubs), error);
    }
}

#[test]
fn fixture_seeds_are_fnv1a_of_the_id_from_the_competition_seed() {
    assert_eq!(fixture_seed(0, ""), 14695981039346656037);
    assert_eq!(fixture_seed(0, "a"), 12638187200555641996);
    assert_eq!(fixture_seed(1, "leg-1"), 11122476865699580722);
    assert_eq!(fixture_seed(7, "é"), 770703808136961486);
    assert_ne!(fixture_seed(1, "leg-1"), fixture_seed(2, "leg-1"));
}
