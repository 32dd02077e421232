use management::dates::Date;
use management::fixture_checkpoint::{validate_fixture_checkpoint, CompetitionSources, MatchRecord, SourceFixture};
use management::football::{Fixture, Standing};

fn fixture(id: &str, day: u32, home: &str, away: &str) -> Fixture {
    Fixture { id: id.into(), day, home: home.into(), away: away.into(), seed: 1 }
}

fn clubs() -> Vec<String> {
    vec!["a".into(), "b".into(), "c".into(), "d".into()]
}

fn players() -> Vec<String> {
    (0..88).map(|i| format!("p{i}")).collect()
}

fn lineup(club: usize) -> Vec<String> {
    (0..11).map(|i| format!("p{}", club * 22 + i)).collect()
}

fn record(id: &str, day: u32, home: &str, away: &str, goals: (u8, u8), side: usize) -> MatchRecord {
    MatchRecord {
        fixture_id: id.into(),
        day,
        home: home.into(),
        away: away.into(),
        home_goals: goals.0,
        away_goals: goals.1,
        possession_valid: true,
        stat_player_ids: vec!["p0".into()],
        home_starting_xi: lineup(side),
        away_starting_xi: (11..22).map(|i| format!("p{}", side * 22 + i)).collect(),
    }
}

fn row(club: &str, counts: [u32; 7]) -> Standing {
    Standing {
        club_id: club.into(),
        played: counts[0],
        won: counts[1],
        drawn: counts[2],
        lost: counts[3],
        goals_for: counts[4],
        goals_against: counts[5],
        points: counts[6],
    }
}

fn current() -> Vec<Fixture> {
    vec![fixture("f1", 1, "a", "b"), fixture("f2", 1, "c", "d"), fixture("f3", 2, "a", "c")]
}

fn results() -> Vec<MatchRecord> {
    vec![record("f1", 1, "a", "b", (2, 1), 0), record("f2", 1, "c", "d", (0, 0), 1)]
}

fn table() -> Vec<Standing> {
    vec![
        row("a", [1, 1, 0, 0, 2, 1, 3]),
        row("b", [1, 0, 0, 1, 1, 2, 0]),
        row("c", [1, 0, 1, 0, 0, 0, 1]),
        row("d", [1, 0, 1, 0, 0, 0, 1]),
    ]
}

fn check(current: &Vec<Fixture>, archived: &Vec<Fixture>, results: &Vec<MatchRecord>, table: &Vec<Standing>) -> Result<(), String> {
    validate_fixture_checkpoint(current, archived, &clubs(), results, table, 2, &players(), &None)
}

fn source(id: &str, date: &str, home: &str, away: &str, result: Option<(u8, u8)>) -> SourceFixture {
    SourceFixture { id: id.into(), date: date.into(), home: home.into(), away: away.into(), result, completed: result.is_some() }
}

fn sources() -> CompetitionSources {
    CompetitionSources {
        primary_standings: Some(table()),
        fixtures: vec![
            source("f1", "2026-08-01", "a", "b", Some((2, 1))),
            source("f2", "2026-08-01", "c", "d", Some((0, 0))),
            source("f3", "2026-08-08", "a", "c", None),
        ],
        epoch: Date::parse("2026-08-05").unwrap(),
    }
}

fn check_with(
    current: &Vec<Fixture>,
    archived: &Vec<Fixture>,
    results: &Vec<MatchRecord>,
    table: &Vec<Standing>,
    sources: CompetitionSources,
) -> Result<(), String> {
    validate_fixture_checkpoint(current, archived, &clubs(), results, table, 2, &players(), &Some(sources))
}

#[test]
fn a_consistent_league_checkpoint_passes() {
    assert_eq!(check(&current(), &vec![], &results(), &table()), Ok(()));
}

#[test]
fn fixtures_must_be_unique_and_keep_clubs_apart() {
    let mut twice = current();
    twice.push(fixture("f1", 5, "b", "d"));
    assert_eq!(check(&twice, &vec![], &results(), &table()), Err("Duplicate current checkpoint fixture".into()));
    let mut busy = current();
    busy.push(fixture("f4", 1, "a", "d"));
    assert_eq!(check(&busy, &vec![], &results(), &table()), Err("Invalid checkpoint fixture calendar".into()));
    let mut blank = current();
    blank.push(fixture("  ", 9, "b", "d"));
    assert_eq!(check(&blank, &vec![], &results(), &table()), Err("Invalid checkpoint fixture calendar".into()));
    let mut stranger = current();
    stranger.push(fixture("f5", 9, "b", "z"));
    assert_eq!(check(&stranger, &vec![], &results(), &table()), Err("Invalid checkpoint fixture calendar".into()));
    let archived = vec![fixture("f1", 0, "a", "b")];
    assert_eq!(
        check(&current(), &archived, &results(), &table()),
        Err("Conflicting checkpoint fixture identity".into())
    );
}

#[test]
fn finished_matches_must_reference_their_fixtures() {
    let mut unknown = results();
    unknown.push(record("f9", 1, "a", "b", (0, 0), 2));
    assert_eq!(check(&current(), &vec![], &unknown, &table()), Err("Checkpoint result has no fixture".into()));
    let mut today = results();
    today.push(record("f3", 2, "a", "c", (0, 0), 2));
    assert_eq!(check(&current(), &vec![], &today, &table()), Err("Invalid checkpoint result references".into()));
    let mut again = results();
    again.push(record("f1", 1, "a", "b", (2, 1), 2));
    assert_eq!(check(&current(), &vec![], &again, &table()), Err("Invalid checkpoint result references".into()));
    let mut swapped = results();
    swapped[0].home = "b".into();
    swapped[0].away = "a".into();
    assert_eq!(check(&current(), &vec![], &swapped, &table()), Err("Invalid checkpoint result references".into()));
    let mut possession = results();
    possession[1].possession_valid = false;
    assert_eq!(check(&current(), &vec![], &possession, &table()), Err("Invalid checkpoint result references".into()));
    let mut short = results();
    short[0].home_starting_xi.pop();
    assert_eq!(
        check(&current(), &vec![], &short, &table()),
        Err("Invalid checkpoint historical starting lineups".into())
    );
    let mut shared = results();
    shared[0].away_starting_xi[0] = "p0".into();
    assert_eq!(
        check(&current(), &vec![], &shared, &table()),
        Err("Invalid checkpoint historical starting lineups".into())
    );
    let mut ghost = results();
    ghost[0].away_starting_xi[0] = "nobody".into();
    assert_eq!(
        check(&current(), &vec![], &ghost, &table()),
        Err("Invalid checkpoint historical starting lineups".into())
    );
}

#[test]
fn the_table_must_add_up_and_past_fixtures_must_be_finished() {
    let mut wrong = table();
    wrong[0].points = 1;
    assert_eq!(
        check(&current(), &vec![], &results(), &wrong),
        Err("Checkpoint standings or completed-fixture coverage mismatch".into())
    );
    let only_first = vec![results()[0].clone()];
    let mut partial = table();
    partial[2] = row("c", [0; 7]);
    partial[3] = row("d", [0; 7]);
    assert_eq!(
        check(&current(), &vec![], &only_first, &partial),
        Err("Checkpoint standings or completed-fixture coverage mismatch".into())
    );
    // An archived match counts for coverage but not for the current table.
    let archived = vec![fixture("old", 0, "a", "b")];
    let mut with_old = results();
    with_old.push(record("old", 0, "a", "b", (5, 0), 2));
    assert_eq!(check(&current(), &archived, &with_old, &table()), Ok(()));
}

#[test]
fn a_competition_calendar_is_checked_against_its_sources() {
    assert_eq!(check_with(&current(), &vec![], &results(), &table(), sources()), Ok(()));
    // Clubs may meet twice on a competition day, and archives may repeat a fixture unchanged.
    let mut busy = current();
    busy.push(fixture("f4", 2, "a", "d"));
    assert_eq!(check(&busy, &vec![], &results(), &table()), Err("Invalid checkpoint fixture calendar".into()));
    assert_eq!(check_with(&busy, &vec![], &results(), &table(), sources()), Ok(()));
    let again = vec![fixture("f1", 1, "a", "b")];
    assert_eq!(check_with(&current(), &again, &results(), &table(), sources()), Ok(()));
    let mut moved = again.clone();
    moved[0].seed = 9;
    assert_eq!(
        check_with(&current(), &moved, &results(), &table(), sources()),
        Err("Conflicting checkpoint fixture identity".into())
    );
    let mut no_primary = sources();
    no_primary.primary_standings = None;
    assert_eq!(
        check_with(&current(), &vec![], &results(), &table(), no_primary),
        Err("Missing primary competition".into())
    );
    let mut twice = sources();
    twice.fixtures.push(source("f1", "2026-08-01", "a", "b", Some((3, 1))));
    assert_eq!(
        check_with(&current(), &vec![], &results(), &table(), twice),
        Err("Conflicting archived source fixture result".into())
    );
    let mut other_score = sources();
    other_score.fixtures[0].result = Some((1, 1));
    assert_eq!(
        check_with(&current(), &vec![], &results(), &table(), other_score),
        Err("Runtime report disagrees with source fixture result".into())
    );
}

#[test]
fn a_competition_table_and_imported_results_cover_the_past() {
    // The table is the primary league's, whatever the matches here add up to.
    let mut primary = sources();
    primary.primary_standings = Some(vec![row("a", [9, 9, 0, 0, 9, 0, 27])]);
    assert_eq!(
        check_with(&current(), &vec![], &results(), &vec![row("a", [9, 9, 0, 0, 9, 0, 27])], primary),
        Ok(())
    );
    let mut wrong = table();
    wrong[1].points = 7;
    assert_eq!(
        check_with(&current(), &vec![], &results(), &wrong, sources()),
        Err("Checkpoint standings or completed-fixture coverage mismatch".into())
    );
    // A match completed before the epoch needs no result here.
    let only_first = vec![results()[0].clone()];
    assert_eq!(check_with(&current(), &vec![], &only_first, &table(), sources()), Ok(()));
    let mut late = sources();
    late.fixtures[1].date = "2026-08-06".into();
    assert_eq!(
        check_with(&current(), &vec![], &only_first, &table(), late),
        Err("Checkpoint standings or completed-fixture coverage mismatch".into())
    );
}
