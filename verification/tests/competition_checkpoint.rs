use management::competition_checkpoint::{
    validate_competition_checkpoint, CompetitionCheckpoint, CompetitionFixture, CompetitionFormat,
    CompetitionGroup, CompetitionRecord, CompetitionRules, CompetitionType, FixtureStatus, KnockoutRound,
};
use management::dates::Date;

fn rules(format: CompetitionFormat) -> CompetitionRules {
    CompetitionRules {
        format,
        group_qualifiers_per_group: 2,
        group_best_third_qualifiers: 0,
        group_stage_legs: 2,
        group_matchday_gap_days: 7,
        knockout_round_gap_days: 14,
        knockout_matches_per_day: 1,
    }
}

fn fixture(id: &str, date: &str, home: &str, away: &str, status: FixtureStatus) -> CompetitionFixture {
    CompetitionFixture {
        id: id.into(),
        date: date.into(),
        home_team_id: home.into(),
        away_team_id: away.into(),
        status,
        has_result: status == FixtureStatus::Completed,
    }
}

fn league() -> CompetitionRecord {
    CompetitionRecord {
        key: "league".into(),
        id: "league".into(),
        kind: CompetitionType::League,
        season: 2026,
        participant_ids: vec!["a".into(), "b".into(), "c".into()],
        groups: vec![],
        knockout_rounds: vec![],
        rules: rules(CompetitionFormat::LeagueTable),
        season_start_month: 8,
        season_start_day: 1,
        fixtures: vec![
            fixture("l1", "2026-08-01", "a", "b", FixtureStatus::Completed),
            fixture("l2", "2026-08-08", "b", "c", FixtureStatus::Scheduled),
        ],
    }
}

fn cup() -> CompetitionRecord {
    CompetitionRecord {
        key: "cup".into(),
        id: "cup".into(),
        kind: CompetitionType::Cup,
        season: 2026,
        participant_ids: vec!["a".into(), "c".into()],
        groups: vec![],
        knockout_rounds: vec![KnockoutRound { fixture_ids: vec!["c1".into()], bye_team_ids: vec![], completed: false }],
        rules: rules(CompetitionFormat::Knockout),
        season_start_month: 8,
        season_start_day: 1,
        fixtures: vec![fixture("c1", "2026-08-10", "c", "a", FixtureStatus::Scheduled)],
    }
}

fn state() -> CompetitionCheckpoint {
    CompetitionCheckpoint {
        competitions: vec![cup(), league()],
        primary_competition_id: "league".into(),
        active_competition_ids: vec!["cup".into(), "league".into()],
        competition_order: vec![],
        catch_up_past: false,
        club_regions: vec![],
        epoch_date: Date::parse("2026-08-05").unwrap(),
        epoch_day: 5,
        archives: vec![],
    }
}

fn clubs() -> Vec<String> {
    vec!["a".into(), "b".into(), "c".into()]
}

fn check(s: &CompetitionCheckpoint) -> Result<(), String> {
    validate_competition_checkpoint(s, &clubs(), &None, true)
}

#[test]
fn a_consistent_competition_state_passes() {
    assert_eq!(check(&state()), Ok(()));
    let mut ordered = state();
    ordered.competition_order = vec!["league".into(), "cup".into()];
    assert_eq!(check(&ordered), Ok(()));
}

#[test]
fn the_setup_is_checked() {
    assert_eq!(
        validate_competition_checkpoint(&state(), &clubs(), &None, false),
        Err("Invalid competition setup".into())
    );
    let mut unknown = state();
    unknown.primary_competition_id = "nope".into();
    assert_eq!(check(&unknown), Err("Unknown primary competition".into()));
    let mut cup_first = state();
    cup_first.primary_competition_id = "cup".into();
    assert_eq!(check(&cup_first), Err("Primary must be an active domestic league table".into()));
    let mut inactive = state();
    inactive.active_competition_ids = vec!["cup".into()];
    assert_eq!(check(&inactive), Err("Primary must be an active domestic league table".into()));
    let mut ghost = state();
    ghost.active_competition_ids.push("ghost".into());
    assert_eq!(check(&ghost), Err("Unknown active competition".into()));
    let mut twice = state();
    twice.competition_order = vec!["league".into(), "league".into()];
    assert_eq!(
        check(&twice),
        Err("Competition execution order must name every competition exactly once".into())
    );
    let mut continental = state();
    let mut c = cup();
    c.kind = CompetitionType::ContinentalClub;
    continental.competitions[0] = c;
    assert_eq!(
        check(&continental),
        Err("Continental qualification requires an explicit source region for every club".into())
    );
    continental.club_regions = clubs();
    assert_eq!(check(&continental), Ok(()));
}

#[test]
fn records_and_fixtures_are_checked() {
    let mut small = state();
    small.competitions[0].participant_ids = vec!["a".into()];
    small.competitions[0].fixtures = vec![];
    assert_eq!(check(&small), Err("Invalid competition identity or bounds".into()));
    let mut stranger = state();
    stranger.competitions[0].participant_ids.push("z".into());
    assert_eq!(check(&stranger), Err("Competition membership must reference unique registered clubs".into()));
    let mut national = state();
    national.competitions[0].kind = CompetitionType::InternationalNation;
    assert_eq!(
        check(&national),
        Err("National-team records require the national lifecycle, not the club engine".into())
    );
    let mut calendar = state();
    calendar.competitions[0].season_start_month = 2;
    calendar.competitions[0].season_start_day = 30;
    assert_eq!(check(&calendar), Err("Invalid competition calendar bounds".into()));
    let mut date = state();
    date.competitions[0].fixtures[0].date = "10 Aug 2026".into();
    assert_eq!(check(&date), Err("Invalid competition fixture date".into()));
    let mut shared = state();
    shared.competitions[0].fixtures[0].id = "l1".into();
    shared.competitions[0].knockout_rounds[0].fixture_ids = vec!["l1".into()];
    assert_eq!(check(&shared), Err("Invalid competition fixture identity or participants".into()));
    let mut result = state();
    result.competitions[1].fixtures[1].has_result = true;
    assert_eq!(check(&result), Err("Competition fixture status/result mismatch".into()));
    let mut past = state();
    past.competitions[0].fixtures[0].date = "2026-08-02".into();
    assert_eq!(check(&past), Err("Past scheduled fixtures require explicit catch-up".into()));
    past.catch_up_past = true;
    assert_eq!(check(&past), Ok(()));
}

#[test]
fn archived_collections_are_checked_on_their_own() {
    let mut archived = state();
    // The same fixture IDs may recur in another season's collection.
    archived.archives = vec![vec![league()]];
    assert_eq!(check(&archived), Ok(()));
    let mut broken = league();
    broken.fixtures[0].home_team_id = "b".into();
    archived.archives.push(vec![broken]);
    assert_eq!(check(&archived), Err("Invalid competition fixture identity or participants".into()));
}

fn group(id: &str, teams: &[&str]) -> CompetitionGroup {
    CompetitionGroup { id: id.into(), team_ids: teams.iter().map(|t| t.to_string()).collect() }
}

#[test]
fn groups_hold_each_member_once() {
    let mut staged = state();
    staged.competitions[0].rules.format = CompetitionFormat::GroupAndKnockout;
    staged.competitions[0].groups = vec![group("g-a", &["a"]), group("g-b", &["c"])];
    assert_eq!(check(&staged), Ok(()));
    let mut twice = staged.clone();
    twice.competitions[0].groups = vec![group("g-a", &["a", "c"]), group("g-b", &["c"])];
    assert_eq!(check(&twice), Err("Invalid competition group membership".into()));
    let mut outsider = staged.clone();
    outsider.competitions[0].groups = vec![group("g-a", &["a", "b"]), group("g-b", &["c"])];
    assert_eq!(check(&outsider), Err("Invalid competition group membership".into()));
    let mut same_id = staged.clone();
    same_id.competitions[0].groups = vec![group("g", &["a"]), group("g", &["c"])];
    assert_eq!(check(&same_id), Err("Invalid competition group membership".into()));
    let mut missing = staged.clone();
    missing.competitions[0].groups = vec![group("g-a", &["a"])];
    assert_eq!(check(&missing), Err("Group competition membership incomplete".into()));
}

#[test]
fn knockout_rounds_name_their_fixtures_once() {
    let mut unknown = state();
    unknown.competitions[0].knockout_rounds[0].fixture_ids.push("zz".into());
    assert_eq!(check(&unknown), Err("Knockout references unknown participants or fixtures".into()));
    let mut bye = state();
    bye.competitions[0].knockout_rounds[0].bye_team_ids = vec!["b".into()];
    assert_eq!(check(&bye), Err("Knockout references unknown participants or fixtures".into()));
    let mut repeated = state();
    repeated.competitions[0].knockout_rounds[0].fixture_ids.push("c1".into());
    assert_eq!(check(&repeated), Err("Invalid knockout completion state".into()));
    let mut early = state();
    early.competitions[0].knockout_rounds[0].completed = true;
    assert_eq!(check(&early), Err("Invalid knockout completion state".into()));
    let mut done = early.clone();
    done.competitions[0].fixtures[0].status = FixtureStatus::Completed;
    done.competitions[0].fixtures[0].has_result = true;
    assert_eq!(check(&done), Ok(()));
}
