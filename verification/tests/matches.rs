use management::matches::{validate_fixture_squads, DelegatedSquad, SquadPlayer};

fn player(id: String) -> SquadPlayer {
    let mut attributes = vec![65u8; 22];
    attributes[1] = 100;
    attributes[2] = 75;
    SquadPlayer { id, attributes }
}

fn team(id: &str) -> DelegatedSquad {
    DelegatedSquad {
        club_id: id.into(),
        starting: (0..11).map(|i| player(format!("{id}-p{i}"))).collect(),
        bench: (0..7).map(|i| player(format!("{id}-b{i}"))).collect(),
        experience: 50,
        reputation: 500,
    }
}

#[test]
fn valid_squads_are_accepted() {
    assert_eq!(validate_fixture_squads(&team("home"), &team("away")), Ok(()));
}

#[test]
fn rejects_empty_or_oversized_rosters() {
    let mut home = team("home");
    home.starting.clear();
    assert_eq!(
        validate_fixture_squads(&home, &team("away")),
        Err("a starting lineup must contain exactly 11 players".into())
    );
    let mut home = team("home");
    home.bench = (0..13).map(|i| player(format!("reserve{i}"))).collect();
    assert_eq!(
        validate_fixture_squads(&home, &team("away")),
        Err("a match-day bench must contain at most 12 players".into())
    );
}

#[test]
fn rejects_duplicate_and_empty_ids_across_squads() {
    let ids = Err("club and player IDs must be nonempty and globally distinct".to_string());
    assert_eq!(validate_fixture_squads(&team("same"), &team("same")), ids);
    let home = team("home");
    let mut away = team("away");
    away.bench[0].id = home.starting[0].id.clone();
    assert_eq!(validate_fixture_squads(&home, &away), ids);
    let mut home = team("home");
    home.starting[0].id = " ".into();
    assert_eq!(validate_fixture_squads(&home, &team("away")), ids);
}

#[test]
fn rejects_out_of_range_attributes() {
    let mut home = team("home");
    home.bench[0].attributes[2] = 101;
    assert_eq!(
        validate_fixture_squads(&home, &team("away")),
        Err("player home-b0 has an attribute outside 0..=100".into())
    );
}

#[test]
fn rejects_a_manager_profile_out_of_range() {
    let mut away = team("away");
    away.reputation = 1001;
    assert_eq!(
        validate_fixture_squads(&team("home"), &away),
        Err("delegated manager profile is out of range".into())
    );
}
