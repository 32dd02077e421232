use management::competition_qualification::{
    berth_fields, fields, position_range, seed_cap_and_fill, Berth, BerthAward, BerthRule, BerthTarget,
    ClubSeed, CompetitionKind, CompetitionScope, QualificationCompetition,
};

fn members() -> Vec<String> {
    (0..8).map(|i| format!("c{i}")).collect()
}

fn teams() -> Vec<ClubSeed> {
    members()
        .into_iter()
        .enumerate()
        .map(|(i, id)| ClubSeed {
            id,
            reputation: 800 - i as u32,
            region: "eu".into(),
        })
        .collect()
}

fn ids(v: &[&str]) -> Vec<String> {
    v.iter().map(|s| s.to_string()).collect()
}

#[test]
fn berth_awards_resolve_to_the_most_prestigious_target() {
    let table = members();
    let mut awards = Vec::new();
    // The first berth awards "high" with "low" as its fallback.
    for club in position_range(&table, 1, 2) {
        awards.push(BerthAward { club: club.clone(), target: "high".into() });
        awards.push(BerthAward { club, target: "low".into() });
    }
    for club in position_range(&table, 1, 4) {
        awards.push(BerthAward { club, target: "low".into() });
    }
    let target = |id: &str, priority: u32| BerthTarget {
        id: id.into(),
        priority,
        participants: 4,
        feeder_regions: ids(&["eu"]),
    };
    let fields = berth_fields(&awards, &vec![target("high", 0), target("low", 1)], &teams());
    let (high, low) = (&fields[0], &fields[1]);
    assert!(high.contains(&"c0".to_string()));
    assert!(high.contains(&"c1".to_string()));
    assert!(!low.contains(&"c0".to_string()));
    assert!(!low.contains(&"c1".to_string()));
    assert!(low.contains(&"c2".to_string()));
    assert!(low.contains(&"c3".to_string()));
    // Fillers come from clubs placed nowhere, independently for each target.
    assert_eq!(high.len(), 4);
    assert_eq!(low.len(), 4);
    assert_eq!(*high, ids(&["c0", "c1", "c4", "c5"]));
    assert_eq!(*low, ids(&["c2", "c3", "c4", "c5"]));
}

#[test]
fn awards_outside_the_targets_are_ignored_and_ties_keep_the_first() {
    let target = |id: &str, priority: u32| BerthTarget {
        id: id.into(),
        priority,
        participants: 4,
        feeder_regions: ids(&[]),
    };
    let awards = vec![
        BerthAward { club: "c0".into(), target: "elsewhere".into() },
        BerthAward { club: "c1".into(), target: "b".into() },
        BerthAward { club: "c1".into(), target: "a".into() },
    ];
    let fields = berth_fields(&awards, &vec![target("a", 1), target("b", 1)], &teams());
    assert_eq!(fields[0], ids(&[]));
    assert_eq!(fields[1], ids(&["c1"]));
}

#[test]
fn seeding_orders_by_reputation_then_id_and_caps_the_field() {
    let mut t = teams();
    t.push(ClubSeed {
        id: "b".into(),
        reputation: 799,
        region: "sa".into(),
    });
    // Unknown clubs count as reputation 0; equal reputations go by ID.
    let q = ids(&["x", "c3", "b", "c1", "a"]);
    let out = seed_cap_and_fill(&t, &ids(&["eu"]), 2, &q, &ids(&[]));
    assert_eq!(out, ids(&["b", "c1", "c3", "a"]));
    // A field of six takes two fillers from the feeder region, best first.
    let out = seed_cap_and_fill(&t, &ids(&["eu"]), 6, &ids(&["c7"]), &ids(&["c7", "c0"]));
    assert_eq!(out, ids(&["c7", "c1", "c2", "c3", "c4", "c5"]));
    // Regions outside the feeders never fill.
    let out = seed_cap_and_fill(&t, &ids(&["sa"]), 4, &ids(&[]), &ids(&[]));
    assert_eq!(out, ids(&["b"]));
}

#[test]
fn position_ranges_clip_to_the_table() {
    let table = members();
    assert_eq!(position_range(&table, 0, 1), ids(&["c0", "c1"]));
    assert_eq!(position_range(&table, 7, 20), ids(&["c6", "c7"]));
    assert_eq!(position_range(&table, 9, 10), ids(&[]));
    // A reversed range still takes one club.
    assert_eq!(position_range(&table, 3, 2), ids(&["c2"]));
}

fn competition(id: &str, kind: CompetitionKind, scope: CompetitionScope) -> QualificationCompetition {
    QualificationCompetition {
        id: id.into(),
        kind,
        scope,
        region_id: Some("eu".into()),
        country_id: None,
        priority: 0,
        participants: 4,
        required_region_ids: vec![],
        table: vec![],
        champion: None,
        berths: vec![],
    }
}

#[test]
fn position_berths_prefer_high_priority_and_fill_excludes_other_targets() {
    let mut domestic = competition("league", CompetitionKind::League, CompetitionScope::Domestic);
    domestic.country_id = Some("ENG".into());
    domestic.table = members();
    domestic.berths = vec![
        Berth {
            target: "high".into(),
            rule: BerthRule::PositionRange { from: 1, to: 2 },
            fallback_to: Some("low".into()),
        },
        Berth {
            target: "low".into(),
            rule: BerthRule::PositionRange { from: 1, to: 4 },
            fallback_to: None,
        },
    ];
    let mut high = competition("high", CompetitionKind::ContinentalClub, CompetitionScope::Continental);
    high.required_region_ids = ids(&["eu"]);
    high.priority = 0;
    let mut low = high.clone();
    low.id = "low".into();
    low.priority = 1;
    let output = fields(&vec![domestic, high, low], &teams());
    assert_eq!(output.len(), 2);
    let (high_id, high) = &output[0];
    let (low_id, low) = &output[1];
    assert_eq!(high_id, "high");
    assert_eq!(low_id, "low");
    assert!(high.contains(&"c0".to_string()));
    assert!(high.contains(&"c1".to_string()));
    assert!(!low.contains(&"c0".to_string()));
    assert!(!low.contains(&"c1".to_string()));
    assert!(low.contains(&"c2".to_string()));
    assert!(low.contains(&"c3".to_string()));
    assert_eq!(high.len(), 4);
    assert_eq!(low.len(), 4);
}

#[test]
fn fields_without_berths_take_first_divisions_and_cup_winners() {
    let league = |id: &str, country: &str, priority: u32, table: &[&str]| {
        let mut c = competition(id, CompetitionKind::League, CompetitionScope::Domestic);
        c.country_id = Some(country.into());
        c.priority = priority;
        c.table = ids(table);
        c
    };
    let mut cup = competition("cup", CompetitionKind::Cup, CompetitionScope::Domestic);
    cup.champion = Some("b2".into());
    let mut cl = competition("cl", CompetitionKind::ContinentalClub, CompetitionScope::Continental);
    cl.participants = 12;
    let comps = vec![
        league("eng2", "ENG", 1, &["b1", "b2", "b3"]),
        league("eng1", "ENG", 0, &["a1", "a2", "a3", "a4", "a5", "a6"]),
        league("esp", "ESP", 0, &["e1", "e2", "e3", "e4", "e5"]),
        cup,
        cl,
    ];
    let rep = |id: &str, reputation: u32, region: &str| ClubSeed {
        id: id.into(),
        reputation,
        region: region.into(),
    };
    let teams = vec![
        rep("a1", 90, "eu"),
        rep("a2", 80, "eu"),
        rep("a3", 70, "eu"),
        rep("a4", 60, "eu"),
        rep("a5", 55, "eu"),
        rep("a6", 50, "eu"),
        rep("e1", 85, "eu"),
        rep("e2", 75, "eu"),
        rep("e3", 65, "eu"),
        rep("e4", 58, "eu"),
        rep("e5", 52, "eu"),
        rep("b1", 40, "eu"),
        rep("b2", 45, "eu"),
        rep("b3", 30, "eu"),
        rep("x", 99, "sa"),
    ];
    let output = fields(&comps, &teams);
    assert_eq!(output.len(), 1);
    assert_eq!(output[0].0, "cl");
    assert_eq!(
        output[0].1,
        ids(&["a1", "e1", "a2", "e2", "a3", "e3", "a4", "e4", "b2", "a5", "e5", "a6"])
    );
}
