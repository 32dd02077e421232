use management::calendar::{double_round_robin, next_start};
use management::dates::Date;
use std::collections::{BTreeMap, BTreeSet};

fn ids(count: usize) -> Vec<String> {
    (0..count).map(|i| format!("club-{i}")).collect()
}

fn assert_calendar(count: usize) {
    let clubs = ids(count);
    let fixtures = double_round_robin(&clubs, 3, 7, 42).unwrap();
    assert_eq!(fixtures.len(), count * (count - 1));
    let mut fixture_ids = BTreeSet::new();
    let mut pairs = BTreeSet::new();
    let mut days: BTreeMap<u32, BTreeSet<&str>> = BTreeMap::new();
    let mut home_counts = BTreeMap::new();
    let mut away_counts = BTreeMap::new();
    for fixture in &fixtures {
        assert!(fixture_ids.insert(&fixture.id));
        assert_ne!(fixture.home, fixture.away);
        assert!(pairs.insert((&fixture.home, &fixture.away)));
        assert_eq!((fixture.day - 3) % 7, 0);
        let playing = days.entry(fixture.day).or_default();
        assert!(playing.insert(&fixture.home));
        assert!(playing.insert(&fixture.away));
        *home_counts.entry(&fixture.home).or_insert(0) += 1;
        *away_counts.entry(&fixture.away).or_insert(0) += 1;
    }
    let rounds_per_leg = if count % 2 == 0 { count - 1 } else { count };
    assert_eq!(days.len(), 2 * rounds_per_leg);
    let mut byes: BTreeMap<&String, usize> = BTreeMap::new();
    for (round, (day, playing)) in days.iter().enumerate() {
        assert_eq!(*day, 3 + 7 * round as u32);
        assert_eq!(playing.len(), count - count % 2);
        for club in &clubs {
            if !playing.contains(club.as_str()) {
                *byes.entry(club).or_default() += 1;
            }
        }
    }
    for home in &clubs {
        assert_eq!(home_counts[home], count - 1);
        assert_eq!(away_counts[home], count - 1);
        if count % 2 != 0 {
            assert_eq!(byes[home], 2);
        }
        for away in &clubs {
            if home != away {
                assert!(pairs.contains(&(home, away)));
            }
        }
    }
}

#[test]
fn even_and_odd_fields_cover_every_ordered_pair_and_balance_venues() {
    for count in [2, 3, 4, 5, 8, 127, 128] {
        assert_calendar(count);
    }
}

#[test]
fn input_permutations_and_repeated_seeds_are_deterministic() {
    let clubs = ids(5);
    let expected = double_round_robin(&clubs, 0, 1, u64::MAX).unwrap();
    let mut permuted = clubs.clone();
    for _ in 0..clubs.len() {
        permuted.rotate_left(1);
        assert_eq!(
            expected,
            double_round_robin(&permuted, 0, 1, u64::MAX).unwrap()
        );
    }
    permuted.reverse();
    assert_eq!(
        expected,
        double_round_robin(&permuted, 0, 1, u64::MAX).unwrap()
    );
    let changed = double_round_robin(&clubs, 0, 1, 1).unwrap();
    assert_ne!(expected[0].seed, changed[0].seed);
}

#[test]
fn rejects_invalid_fields_spacing_and_overflow() {
    for clubs in [
        vec![],
        ids(1),
        ids(129),
        vec!["x".into(), "x".into()],
        vec!["x".into(), " \t".into()],
    ] {
        assert!(double_round_robin(&clubs, 0, 1, 0).is_err());
    }
    assert!(double_round_robin(&ids(2), 0, 0, 0).is_err());
    assert!(double_round_robin(&ids(2), u32::MAX, 1, 0).is_err());
    assert!(double_round_robin(&ids(3), 0, u32::MAX, 0).is_err());
    let boundary = double_round_robin(&ids(2), u32::MAX - 1, 1, 0).unwrap();
    assert_eq!(boundary.last().unwrap().day, u32::MAX);
}

#[test]
fn first_fixtures_follow_text_order_and_exact_messages() {
    let clubs = vec!["b".to_string(), "a".to_string(), "c".to_string(), "d".to_string()];
    let fixtures = double_round_robin(&clubs, 10, 2, 0).unwrap();
    assert_eq!(fixtures[0].id, "round-robin-00001");
    assert_eq!(fixtures[11].id, "round-robin-00012");
    assert_eq!((fixtures[0].home.as_str(), fixtures[0].away.as_str()), ("a", "d"));
    assert_eq!((fixtures[1].home.as_str(), fixtures[1].away.as_str()), ("b", "c"));
    assert_eq!(fixtures[0].day, 10);
    assert_eq!(fixtures[2].day, 12);
    assert_eq!(
        double_round_robin(&ids(1), 0, 1, 0),
        Err("calendar requires between 2 and 128 clubs".to_string())
    );
    assert_eq!(
        double_round_robin(&ids(2), 0, 0, 0),
        Err("calendar spacing must be positive".to_string())
    );
    assert_eq!(
        double_round_robin(&["x".to_string(), "x".to_string()], 0, 1, 0),
        Err("calendar club IDs must be nonblank and distinct".to_string())
    );
    assert_eq!(
        double_round_robin(&ids(2), u32::MAX, 1, 0),
        Err("calendar day overflow".to_string())
    );
}

#[test]
fn competitions_restart_on_their_next_anniversary() {
    let d = |t: &str| Date::parse(t).unwrap();
    assert_eq!(next_start(d("2026-06-01"), 8, 1), Ok(d("2026-08-01")));
    assert_eq!(next_start(d("2026-06-01"), 6, 1), Ok(d("2026-06-01")));
    assert_eq!(next_start(d("2026-06-01"), 5, 1), Ok(d("2027-05-01")));
    assert_eq!(next_start(d("2026-06-01"), 2, 29), Err("Invalid competition start date".into()));
    assert_eq!(next_start(d("2024-03-01"), 2, 29), Err("Invalid next competition start date".into()));
    assert_eq!(next_start(d("2026-06-01"), 13, 1), Err("Invalid competition start date".into()));
}
