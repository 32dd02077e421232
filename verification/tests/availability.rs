use management::availability::{apply_match_injury, training_injury_event};
use rand::rngs::StdRng;
use rand::{RngExt, SeedableRng};
use management::availability::{
    eligible_training_candidates, fitness_multiplier_tenths, training_injury_pick, training_injury_event_id, Availability,
    Injury, InjuryCandidate,
};

#[test]
fn recovery_keeps_source_duration_boundaries_and_does_not_clear_cards() {
    for (days, remaining) in [
        (0, None),
        (1, None),
        (2, Some(1)),
        (u32::MAX, Some(u32::MAX - 1)),
    ] {
        let mut state = Availability {
            injury: Some(Injury {
                name: "existing".into(),
                days_remaining: days,
            }),
            yellow_cards: 5,
            red_cards: 1,
        };
        assert!(!state.is_available());
        assert_eq!(state.progress_recovery(), remaining.is_none());
        assert_eq!(state.injury.map(|injury| injury.days_remaining), remaining);
        assert_eq!((state.yellow_cards, state.red_cards), (5, 1));
    }
    assert!(!Availability::default().progress_recovery());
}

#[test]
fn cards_remain_stats_not_invented_suspensions_and_reset_preserves_injury() {
    let mut state = Availability::default();
    state.add_match_cards(5, 1).unwrap();
    assert!(state.is_available());
    assert_eq!((state.yellow_cards, state.red_cards), (5, 1));
    state.injury = Some(Injury {
        name: "existing".into(),
        days_remaining: 3,
    });
    state.reset_season_cards();
    assert_eq!((state.yellow_cards, state.red_cards), (0, 0));
    assert_eq!(state.injury.as_ref().unwrap().days_remaining, 3);
    assert!(!state.is_available());
    state.red_cards = u32::MAX;
    let before = state.clone();
    assert!(state.add_match_cards(1, 1).is_err());
    assert_eq!(state, before);
}

#[test]
fn fitness_thresholds_are_exact() {
    for (fitness, multiplier) in [
        (0, 3.0),
        (29, 3.0),
        (30, 2.0),
        (49, 2.0),
        (50, 1.5),
        (69, 1.5),
        (70, 1.0),
        (89, 1.0),
        (90, 0.7),
        (100, 0.7),
    ] {
        assert_eq!(f64::from(fitness_multiplier_tenths(fitness)) / 10.0, multiplier);
    }
}

#[test]
fn blank_injury_names_are_invalid() {
    let mut state = Availability::default();
    assert!(state.validate().is_ok());
    state.injury = Some(Injury { name: " \t\u{3000}".into(), days_remaining: 0 });
    assert!(state.validate().is_err());
    state.injury = Some(Injury { name: " x ".into(), days_remaining: 0 });
    assert!(state.validate().is_ok());
}

#[test]
fn training_candidates_are_validated_and_filtered_in_order() {
    let healthy = Availability::default();
    let injured = Availability {
        injury: Some(Injury { name: "existing".into(), days_remaining: 4 }),
        ..Availability::default()
    };
    let candidates = [
        InjuryCandidate { player_id: "injured", fitness: 0, availability: &injured },
        InjuryCandidate { player_id: "a", fitness: 20, availability: &healthy },
        InjuryCandidate { player_id: "b", fitness: 100, availability: &healthy },
    ];
    assert_eq!(eligible_training_candidates(&candidates).unwrap(), vec![1, 2]);
    let duplicate = [
        InjuryCandidate { player_id: "a", fitness: 20, availability: &healthy },
        InjuryCandidate { player_id: "a", fitness: 30, availability: &healthy },
    ];
    assert!(eligible_training_candidates(&duplicate).is_err());
    let blank = [InjuryCandidate { player_id: " ", fitness: 20, availability: &healthy }];
    assert!(eligible_training_candidates(&blank).is_err());
    let unfit = [InjuryCandidate { player_id: "a", fitness: 101, availability: &healthy }];
    assert!(eligible_training_candidates(&unfit).is_err());
    assert_eq!(
        training_injury_event_id("a", "2026-06-01"),
        "training_injury_a_2026-06-01"
    );
}

#[test]
fn match_injuries_only_strike_the_uninjured() {
    let mut rng = rand::rngs::StdRng::seed_from_u64(3);
    let mut state = Availability::default();
    assert!(apply_match_injury(&mut state, &mut rng));
    let injury = state.injury.clone().unwrap();
    assert!((5..=21).contains(&injury.days_remaining));
    assert!(injury.name.starts_with("common.injuries."));
    assert!(!apply_match_injury(&mut state, &mut rng));
    assert_eq!(state.injury, Some(injury));
}

#[test]
fn training_events_are_deduplicated_by_identity() {
    let mut rng = rand::rngs::StdRng::seed_from_u64(9);
    let event = training_injury_event("p1", "2026-06-01", &vec![], &mut rng).unwrap();
    assert_eq!(event.id, "training_injury_p1_2026-06-01");
    assert_eq!(event.player_id, "p1");
    assert!((3..=14).contains(&event.injury.days_remaining));
    assert_eq!(
        training_injury_event("p1", "2026-06-01", &vec![event.id.clone()], &mut rng),
        None
    );
}

const NAMES: [&str; 5] = [
    "common.injuries.minorMuscleStrain",
    "common.injuries.twistedAnkle",
    "common.injuries.kneeBruise",
    "common.injuries.hamstringTightness",
    "common.injuries.calfStrain",
];

fn multiplier(fitness: u8) -> f64 {
    f64::from(fitness_multiplier_tenths(fitness)) / 10.0
}

fn roll_match(
    state: &mut Availability,
    fitness: u8,
    rng: &mut StdRng,
) -> Result<bool, String> {
    if fitness > 100 {
        return Err("Injury fitness must be 0..=100".into());
    }
    if state.injury.is_some() {
        return Ok(false);
    }
    if !rng.random_bool((1.0_f64 / 40.0 * multiplier(fitness)).min(1.0)) {
        return Ok(false);
    }
    Ok(apply_match_injury(state, rng))
}

fn roll_training(
    candidates: &[InjuryCandidate<'_>],
    has_scheduled_match: bool,
    date: &str,
    existing: &[String],
    rng: &mut StdRng,
) -> Result<Option<management::availability::InjuryEvent>, String> {
    let player = match training_injury_pick(candidates, has_scheduled_match, rng)? {
        Some(k) => &candidates[k],
        None => return Ok(None),
    };
    if !rng.random_bool((1.0_f64 / 50.0 * multiplier(player.fitness)).min(1.0)) {
        return Ok(None);
    }
    Ok(training_injury_event(player.player_id, date, &existing.to_vec(), rng))
}

#[test]
fn match_helper_matches_source_seeded_draws_and_skips_existing_injury() {
    let mut hits = 0;
    for seed in 0..2048 {
        let mut rng = StdRng::seed_from_u64(seed);
        let mut reference = StdRng::seed_from_u64(seed);
        let hit = reference.random_bool((1.0_f64 / 40.0 * 3.0).min(1.0));
        let expected = if hit {
            let days = reference.random_range(5..=21);
            let name = NAMES[reference.random_range(0..5)];
            Some(Injury {
                name: name.into(),
                days_remaining: days,
            })
        } else {
            None
        };
        let mut state = Availability::default();
        assert_eq!(roll_match(&mut state, 20, &mut rng).unwrap(), hit);
        assert_eq!(state.injury, expected);
        assert_eq!(rng.random::<u64>(), reference.random::<u64>());
        hits += usize::from(hit);
        if hit {
            let before = state.clone();
            let mut untouched = StdRng::seed_from_u64(seed);
            let mut skip_rng = StdRng::seed_from_u64(seed);
            assert!(!roll_match(&mut state, 20, &mut skip_rng).unwrap());
            assert_eq!(state, before);
            assert_eq!(skip_rng.random::<u64>(), untouched.random::<u64>());
        }
    }
    assert!(hits > 0);
}

#[test]
fn training_event_selects_one_eligible_player_and_deduplicates_after_risk_draw() {
    let healthy = Availability::default();
    let injured = Availability {
        injury: Some(Injury {
            name: "existing".into(),
            days_remaining: 4,
        }),
        ..Availability::default()
    };
    let candidates = [
        InjuryCandidate {
            player_id: "injured",
            fitness: 0,
            availability: &injured,
        },
        InjuryCandidate {
            player_id: "a",
            fitness: 20,
            availability: &healthy,
        },
        InjuryCandidate {
            player_id: "b",
            fitness: 100,
            availability: &healthy,
        },
    ];
    let mut hits = 0;
    for seed in 0..2048 {
        let mut rng = StdRng::seed_from_u64(seed);
        let mut reference = StdRng::seed_from_u64(seed);
        let chosen = reference.random_range(0..2_usize);
        let factor = if chosen == 0 { 3.0 } else { 0.7 };
        let hit = reference.random_bool((1.0_f64 / 50.0 * factor).min(1.0));
        let event = roll_training(&candidates, false, "2026-06-01", &[], &mut rng).unwrap();
        assert_eq!(event.is_some(), hit);
        if let Some(event) = event {
            hits += 1;
            assert_eq!(event.player_id, if chosen == 0 { "a" } else { "b" });
            let mut dedup_rng = StdRng::seed_from_u64(seed);
            assert!(roll_training(
                &candidates,
                false,
                "2026-06-01",
                &[event.id.clone()],
                &mut dedup_rng
            )
            .unwrap()
            .is_none());
            let mut after_probability = StdRng::seed_from_u64(seed);
            let _ = after_probability.random_range(0..2_usize);
            let _ = after_probability.random_bool((1.0_f64 / 50.0 * factor).min(1.0));
            assert_eq!(dedup_rng.random::<u64>(), after_probability.random::<u64>());
            assert_eq!(event.injury.days_remaining, reference.random_range(3..=14));
            assert_eq!(event.injury.name, NAMES[reference.random_range(0..5)]);
        }
        assert_eq!(rng.random::<u64>(), reference.random::<u64>());
    }
    assert!(hits > 0);
}

#[test]
fn scheduled_match_empty_candidates_and_invalid_inputs_consume_no_rng() {
    let healthy = Availability::default();
    let candidates = [InjuryCandidate {
        player_id: "a",
        fitness: 70,
        availability: &healthy,
    }];
    let mut rng = StdRng::seed_from_u64(42);
    let mut untouched = StdRng::seed_from_u64(42);
    assert!(roll_training(&candidates, true, "2026-06-01", &[], &mut rng)
        .unwrap()
        .is_none());
    assert!(roll_training(&[], false, "2026-06-01", &[], &mut rng)
        .unwrap()
        .is_none());
    assert!(roll_match(&mut Availability::default(), 101, &mut rng).is_err());
    assert_eq!(rng.random::<u64>(), untouched.random::<u64>());
}

#[test]
fn an_injury_lasts_exactly_its_days_and_later_ticks_clear_nothing() {
    let mut state = Availability {
        injury: Some(Injury {
            name: "knee".into(),
            days_remaining: 3,
        }),
        yellow_cards: 2,
        red_cards: 1,
    };
    assert!(!state.progress_recovery());
    assert_eq!(state.injury.as_ref().unwrap().days_remaining, 2);
    assert!(!state.progress_recovery());
    assert_eq!(state.injury.as_ref().unwrap().days_remaining, 1);
    assert!(state.progress_recovery());
    assert!(state.injury.is_none());
    assert!(!state.progress_recovery());
    assert!(state.injury.is_none());
    assert_eq!((state.yellow_cards, state.red_cards), (2, 1));
}
