use management::contracts::{
    round_thousand, wage_policy_allows, Decision, PlayerContract, WageTerms, WarningStage,
};
use management::dates::Date;

fn date(text: &str) -> Date {
    Date::parse(text).unwrap()
}

fn profile() -> PlayerContract {
    PlayerContract::new(
        date("2000-01-01"),
        10_000,
        Some(date("2029-01-01")),
        500_000,
        70,
        60,
    )
}

/// The player's expected wage, in single precision as the rules compute it.
fn expected_wage(p: &PlayerContract, reputation: u32, today: Date) -> Result<u32, String> {
    let reference = p.reference_wage()?;
    let mut wage = reference as f32;
    let age = p.age_on(today);
    if age <= 27 {
        wage *= 1.05;
    } else if age >= 32 {
        wage *= 0.95;
    }
    if p.morale <= 50 {
        wage *= 1.10;
    }
    wage *= if p.market_value >= 2_000_000 {
        1.18
    } else if p.market_value >= 750_000 {
        1.10
    } else if p.market_value <= 150_000 {
        0.95
    } else {
        1.0
    };
    if reputation < 40 {
        wage *= 1.05;
    }
    let remaining = p.remaining_days(today);
    if remaining <= 180 {
        wage *= 1.10;
    } else if remaining <= 365 {
        wage *= 1.05;
    }
    let rounded = wage.ceil();
    if !rounded.is_finite() || f64::from(rounded) > f64::from(u32::MAX) {
        return Err("Contract wage overflow".into());
    }
    Ok(round_thousand(rounded as u32)?.max(reference))
}

fn terms(
    p: &PlayerContract,
    reputation: u32,
    today: Date,
    free_agent: bool,
) -> Result<WageTerms, String> {
    let expected = expected_wage(p, reputation, today)?;
    let reference = if free_agent {
        p.reference_wage()?
    } else {
        p.weekly_wage
    };
    Ok(WageTerms {
        expected,
        insult_floor: ((reference.max(expected) as f32) * 0.65).floor() as u32,
        minimum: ((reference as f32) * 0.85).floor() as u32,
    })
}

fn evaluate(
    p: &mut PlayerContract,
    reputation: u32,
    today: Date,
    wage: u32,
    years: u32,
    free_agent: bool,
) -> Result<Decision, String> {
    let t = terms(p, reputation, today, free_agent);
    p.negotiate(today, wage, years, free_agent, t)
}

#[test]
fn counters_acceptance_and_relationship_are_consequential_but_not_a_commit() {
    let today = date("2026-01-01");
    let mut player = profile();
    assert_eq!(
        evaluate(&mut player, 50, today, 10_000, 2, false).unwrap(),
        Decision::Counter {
            weekly_wage: 11_000,
            years: 3
        }
    );
    assert_eq!(
        evaluate(&mut player, 50, today, 11_000, 3, false).unwrap(),
        Decision::Accepted
    );
    assert_eq!(player.weekly_wage, 10_000);
    assert_eq!(player.end_date, Some(date("2029-01-01")));
    assert!(
        matches!(evaluate(&mut player, 50, today, 20_000, 3, false).unwrap(), Decision::Rejected { reason, .. } if reason == "Already agreed today")
    );
    let mut strained = profile();
    strained.manager_trust = 20;
    assert!(
        matches!(evaluate(&mut strained, 50, today, 12_999, 3, false).unwrap(), Decision::Rejected { reason, .. } if reason == "Manager relationship")
    );
    assert_eq!(
        evaluate(&mut strained, 50, today, 13_000, 3, false).unwrap(),
        Decision::Accepted
    );
}

#[test]
fn insult_floor_block_is_inclusive_and_let_expire_is_indefinite() {
    let today = date("2026-01-01");
    let mut player = profile();
    assert!(matches!(
        evaluate(&mut player, 50, today, 7148, 3, false).unwrap(),
        Decision::Rejected {
            blocked_until: Some(_),
            ..
        }
    ));
    assert!(matches!(
        evaluate(&mut player, 50, date("2026-01-31"), 99_000, 5, false).unwrap(),
        Decision::Rejected { .. }
    ));
    assert_eq!(
        evaluate(&mut player, 50, date("2026-02-01"), 99_000, 5, false).unwrap(),
        Decision::Accepted
    );
    let mut boundary = profile();
    // Single-precision arithmetic floors 11000 * 0.65 to 7149, not 7150.
    assert!(matches!(
        evaluate(&mut boundary, 50, today, 7149, 3, false).unwrap(),
        Decision::Rejected {
            blocked_until: None,
            ..
        }
    ));
    assert!(
        matches!(evaluate(&mut boundary, 50, today, 8499, 3, false).unwrap(),
        Decision::Rejected { reason, .. } if reason == "Below minimum wage")
    );
    assert_eq!(
        evaluate(&mut boundary, 50, today, 8500, 3, false).unwrap(),
        Decision::Counter {
            weekly_wage: 11_000,
            years: 3
        }
    );
    boundary.set_let_expire(today, true).unwrap();
    assert!(matches!(
        evaluate(&mut boundary, 50, date("2027-01-01"), 99_000, 5, false).unwrap(),
        Decision::Rejected { .. }
    ));
    boundary.set_let_expire(date("2027-01-01"), false).unwrap();
    assert_eq!(
        evaluate(&mut boundary, 50, date("2027-01-01"), 99_000, 5, false).unwrap(),
        Decision::Accepted
    );
}

#[test]
fn cooling_and_free_agent_asymmetry_match_pinned_source() {
    let today = date("2026-01-01");
    let mut player = profile();
    evaluate(&mut player, 50, today, 10_000, 2, false).unwrap();
    assert!(!player.cool_stale(date("2026-01-14")));
    assert!(player.cool_stale(date("2026-01-15")));
    assert_eq!(player.round, 0);
    let mut free = profile();
    free.end_date = None;
    free.weekly_wage = 0;
    free.manager_trust = 0;
    evaluate(&mut free, 50, today, 1, 3, true).unwrap();
    assert!(free.blocked_until.is_some());
    assert_eq!(
        evaluate(&mut free, 50, today, 99_000, 5, true).unwrap(),
        Decision::Accepted
    );
}

#[test]
fn calendar_severance_and_warning_boundaries() {
    let mut player = profile();
    player.apply_agreement(date("2024-02-29"), 1234, 1).unwrap();
    assert_eq!(player.end_date, Some(date("2025-02-28")));
    assert_eq!(player.severance(date("2025-02-20")).unwrap(), 2468);
    assert_eq!(player.severance(date("2025-02-21")).unwrap(), 1234);
    assert_eq!(player.severance(date("2025-02-28")).unwrap(), 0);
    let today = date("2026-01-01");
    for (days, expected) in [
        (0, None),
        (30, Some(WarningStage::FinalWeeks)),
        (31, Some(WarningStage::ThreeMonths)),
        (90, Some(WarningStage::ThreeMonths)),
        (91, Some(WarningStage::SixMonths)),
        (180, Some(WarningStage::SixMonths)),
        (181, Some(WarningStage::TwelveMonths)),
        (365, Some(WarningStage::TwelveMonths)),
        (366, None),
    ] {
        player.end_date = today.checked_add_days(days);
        assert_eq!(player.warning_stage(today), expected);
    }
    assert_eq!(
        PlayerContract::new(date("2000-03-01"), 1, None, 0, 50, 50).age_on(date("2025-03-01")),
        24
    );
}

#[test]
fn wage_policy_preserves_soft_cap_and_legacy_grace_not_cash_gate() {
    assert!(wage_policy_allows(-100, 100_000, 100_000, 10_000, 20_000));
    assert!(!wage_policy_allows(999_999, 100_000, 100_000, 10_000, 20_001));
    assert!(wage_policy_allows(0, 100_000, 110_000, 10_000, 35_000));
    assert!(!wage_policy_allows(0, 100_000, 110_000, 10_000, 35_001));
    assert!(wage_policy_allows(0, 1_000_000, 1_100_000, 10_000, 40_000));
    assert!(!wage_policy_allows(0, 1_000_000, 1_100_000, 10_000, 40_001));
    assert!(!wage_policy_allows(0, 100, 0, 1, 1));
    assert!(wage_policy_allows(0, u64::MAX, u64::MAX, 0, u32::MAX));
}

#[test]
fn expected_years_and_reference_wage_boundaries() {
    let mut player = profile();
    assert_eq!(player.expected_years(date("2028-01-01")), 3);
    assert_eq!(player.expected_years(date("2029-01-01")), 2);
    assert_eq!(player.expected_years(date("2033-01-01")), 1);
    player.weekly_wage = 0;
    player.market_value = 0;
    assert_eq!(player.reference_wage().unwrap(), 1000);
    player.market_value = u64::MAX;
    assert!(player.reference_wage().is_err());
}

#[test]
fn invalid_years_and_failed_terms_leave_the_contract_untouched() {
    let today = date("2026-01-01");
    let mut player = profile();
    let before = player;
    assert!(matches!(
        evaluate(&mut player, 50, today, 11_000, 6, false).unwrap(),
        Decision::Rejected { reason, .. } if reason == "Invalid contract years"
    ));
    assert_eq!(player, before);
    assert!(player
        .negotiate(today, 11_000, 3, false, Err("Contract wage overflow".into()))
        .is_err());
    assert_eq!(player, before);
}

#[test]
fn expected_wages_and_years_preserve_source_thresholds() {
    let today = date("2026-01-01");
    let mut player = profile();
    assert_eq!(expected_wage(&player, 40, today).unwrap(), 11_000);
    player.morale = 50;
    player.market_value = 2_000_000;
    player.end_date = Some(date("2026-06-30"));
    assert_eq!(expected_wage(&player, 39, today).unwrap(), 16_000);
    assert_eq!(player.expected_years(date("2028-01-01")), 3);
    assert_eq!(player.expected_years(date("2029-01-01")), 2);
    assert_eq!(player.expected_years(date("2033-01-01")), 1);
    player.weekly_wage = 0;
    player.market_value = 0;
    assert_eq!(player.reference_wage().unwrap(), 1000);
    player.market_value = u64::MAX;
    assert!(player.reference_wage().is_err());
    player.weekly_wage = u32::MAX;
    assert!(expected_wage(&player, 0, today).is_err());
}
