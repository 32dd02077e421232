use management::facilities::{
    confirm_upgrade, finance_health, medical_recovery_tenths, review_upgrade,
    scouting_assignment_days, FacilityType, Facilities, Finance, Health, UpgradeConfirmation,
};

fn cash() -> Finance {
    Finance {
        balance: 100_000_000,
        season_expenses: 0,
        wage_bill: 100_000,
        wage_budget: 1_000_000,
        projected_weekly_net: 0,
    }
}

#[test]
fn approved_patch_training_scouting_caps_and_day_effect() {
    for (facility, max) in [(FacilityType::Training, 6), (FacilityType::Scouting, 3)] {
        let mut facilities = Facilities::default();
        match facility {
            FacilityType::Training => facilities.training = 0,
            _ => facilities.scouting = 0,
        }
        let preview = review_upgrade(&facilities, facility, &cash()).unwrap();
        assert_eq!((preview.cost, preview.level_after), (250_000, 2));
        match facility {
            FacilityType::Training => facilities.training = max,
            _ => facilities.scouting = max,
        }
        assert_eq!(
            review_upgrade(&facilities, facility, &cash()).unwrap_err(),
            "be.error.facilityUpgradeMaxLevel"
        );
    }
    assert_eq!(scouting_assignment_days(5, 1), 5);
    assert_eq!(scouting_assignment_days(5, 3), 3);
    assert_eq!(scouting_assignment_days(2, 255), 1);
}

#[test]
fn exact_cost_and_effect_include_source_level_zero_and_255_behavior() {
    for (before, after, cost) in [
        (0, 1, 0),
        (1, 2, 250_000),
        (10, 11, 2_500_000),
        (255, 255, 63_750_000),
    ] {
        let mut facilities = Facilities {
            medical: before,
            ..Default::default()
        };
        let mut finance = cash();
        let preview = review_upgrade(&facilities, FacilityType::Medical, &finance).unwrap();
        assert_eq!(preview.cost, cost);
        assert_eq!(facilities.medical, before);
        assert_eq!(
            confirm_upgrade(&mut facilities, &mut finance, &preview).unwrap(),
            UpgradeConfirmation::Applied
        );
        assert_eq!(facilities.medical, after);
        assert_eq!(finance.balance, 100_000_000 - cost);
        assert_eq!(finance.season_expenses, cost);
    }
    assert_eq!(
        f64::from(medical_recovery_tenths(&Facilities {
            medical: 11,
            ..Default::default()
        })) / 10.0,
        2.0
    );
}

#[test]
fn finance_health_gates_runway_and_budget_before_available_cash() {
    let facilities = Facilities::default();
    let mut finance = cash();
    finance.wage_bill = finance.wage_budget + 1;
    assert_eq!(
        review_upgrade(&facilities, FacilityType::Training, &finance).unwrap_err(),
        "be.error.finance.facilityUpgradeOverBudget"
    );
    finance.wage_bill = 0;
    finance.balance = 8_000_000;
    finance.projected_weekly_net = -1_000_000;
    assert_eq!(finance_health(&finance), Health::Warning);
    assert_eq!(
        review_upgrade(&facilities, FacilityType::Scouting, &finance).unwrap_err(),
        "be.error.finance.facilityUpgradeCritical"
    );
    finance.balance = 9_000_000;
    assert_eq!(finance_health(&finance), Health::Watch);
    assert!(review_upgrade(&facilities, FacilityType::Scouting, &finance).is_ok());
    finance.projected_weekly_net = 0;
    finance.balance = 249_999;
    assert!(review_upgrade(&facilities, FacilityType::Scouting, &finance)
        .unwrap_err()
        .contains("InsufficientFunds"));
    finance.balance = 250_000;
    assert!(review_upgrade(&facilities, FacilityType::Scouting, &finance).is_ok());
}

#[test]
fn stale_preview_refreshes_and_overflow_is_atomic() {
    let mut facilities = Facilities::default();
    let mut finance = cash();
    let preview = review_upgrade(&facilities, FacilityType::Training, &finance).unwrap();
    finance.balance -= 100;
    assert!(matches!(
        confirm_upgrade(&mut facilities, &mut finance, &preview).unwrap(),
        UpgradeConfirmation::RefreshRequired(_)
    ));
    assert_eq!(facilities.training, 1);
    assert_eq!(finance.season_expenses, 0);
    finance.season_expenses = i64::MAX;
    assert!(review_upgrade(&facilities, FacilityType::Training, &finance).is_err());
    assert_eq!(facilities.training, 1);
    finance.projected_weekly_net = i64::MIN;
    assert_eq!(finance_health(&finance), Health::Critical);
}

#[test]
fn a_fresh_preview_confirms_and_spends_exactly_its_cost() {
    let mut facilities = Facilities::default();
    let mut finance = cash();
    let preview = review_upgrade(&facilities, FacilityType::Scouting, &finance).unwrap();
    assert_eq!(
        confirm_upgrade(&mut facilities, &mut finance, &preview).unwrap(),
        UpgradeConfirmation::Applied
    );
    assert_eq!(facilities.scouting, 2);
    assert_eq!(finance.balance, 100_000_000 - 250_000);
}
