use management::career::CareerError;
use management::contracts::PlayerContract;
use management::dates::Date;
use management::delegated_contracts::{
    delegated_case, delegation_candidate, AssistantRatings, CaseNote, CaseStatus, Delegation,
    SessionOutcome, SessionStatus,
};

fn date(text: &str) -> Date {
    Date::parse(text).unwrap()
}

fn contract() -> PlayerContract {
    // Born 2000, so 26 on the day below: three expected years.
    PlayerContract::new(date("2000-01-01"), 10_000, Some(date("2026-03-01")), 500_000, 90, 90)
}

fn great() -> AssistantRatings {
    AssistantRatings {
        coaching: 100,
        judging_ability: 100,
        judging_potential: 100,
    }
}

fn options(pct: u32, years: u32) -> Delegation {
    Delegation {
        player_ids: None,
        max_wage_increase_pct: pct,
        max_contract_years: years,
    }
}

#[test]
fn good_assistant_agrees_within_limits() {
    let today = date("2026-01-01");
    // Score: 100 + 30 + 45 + 14 (59 days left) = 189.
    let case = delegated_case(
        &contract(),
        today,
        12_000,
        false,
        false,
        None,
        great(),
        &options(100, 5),
        100_000,
        1_000_000,
        0,
    )
    .unwrap();
    assert_eq!(case.status, CaseStatus::Successful);
    assert_eq!(case.note, CaseNote::Completed);
    assert_eq!(case.session_status, Some(SessionStatus::Agreed));
    assert_eq!(case.session_outcome, Some(SessionOutcome::AcceptedByAssistant));
    assert_eq!(case.expected_years, 3);
    assert_eq!(case.agreed_wage, Some(12_000));
    assert_eq!(case.agreed_years, Some(3));
}

#[test]
fn limits_and_exit_intent_are_not_overridden_by_a_good_assistant() {
    let today = date("2026-01-01");
    // No raise allowed: the cap is the current 10,000 below the expected 12,000.
    let stalled = delegated_case(
        &contract(),
        today,
        12_000,
        false,
        false,
        None,
        great(),
        &options(0, 1),
        100_000,
        1_000_000,
        0,
    )
    .unwrap();
    assert_eq!(stalled.status, CaseStatus::Stalled);
    assert_eq!(stalled.note, CaseNote::BeyondLimits);
    assert_eq!(stalled.agreed_wage, None);
    let mut expiring = contract();
    expiring.let_expire = true;
    let failed = delegated_case(
        &expiring,
        today,
        12_000,
        false,
        false,
        None,
        great(),
        &options(0, 1),
        100_000,
        1_000_000,
        0,
    )
    .unwrap();
    assert_eq!(failed.status, CaseStatus::Failed);
    assert_eq!(failed.note, CaseNote::MarkedLetExpire);
    assert_eq!(failed.session_status, None);
    let exit = delegated_case(
        &contract(),
        today,
        12_000,
        true,
        false,
        None,
        great(),
        &options(100, 5),
        100_000,
        1_000_000,
        0,
    )
    .unwrap();
    assert_eq!(exit.note, CaseNote::MarkedLetExpire);
}

#[test]
fn blocks_board_policy_weak_assistants_and_overflow() {
    let today = date("2026-01-01");
    let blocked = delegated_case(
        &contract(), today, 12_000, false, true, None, great(), &options(100, 5), 100_000, 1_000_000, 0,
    )
    .unwrap();
    assert_eq!(blocked.note, CaseNote::ManagerBlocked);
    // A raise to 50,000 takes a bill of 90,000 past 110% of a 90,000 budget.
    let board = delegated_case(
        &contract(), today, 50_000, false, false, None, great(), &options(1_000, 5), 90_000, 90_000, 0,
    )
    .unwrap();
    assert_eq!(board.note, CaseNote::BoardWagePolicy);
    assert_eq!(board.status, CaseStatus::Stalled);
    let middling = AssistantRatings {
        coaching: 0,
        judging_ability: 0,
        judging_potential: 0,
    };
    // Score 0 + 30 + 45 + 14 = 89: left for the manager.
    let prefers = delegated_case(
        &contract(), today, 12_000, false, false, None, middling, &options(100, 5), 100_000, 1_000_000, 0,
    )
    .unwrap();
    assert_eq!(prefers.note, CaseNote::PrefersManager);
    assert_eq!(prefers.session_status, Some(SessionStatus::Open));
    // An unresolved issue of severity 40 takes 20 more: 69, refused by the player.
    let refused = delegated_case(
        &contract(), today, 12_000, false, false, Some(40), middling, &options(100, 5), 100_000, 1_000_000, 0,
    )
    .unwrap();
    assert_eq!(refused.note, CaseNote::RelationshipBlocked);
    assert_eq!(refused.session_outcome, Some(SessionOutcome::RejectedByPlayer));
    assert_eq!(
        delegated_case(
            &contract(), today, 12_000, false, false, None, great(), &options(u32::MAX, 5), 100_000, 1_000_000, 0,
        ),
        Err(CareerError::Overflow)
    );
}

#[test]
fn selected_players_or_those_under_warning_are_taken() {
    let today = date("2026-01-01");
    let c = contract();
    assert!(delegation_candidate(&c, today, false, &None, "p"));
    assert!(!delegation_candidate(&c, today, true, &None, "p"));
    let mut far = contract();
    far.end_date = Some(date("2028-01-01"));
    assert!(!delegation_candidate(&far, today, false, &None, "p"));
    let chosen = Some(vec!["p".to_string()]);
    assert!(delegation_candidate(&far, today, true, &chosen, "p"));
    assert!(!delegation_candidate(&far, today, false, &chosen, "q"));
    let mut none = contract();
    none.end_date = None;
    assert!(!delegation_candidate(&none, today, false, &chosen, "p"));
}
