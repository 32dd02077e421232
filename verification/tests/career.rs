use management::career::{
    signing_shirt,
    contract_preview, contract_wage_total, signed_contract, wage_usage_percent, weekly_wage_charge,
    CareerError, ContractAction, ContractDependencies,
};
use management::contracts::{Decision, PlayerContract, WageTerms};
use management::dates::Date;

fn date(text: &str) -> Date {
    Date::parse(text).unwrap()
}

fn contract(end: Option<Date>) -> PlayerContract {
    PlayerContract::new(date("2000-01-01"), 10_000, end, 500_000, 70, 60)
}

fn figures(c: PlayerContract, squad_size: u64) -> ContractDependencies {
    ContractDependencies {
        date: date("2026-06-01"),
        balance: 1_000_000,
        contract: c,
        negotiation: c,
        wage_total: 500_000,
        wage_budget: 1_000_000,
        squad_size,
    }
}

fn terms() -> Result<WageTerms, String> {
    Ok(WageTerms { expected: 10_000, insult_floor: 6_500, minimum: 8_500 })
}

#[test]
fn every_action_names_its_player() {
    let renew = ContractAction::Renew { player_id: "a".into(), weekly_wage: 1, years: 1 };
    let sign = ContractAction::Sign { player_id: "b".into(), weekly_wage: 1, years: 1 };
    let end = ContractAction::Terminate { player_id: "c".into() };
    assert_eq!((renew.player_id(), sign.player_id(), end.player_id()), ("a", "b", "c"));
}

#[test]
fn termination_pays_the_started_weeks_and_frees_the_wage() {
    let c = contract(Some(date("2026-08-10")));
    let action = ContractAction::Terminate { player_id: "p".into() };
    let (preview, after, decision) = contract_preview(9, &action, &figures(c, 12), terms()).unwrap();
    assert_eq!(decision, Decision::Accepted);
    assert_eq!(preview.id, 9);
    assert_eq!(preview.player_id, "p");
    assert_eq!(preview.severance, 100_000);
    assert_eq!(preview.balance_after, 900_000);
    assert_eq!(preview.projected_wage_total, 490_000);
    assert_eq!(preview.contract_end, None);
    assert_eq!(after.end_date, None);
}

#[test]
fn termination_needs_a_contract_and_a_big_enough_squad() {
    let action = ContractAction::Terminate { player_id: "p".into() };
    assert_eq!(
        contract_preview(1, &action, &figures(contract(None), 12), terms()),
        Err(CareerError::Contract("Player has no active contract".into()))
    );
    let c = contract(Some(date("2027-01-01")));
    assert_eq!(
        contract_preview(1, &action, &figures(c, 11), terms()),
        Err(CareerError::SquadTooSmall)
    );
}

#[test]
fn an_agreed_renewal_takes_the_new_wage_and_end_date() {
    let c = contract(Some(date("2029-01-01")));
    let action = ContractAction::Renew { player_id: "p".into(), weekly_wage: 12_000, years: 3 };
    let (preview, after, decision) = contract_preview(4, &action, &figures(c, 20), terms()).unwrap();
    assert_eq!(decision, Decision::Accepted);
    assert_eq!(preview.projected_wage_total, 502_000);
    assert_eq!(preview.balance_after, 1_000_000);
    assert_eq!(preview.severance, 0);
    assert_eq!(preview.contract_end, Some(date("2029-06-01")));
    assert_eq!(after.weekly_wage, 12_000);
    assert_eq!(after.last_agreed, Some(date("2026-06-01")));
}

#[test]
fn the_wage_policy_can_refuse_an_agreed_renewal() {
    let c = contract(Some(date("2029-01-01")));
    let mut dep = figures(c, 20);
    dep.wage_budget = 100_000;
    dep.wage_total = 200_000;
    let action = ContractAction::Renew { player_id: "p".into(), weekly_wage: 50_000, years: 3 };
    assert_eq!(
        contract_preview(4, &action, &dep, terms()),
        Err(CareerError::Contract("Board wage policy refuses these terms".into()))
    );
}

#[test]
fn a_counter_offer_leaves_the_figures_alone() {
    let c = contract(Some(date("2029-01-01")));
    let action = ContractAction::Renew { player_id: "p".into(), weekly_wage: 9_000, years: 3 };
    let (preview, after, decision) = contract_preview(4, &action, &figures(c, 20), terms()).unwrap();
    assert_eq!(decision, Decision::Counter { weekly_wage: 10_000, years: 3 });
    assert_eq!(preview.projected_wage_total, 500_000);
    assert_eq!(preview.contract_end, Some(date("2029-01-01")));
    assert_eq!(after.weekly_wage, 10_000);
    assert_eq!(after.round, 1);
}

#[test]
fn uncomputable_terms_refuse_the_review() {
    let c = contract(Some(date("2029-01-01")));
    let action = ContractAction::Sign { player_id: "p".into(), weekly_wage: 9_000, years: 3 };
    let refused = contract_preview(4, &action, &figures(c, 20), Err("Contract wage overflow".into()));
    assert_eq!(refused, Err(CareerError::Contract("Contract wage overflow".into())));
}

#[test]
fn signing_lifts_morale_and_trust_and_clears_negotiation_memory() {
    let mut c = contract(None);
    c.morale = 97;
    c.manager_trust = 40;
    c.round = 3;
    c.last_attempt = Some(date("2026-06-01"));
    c.unresolved_issue = true;
    let s = signed_contract(c);
    assert_eq!((s.morale, s.manager_trust, s.round), (100, 55, 0));
    assert_eq!((s.last_attempt, s.last_agreed), (None, None));
    assert!(s.unresolved_issue);
    c.morale = 50;
    c.manager_trust = 70;
    let s = signed_contract(c);
    assert_eq!((s.morale, s.manager_trust), (56, 70));
}

#[test]
fn wage_totals_add_players_and_staff_and_refuse_overflow() {
    assert_eq!(contract_wage_total(&[]), Ok(0));
    assert_eq!(contract_wage_total(&[1_000, 2_500, 30_000]), Ok(33_500));
    assert_eq!(
        contract_wage_total(&[u32::MAX, u32::MAX]),
        Ok(2 * u64::from(u32::MAX))
    );
}

#[test]
fn weekly_charge_divides_each_wage_by_fifty_two_before_adding() {
    assert_eq!(weekly_wage_charge(&[]), Some(0));
    // 51 / 52 rounds to nothing on its own, even when several are charged.
    assert_eq!(weekly_wage_charge(&[51, 51, 51]), Some(0));
    assert_eq!(weekly_wage_charge(&[52_000, 104, 155]), Some(1_000 + 2 + 2));
}

#[test]
fn wage_usage_is_whole_percent_of_a_budget_of_at_least_one() {
    assert_eq!(wage_usage_percent(50, 200), 25);
    assert_eq!(wage_usage_percent(199, 200), 99);
    assert_eq!(wage_usage_percent(7, 0), 700);
    assert_eq!(wage_usage_percent(u64::MAX, 1), u32::MAX);
}

#[test]
fn signing_keeps_a_free_shirt_number_or_takes_the_lowest_free_one() {
    assert_eq!(signing_shirt(Some(9), &vec![1, 2, 3]), Some(9));
    assert_eq!(signing_shirt(Some(2), &vec![1, 2, 3]), Some(4));
    assert_eq!(signing_shirt(None, &vec![2, 3]), Some(1));
    let all: Vec<u8> = (1..=99).collect();
    assert_eq!(signing_shirt(Some(5), &all), None);
}

