use management::contract_social::{
    let_expire_talks_after, renewal_talks_for_decision, sync_contract_social, ContractChange,
    IssueCategory, SocialContractRecord,
};
use management::contracts::{Decision, PlayerContract};
use management::dates::Date;
use management::inbox::conversations::{
    ContractExitIntent, ContractRenewalState, RenewalSessionOutcome, RenewalSessionStatus,
};

fn date(text: &str) -> Date {
    Date::parse(text).unwrap()
}

fn contract() -> PlayerContract {
    PlayerContract::new(date("2000-01-01"), 12_000, Some(date("2029-06-30")), 500_000, 77, 66)
}

fn record() -> SocialContractRecord {
    SocialContractRecord {
        team_id: None,
        wage: 0,
        contract_end: None,
        jersey_number: Some(7),
        transfer_listed: true,
        loan_listed: true,
        transfer_offers: vec!["offer".into()],
        morale: 40,
        manager_trust: 30,
        unresolved_issue: Some(IssueCategory::Contract),
        renewal: None,
        signings: vec![],
    }
}

#[test]
fn let_expire_blocks_talks_and_clearing_reopens_only_what_it_blocked() {
    let today = date("2026-06-01");
    let set = let_expire_talks_after(None, true, today).unwrap();
    assert_eq!(set.status, RenewalSessionStatus::Blocked);
    assert_eq!(set.last_outcome, Some(RenewalSessionOutcome::BlockedByManager));
    assert_eq!(set.last_attempt_date, Some("2026-06-01".into()));
    assert_eq!(
        set.exit_intent,
        Some(ContractExitIntent::LetExpire { set_on: "2026-06-01".into(), reason: None })
    );
    let cleared = let_expire_talks_after(Some(set), false, today).unwrap();
    assert_eq!(cleared.status, RenewalSessionStatus::Idle);
    assert_eq!(cleared.exit_intent, None);
    assert_eq!(cleared.last_outcome, None);
    assert_eq!(cleared.last_attempt_date, Some("2026-06-01".into()));
    let open = ContractRenewalState {
        status: RenewalSessionStatus::Open,
        manager_blocked_until: Some("2026-07-01".into()),
        last_outcome: Some(RenewalSessionOutcome::Stalled),
        exit_intent: None,
        last_attempt_date: None,
        conversation_round: 2,
    };
    assert_eq!(let_expire_talks_after(Some(open.clone()), false, today), Some(open));
    assert_eq!(let_expire_talks_after(None, false, today), None);
}

#[test]
fn renewal_answers_move_the_talks_and_take_the_contract_dates() {
    let mut c = contract();
    c.last_attempt = Some(date("2026-06-01"));
    c.round = 300;
    let counter = Decision::Counter { weekly_wage: 12_000, years: 3 };
    let talks = renewal_talks_for_decision(None, &counter, &c).unwrap();
    assert_eq!(talks.status, RenewalSessionStatus::Open);
    assert_eq!(talks.last_outcome, Some(RenewalSessionOutcome::Stalled));
    assert_eq!(talks.last_attempt_date, Some("2026-06-01".into()));
    assert_eq!(talks.conversation_round, 255);
    c.blocked_until = Some(date("2026-07-01"));
    let blocked = Decision::Rejected {
        reason: "Insulting offer".into(),
        blocked_until: Some(date("2026-07-01")),
    };
    let talks = renewal_talks_for_decision(None, &blocked, &c).unwrap();
    assert_eq!(talks.status, RenewalSessionStatus::Blocked);
    assert_eq!(talks.last_outcome, Some(RenewalSessionOutcome::BlockedByManager));
    assert_eq!(talks.manager_blocked_until, Some("2026-07-01".into()));
    let refused = Decision::Rejected { reason: "Below minimum".into(), blocked_until: None };
    let talks = renewal_talks_for_decision(None, &refused, &c).unwrap();
    assert_eq!(talks.status, RenewalSessionStatus::Stalled);
    assert_eq!(talks.last_outcome, Some(RenewalSessionOutcome::RejectedByPlayer));
    let no_attempt = Decision::Rejected { reason: "Already agreed today".into(), blocked_until: None };
    assert_eq!(renewal_talks_for_decision(None, &no_attempt, &c), None);
}

#[test]
fn sign_resolves_jersey_and_only_clears_contract_issue_in_both_registries() {
    let today = date("2026-06-02");
    let mut r = record();
    let mut c = contract();
    c.unresolved_issue = true;
    sync_contract_social(&mut r, &mut c, &ContractChange::Signed, today, "a", "A FC", &vec![7, 1]);
    assert_eq!(r.jersey_number, Some(2));
    assert_eq!(r.team_id, Some("a".into()));
    assert_eq!(r.wage, 12_000);
    assert_eq!(r.contract_end, Some("2029-06-30".into()));
    assert!(!r.transfer_listed && !r.loan_listed && r.transfer_offers.is_empty());
    assert_eq!((r.morale, r.manager_trust), (77, 66));
    assert_eq!(r.unresolved_issue, None);
    assert!(!c.unresolved_issue);
    assert_eq!(r.signings.len(), 1);
    assert_eq!(r.signings[0].date, "2026-06-02");
    assert_eq!(r.signings[0].to_team_name, "A FC");
    // A grievance of another kind survives the signing, in both records.
    let mut r = record();
    r.unresolved_issue = Some(IssueCategory::Other);
    let mut c = contract();
    sync_contract_social(&mut r, &mut c, &ContractChange::Signed, today, "a", "A FC", &vec![]);
    assert_eq!(r.jersey_number, Some(7));
    assert_eq!(r.unresolved_issue, Some(IssueCategory::Other));
    assert!(c.unresolved_issue);
}

#[test]
fn renewal_and_termination_update_the_record() {
    let today = date("2026-06-02");
    let mut r = record();
    r.team_id = Some("a".into());
    let mut c = contract();
    c.round = 4;
    sync_contract_social(&mut r, &mut c, &ContractChange::Renewed, today, "a", "A FC", &vec![]);
    let talks = r.renewal.clone().unwrap();
    assert_eq!(talks.status, RenewalSessionStatus::Agreed);
    assert_eq!(talks.last_outcome, Some(RenewalSessionOutcome::AcceptedByManager));
    assert_eq!(talks.conversation_round, 4);
    assert_eq!(r.wage, 12_000);
    let before_listing = r.transfer_listed;
    c.end_date = None;
    sync_contract_social(&mut r, &mut c, &ContractChange::Terminated, today, "a", "A FC", &vec![]);
    assert_eq!(r.team_id, None);
    assert_eq!(r.renewal, None);
    assert_eq!(r.contract_end, None);
    assert_eq!(r.transfer_listed, before_listing);
}
