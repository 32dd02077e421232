use management::contracts::PlayerContract;
use management::dates::Date;
use management::market::{
    counter_offer, reject_offer, MarketCommand, MarketError, MarketOffer, Status, Terms,
};
use management::market_rules::{MarketPlayer, MarketTeam, PlayerIssueCategory};

fn date(text: &str) -> Date {
    Date::parse(text).unwrap()
}

fn offer(terms: Terms) -> MarketOffer {
    MarketOffer {
        id: 7,
        player_id: "p".into(),
        seller: "s".into(),
        buyer: "b".into(),
        proposer: "b".into(),
        terms,
        date: date("2026-07-01"),
        revision: 0,
        round: 1,
        status: Status::Pending,
        registration_date: None,
    }
}

fn player() -> MarketPlayer {
    MarketPlayer {
        id: "p".into(),
        market_value: 1_000_000,
        wage: 10_000,
        morale: 40,
        manager_trust: 50,
        unresolved_issue: None,
        appearances: 1,
        contract_end: Some("2026-12-31".into()),
        transfer_listed: true,
        loan_listed: false,
        ovr: 70,
        potential: 75,
    }
}

fn team(reputation: u32) -> MarketTeam {
    MarketTeam { starting_xi_ids: vec![], reputation, finance: 0 }
}

#[test]
fn responses_are_the_answering_commands() {
    assert!(MarketCommand::Counter { offer_id: 1, terms: Terms::Transfer { fee: 1 } }.is_response());
    assert!(MarketCommand::Reject { offer_id: 1 }.is_response());
    assert!(MarketCommand::Review { offer_id: 1 }.is_response());
    assert!(MarketCommand::Confirm { preview_id: 1 }.is_response());
    assert!(!MarketCommand::ReviewBuyOption { player_id: "p".into() }.is_response());
    assert!(!MarketCommand::Bid { player_id: "p".into(), terms: Terms::Transfer { fee: 1 } }.is_response());
}

#[test]
fn counters_must_improve_terms_for_the_side_making_them() {
    let today = date("2026-07-02");
    let o = offer(Terms::Transfer { fee: 100 });
    let up = counter_offer(&o, "s", Terms::Transfer { fee: 150 }, today).unwrap();
    assert_eq!(up.proposer, "s");
    assert_eq!((up.round, up.revision), (2, 1));
    assert_eq!(up.date, today);
    assert_eq!(up.terms, Terms::Transfer { fee: 150 });
    assert_eq!(
        counter_offer(&o, "s", Terms::Transfer { fee: 100 }, today),
        Err(MarketError::Refused("Counter must improve terms".into()))
    );
    // The proposer cannot answer its own offer.
    assert_eq!(counter_offer(&o, "b", Terms::Transfer { fee: 50 }, today), Err(MarketError::Unavailable));
    let loan = Terms::Loan { end_date: date("2027-06-30"), wage_contribution_pct: 50, buy_option_fee: Some(900) };
    let lo = offer(loan);
    assert_eq!(
        counter_offer(&lo, "s", loan, today),
        Err(MarketError::Refused("be.error.transfers.loanCounterMustImproveTerms".into()))
    );
    let cheaper_option =
        Terms::Loan { end_date: date("2027-06-30"), wage_contribution_pct: 50, buy_option_fee: Some(800) };
    assert!(counter_offer(&lo, "s", cheaper_option, today).is_err());
    let longer = Terms::Loan { end_date: date("2027-12-31"), wage_contribution_pct: 60, buy_option_fee: Some(900) };
    assert!(counter_offer(&lo, "s", longer, today).is_ok());
    assert_eq!(
        counter_offer(&lo, "s", Terms::Transfer { fee: 5 }, today),
        Err(MarketError::Refused("Counter must improve terms".into()))
    );
    let mut stale = offer(Terms::Transfer { fee: 100 });
    stale.revision = u64::MAX;
    assert_eq!(counter_offer(&stale, "s", Terms::Transfer { fee: 150 }, today), Err(MarketError::Overflow));
}

#[test]
fn a_seller_rejecting_a_transfer_can_upset_an_open_player() {
    let today = date("2026-07-02");
    let mut o = offer(Terms::Transfer { fee: 100 });
    let mut p = player();
    let mut c = PlayerContract::new(date("2000-01-01"), 10_000, Some(date("2026-12-31")), 1_000_000, 40, 50);
    // Openness: morale 20 + appearances 15 + contract 10 + reputation 25 + listed 10 = 80.
    reject_offer(&mut o, "s", &mut p, &team(100), &team(400), &mut c, today).unwrap();
    assert_eq!(o.status, Status::Rejected);
    assert_eq!((p.morale, p.manager_trust), (30, 45));
    assert_eq!(p.unresolved_issue.unwrap().category, PlayerIssueCategory::Contract);
    assert_eq!((c.morale, c.manager_trust, c.unresolved_issue), (30, 45, true));
    // Once rejected, the offer cannot be rejected again.
    assert_eq!(
        reject_offer(&mut o, "s", &mut p, &team(100), &team(400), &mut c, today),
        Err(MarketError::Unavailable)
    );
    // A loan rejection leaves the player alone.
    let mut l = offer(Terms::Loan { end_date: date("2027-06-30"), wage_contribution_pct: 50, buy_option_fee: None });
    let mut q = player();
    let mut d = c.clone();
    reject_offer(&mut l, "s", &mut q, &team(100), &team(400), &mut d, today).unwrap();
    assert_eq!(q, player());
    assert_eq!(d, c);
}
