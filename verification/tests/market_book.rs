use management::contracts::PlayerContract;
use management::dates::Date;
use management::market::{MarketCommand, MarketError, MarketOffer, Status, Terms};
use management::market_book::{
    counter_in_book, execute_market, list_player, place_bid, reject_in_book, review_buy_option, review_in_book,
    Consent, Listing, MarketBook, MarketOutcome,
};
use management::market_review::{
    review_offer, ActiveLoan, FinancialConsent, ReviewFacts, ReviewRefusal,
};
use management::market_rules::{MarketPlayer, MarketTeam, TransferWindowContext, TransferWindowStatus};

fn date(text: &str) -> Date {
    Date::parse(text).unwrap()
}

fn player() -> MarketPlayer {
    MarketPlayer {
        id: "p".into(),
        market_value: 1_000_000,
        wage: 10_000,
        morale: 40,
        manager_trust: 50,
        unresolved_issue: None,
        appearances: 1,
        contract_end: Some("2027-06-30".into()),
        transfer_listed: true,
        loan_listed: false,
        ovr: 70,
        potential: 75,
    }
}

fn money(balance: i64) -> FinancialConsent {
    FinancialConsent {
        balance,
        transfer_budget: 2_000_000,
        wages: 100_000,
        wage_budget: 200_000,
        incoming_wage: 0,
        incoming_end: None,
    }
}

fn open_window() -> TransferWindowContext {
    TransferWindowContext {
        status: TransferWindowStatus::Open,
        opens_on: Some("2026-06-02".into()),
        closes_on: Some("2026-08-01".into()),
        days_until_opens: None,
        days_remaining: Some(30),
    }
}

fn facts() -> ReviewFacts {
    ReviewFacts {
        today: date("2026-07-02"),
        window: open_window(),
        owner: "s".into(),
        player: player(),
        retired: false,
        active_loan: None,
        seller_roster: 20,
        minimum_squad_size: 16,
        buyer: money(5_000_000),
        seller: money(1_000_000),
        contract_wage: 10_000,
        contract_end: Some(date("2027-06-30")),
        buyer_wages: vec![100_000],
        buyer_wage_budget: 200_000,
    }
}

fn offer(terms: Terms) -> MarketOffer {
    MarketOffer {
        id: 7,
        player_id: "p".into(),
        seller: "s".into(),
        buyer: "b".into(),
        proposer: "b".into(),
        terms,
        date: date("2026-07-02"),
        revision: 0,
        round: 1,
        status: Status::Pending,
        registration_date: None,
    }
}

fn listing(loan_listed: bool) -> Listing {
    Listing {
        player_id: "p".into(),
        club_id: "s".into(),
        transfer_listed: false,
        loan_listed,
        retired: false,
        on_loan: false,
    }
}

fn book() -> MarketBook {
    MarketBook { offers: vec![], next_offer_id: 1, consents: vec![], listings: vec![listing(true)], previews: vec![] }
}

fn team() -> MarketTeam {
    MarketTeam { starting_xi_ids: vec![], reputation: 100, finance: 0 }
}

fn contract() -> PlayerContract {
    PlayerContract::new(date("2000-01-01"), 10_000, Some(date("2027-06-30")), 1_000_000, 40, 50)
}

#[test]
fn a_review_records_both_clubs_finances_and_the_registration_day() {
    let f = facts();
    let o = offer(Terms::Transfer { fee: 1_000_000 });
    let review = review_offer(&o, false, &vec![], &f).unwrap();
    assert_eq!(review.registration, date("2026-07-02"));
    assert_eq!(review.buyer.incoming_wage, 10_000);
    assert_eq!(review.seller.incoming_end, Some(date("2027-06-30")));
    assert_eq!(review.buyer.balance, 5_000_000);
    assert_eq!(review.offer, o);
    assert_eq!(review.owner, "s");
}

#[test]
fn a_review_refuses_in_order() {
    let o = offer(Terms::Transfer { fee: 1_000_000 });
    let mut f = facts();
    f.retired = true;
    assert_eq!(review_offer(&o, false, &vec![], &f), Err(ReviewRefusal::Unavailable));
    let mut f = facts();
    f.owner = "x".into();
    assert_eq!(review_offer(&o, false, &vec![], &f), Err(ReviewRefusal::Unavailable));
    let mut f = facts();
    f.active_loan = Some(ActiveLoan { parent_team_id: "s".into(), loan_team_id: "x".into(), buy_option_fee: None });
    assert_eq!(review_offer(&o, false, &vec![], &f), Err(ReviewRefusal::AlreadyLoaned));
    let mut agreed = offer(Terms::Transfer { fee: 5 });
    agreed.id = 3;
    agreed.status = Status::PendingRegistration;
    assert_eq!(review_offer(&o, false, &vec![agreed], &facts()), Err(ReviewRefusal::OfferNotPending));
    let mut f = facts();
    f.window.status = TransferWindowStatus::Closed;
    f.window.opens_on = Some("2026-06-02".into());
    assert_eq!(review_offer(&o, false, &vec![], &f), Err(ReviewRefusal::WindowClosed));
    let mut f = facts();
    f.seller_roster = 16;
    assert_eq!(review_offer(&o, false, &vec![], &f), Err(ReviewRefusal::SquadTooSmall));
    let rich = offer(Terms::Transfer { fee: u64::MAX });
    assert_eq!(review_offer(&rich, false, &vec![], &facts()), Err(ReviewRefusal::Overflow));
    let mut f = facts();
    f.buyer.balance = 10;
    assert_eq!(review_offer(&o, false, &vec![], &f), Err(ReviewRefusal::InsufficientFunds));
    let mut f = facts();
    f.buyer.transfer_budget = 10;
    assert_eq!(review_offer(&o, false, &vec![], &f), Err(ReviewRefusal::TransferBudgetTooLow));
    // Over its 200,000 budget a bill may grow by at most 25,000.
    let mut f = facts();
    f.contract_wage = 30_000;
    f.buyer_wages = vec![250_000];
    assert_eq!(review_offer(&o, false, &vec![], &f), Err(ReviewRefusal::IncomingContractRefused));
}

#[test]
fn a_buy_option_must_be_the_one_the_loan_carries_and_register_today() {
    let mut o = offer(Terms::Transfer { fee: 500_000 });
    o.id = 0;
    let mut f = facts();
    f.owner = "b".into();
    f.active_loan =
        Some(ActiveLoan { parent_team_id: "s".into(), loan_team_id: "b".into(), buy_option_fee: Some(500_000) });
    assert!(review_offer(&o, true, &vec![], &f).is_ok());
    let mut other = o.clone();
    other.terms = Terms::Transfer { fee: 400_000 };
    assert_eq!(review_offer(&other, true, &vec![], &f), Err(ReviewRefusal::Unavailable));
    let mut later = f.clone();
    later.window.status = TransferWindowStatus::Closed;
    later.window.opens_on = Some("2026-08-15".into());
    assert_eq!(review_offer(&o, true, &vec![], &later), Err(ReviewRefusal::WindowClosed));
}

#[test]
fn loan_terms_are_reviewed() {
    let f = facts();
    let bad = offer(Terms::Loan { end_date: date("2027-01-31"), wage_contribution_pct: 101, buy_option_fee: None });
    assert_eq!(review_offer(&bad, false, &vec![], &f), Err(ReviewRefusal::InvalidLoanTerms));
    let free = offer(Terms::Loan { end_date: date("2027-01-31"), wage_contribution_pct: 50, buy_option_fee: Some(0) });
    assert_eq!(review_offer(&free, false, &vec![], &f), Err(ReviewRefusal::InvalidLoanTerms));
    let short = offer(Terms::Loan { end_date: date("2026-07-20"), wage_contribution_pct: 50, buy_option_fee: None });
    assert_eq!(review_offer(&short, false, &vec![], &f), Err(ReviewRefusal::InvalidLoanEndDate));
    let good = offer(Terms::Loan { end_date: date("2027-01-31"), wage_contribution_pct: 50, buy_option_fee: None });
    assert!(review_offer(&good, false, &vec![], &f).is_ok());
    // Half of a 10,000 wage pushes a bill of 199,000 past its 200,000 budget.
    let mut tight = facts();
    tight.buyer.wages = 199_000;
    assert_eq!(review_offer(&good, false, &vec![], &tight), Err(ReviewRefusal::LoanWagePolicy));
    let mut poor = facts();
    poor.buyer.balance = 4_000;
    assert_eq!(review_offer(&good, false, &vec![], &poor), Err(ReviewRefusal::InsufficientFunds));
    assert_eq!(
        ReviewRefusal::LoanWagePolicy.to_error(),
        MarketError::Refused("Board wage policy refuses loan".into())
    );
    assert_eq!(ReviewRefusal::SquadTooSmall.to_error(), MarketError::SquadTooSmall);
}

#[test]
fn only_the_owner_lists_a_player() {
    let mut b = book();
    assert_eq!(list_player(&mut b, "s", "p", true, false), Ok(MarketOutcome::Listed));
    assert!(b.listings[0].transfer_listed && !b.listings[0].loan_listed);
    let before = b.clone();
    assert_eq!(list_player(&mut b, "x", "p", false, true), Err(MarketError::Unavailable));
    assert_eq!(list_player(&mut b, "s", "q", false, true), Err(MarketError::Unavailable));
    assert_eq!(b, before);
}

#[test]
fn a_bid_takes_the_next_id_and_withdraws_the_buyers_earlier_bid() {
    let mut b = book();
    let f = facts();
    let today = date("2026-07-02");
    let first = place_bid(&mut b, "b", "p", Terms::Transfer { fee: 1_000_000 }, today, &f).unwrap();
    assert!(matches!(first, MarketOutcome::Offer(ref o) if o.id == 1 && o.proposer == "b" && o.seller == "s"));
    let second = place_bid(&mut b, "b", "p", Terms::Transfer { fee: 1_200_000 }, today, &f).unwrap();
    assert!(matches!(second, MarketOutcome::Offer(ref o) if o.id == 2));
    assert_eq!(b.offers.len(), 2);
    assert_eq!(b.offers[0].status, Status::Withdrawn);
    assert_eq!(b.offers[1].status, Status::Pending);
    assert_eq!(b.next_offer_id, 3);
    assert_eq!(b.consents.len(), 2);
    assert_eq!(b.consents[1].offer_id, 2);
    assert_eq!(b.consents[1].consent.incoming_wage, 10_000);
    // Own players and unknown players cannot be bid for.
    assert_eq!(place_bid(&mut b, "s", "p", Terms::Transfer { fee: 1 }, today, &f), Err(MarketError::Unavailable));
    // A refused review still uses up the id.
    let mut poor = facts();
    poor.buyer.balance = 0;
    assert_eq!(
        place_bid(&mut b, "b", "p", Terms::Transfer { fee: 1_000 }, today, &poor),
        Err(MarketError::InsufficientFunds)
    );
    assert_eq!(b.next_offer_id, 4);
    assert_eq!(b.offers.len(), 2);
}

#[test]
fn a_loan_bid_needs_a_loan_listed_player() {
    let mut b = book();
    b.listings[0].loan_listed = false;
    let loan = Terms::Loan { end_date: date("2027-01-31"), wage_contribution_pct: 50, buy_option_fee: None };
    assert_eq!(
        place_bid(&mut b, "b", "p", loan, date("2026-07-02"), &facts()),
        Err(MarketError::Refused("be.error.transfers.playerNotLoanListed".into()))
    );
    assert_eq!(b.next_offer_id, 1);
}

#[test]
fn a_counter_replaces_the_offer_and_the_consents_to_it() {
    let mut b = book();
    let f = facts();
    let today = date("2026-07-02");
    place_bid(&mut b, "b", "p", Terms::Transfer { fee: 1_000_000 }, today, &f).unwrap();
    b.consents.push(Consent { offer_id: 9, club: "z".into(), consent: money(0) });
    let answer = counter_in_book(&mut b, "s", 1, Terms::Transfer { fee: 1_500_000 }, today, &f).unwrap();
    assert!(matches!(answer, MarketOutcome::Offer(ref o) if o.proposer == "s" && o.round == 2));
    assert_eq!(b.offers[0].terms, Terms::Transfer { fee: 1_500_000 });
    assert_eq!(b.consents.len(), 2);
    assert_eq!(b.consents[0].offer_id, 9);
    assert_eq!((b.consents[1].offer_id, b.consents[1].club.as_str()), (1, "s"));
    assert_eq!(b.consents[1].consent.balance, 1_000_000);
    // A stranger cannot counter, nor the club that proposed last.
    assert_eq!(
        counter_in_book(&mut b, "z", 1, Terms::Transfer { fee: 2_000_000 }, today, &f),
        Err(MarketError::Unavailable)
    );
    assert_eq!(
        counter_in_book(&mut b, "s", 1, Terms::Transfer { fee: 2_000_000 }, today, &f),
        Err(MarketError::Unavailable)
    );
}

#[test]
fn a_rejected_bid_stays_in_the_book() {
    let mut b = book();
    let today = date("2026-07-02");
    place_bid(&mut b, "b", "p", Terms::Transfer { fee: 1_000_000 }, today, &facts()).unwrap();
    let mut p = player();
    let mut c = contract();
    assert_eq!(reject_in_book(&mut b, "s", 1, &mut p, &team(), &team(), &mut c, today), Ok(MarketOutcome::Rejected));
    assert_eq!(b.offers[0].status, Status::Rejected);
    assert_eq!(
        reject_in_book(&mut b, "s", 1, &mut p, &team(), &team(), &mut c, today),
        Err(MarketError::Unavailable)
    );
    assert_eq!(
        reject_in_book(&mut b, "s", 42, &mut p, &team(), &team(), &mut c, today),
        Err(MarketError::Unavailable)
    );
    // Nor can it be countered once rejected.
    assert_eq!(
        counter_in_book(&mut b, "s", 1, Terms::Transfer { fee: 2_000_000 }, today, &facts()),
        Err(MarketError::Unavailable)
    );
}

#[test]
fn a_ready_club_may_only_answer_offers() {
    let mut b = book();
    let mut p = player();
    let mut c = contract();
    let today = date("2026-07-02");
    let list = MarketCommand::List { player_id: "p".into(), transfer_listed: true, loan_listed: true };
    assert_eq!(
        execute_market(&mut b, "ms", "s", 5, 3, true, &list, today, &facts(), &mut p, &team(), &team(), &mut c),
        Err(MarketError::AlreadyReady)
    );
    assert_eq!(
        execute_market(&mut b, "ms", "s", 5, 3, false, &list, today, &facts(), &mut p, &team(), &team(), &mut c),
        Ok(Some(MarketOutcome::Listed))
    );
    let bid = MarketCommand::Bid { player_id: "p".into(), terms: Terms::Transfer { fee: 1_000_000 } };
    let placed = execute_market(&mut b, "mb", "b", 6, 3, false, &bid, today, &facts(), &mut p, &team(), &team(), &mut c);
    assert!(matches!(placed, Ok(Some(MarketOutcome::Offer(_)))));
    let reject = MarketCommand::Reject { offer_id: 1 };
    assert_eq!(
        execute_market(&mut b, "ms", "s", 5, 3, true, &reject, today, &facts(), &mut p, &team(), &team(), &mut c),
        Ok(Some(MarketOutcome::Rejected))
    );
    let confirm = MarketCommand::Confirm { preview_id: 1 };
    let before = b.clone();
    assert_eq!(
        execute_market(&mut b, "ms", "s", 5, 3, true, &confirm, today, &facts(), &mut p, &team(), &team(), &mut c),
        Ok(None)
    );
    assert_eq!(b, before);
    let option = MarketCommand::ReviewBuyOption { player_id: "p".into() };
    assert_eq!(
        execute_market(&mut b, "mb", "b", 7, 3, true, &option, today, &facts(), &mut p, &team(), &team(), &mut c),
        Err(MarketError::AlreadyReady)
    );
}

#[test]
fn a_review_previews_the_clubs_own_finances() {
    let mut b = book();
    let today = date("2026-07-02");
    place_bid(&mut b, "b", "p", Terms::Transfer { fee: 1_000_000 }, today, &facts()).unwrap();
    let seen = review_in_book(&mut b, "ms", "s", 1, &facts(), 40, 3).unwrap();
    let MarketOutcome::Preview(view) = seen else { panic!("expected a preview") };
    assert_eq!(view.id, 40);
    assert_eq!((view.balance_before, view.balance_after), (1_000_000, 2_000_000));
    assert_eq!((view.transfer_budget_before, view.transfer_budget_after), (2_000_000, 3_000_000));
    // The seller loses the player's 10,000 wage.
    assert_eq!(view.projected_annual_wages, 90_000);
    assert!(view.pending_other_consent == false);
    assert_eq!(b.previews.len(), 1);
    assert_eq!((b.previews[0].actor.as_str(), b.previews[0].day), ("ms", 3));
    // The buyer's own consent is recorded, the seller's is not.
    let seen = review_in_book(&mut b, "mb", "b", 1, &facts(), 41, 3).unwrap();
    let MarketOutcome::Preview(view) = seen else { panic!("expected a preview") };
    assert_eq!(view.balance_after, 4_000_000);
    assert!(view.pending_other_consent);
    assert_eq!(b.previews.len(), 2);
    assert_eq!(review_in_book(&mut b, "mz", "z", 1, &facts(), 42, 3), Err(MarketError::Unavailable));
}

#[test]
fn a_buy_option_review_needs_the_borrowers_loan() {
    let mut b = book();
    let today = date("2026-07-02");
    let mut f = facts();
    f.owner = "b".into();
    f.active_loan =
        Some(ActiveLoan { parent_team_id: "s".into(), loan_team_id: "b".into(), buy_option_fee: Some(500_000) });
    let seen = review_buy_option(&mut b, "mb", "b", "p", today, &f, 9, 3).unwrap();
    let MarketOutcome::Preview(view) = seen else { panic!("expected a preview") };
    assert_eq!(view.offer.terms, Terms::Transfer { fee: 500_000 });
    assert_eq!(view.offer.seller, "s");
    // No wage moves with a buy option, and no consent is awaited.
    assert_eq!(view.projected_annual_wages, 100_000);
    assert!(!view.pending_other_consent);
    assert!(b.previews[0].buy_option);
    assert_eq!(review_buy_option(&mut b, "ms", "s", "p", today, &f, 10, 3), Err(MarketError::Unavailable));
    assert_eq!(review_buy_option(&mut b, "mb", "b", "q", today, &f, 11, 3), Err(MarketError::Unavailable));
}
