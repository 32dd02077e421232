//! The review an offer passes before a club may consent to it: who holds the
//! player, whether another deal already waits for registration, whether the
//! window registers the move, whether the seller keeps a squad, and whether
//! the buyer can pay the fee or its share of a loan wage.
use vstd::prelude::*;
use crate::career::{contract_wage_total, wage_sum};
use crate::contracts::{spec_wage_policy, wage_policy_allows};
use crate::dates::{Date, parsed_date};
use crate::market::{MarketError, MarketOffer, Status, Terms};
use crate::market_rules::{
    MarketPlayer, TransferWindowContext, loan_dates_valid, registration_date, spec_registration,
    validate_loan_dates,
};
use crate::text::str_eq;

verus! {

/// A club's money as a review records it, with the wage and contract end of
/// the player the deal brings in.
#[derive(Debug, Clone, Copy, PartialEq, Eq)]
pub struct FinancialConsent {
    pub balance: i64,
    pub transfer_budget: i64,
    pub wages: i64,
    pub wage_budget: i64,
    pub incoming_wage: u32,
    pub incoming_end: Option<Date>,
}

/// A loan the player is on, from his parent club to the borrower.
#[derive(Debug, Clone, PartialEq, Eq)]
pub struct ActiveLoan {
    pub parent_team_id: String,
    pub loan_team_id: String,
    pub buy_option_fee: Option<u64>,
}

/// What a review reads besides the offer and the market's other offers.
#[derive(Debug, Clone, PartialEq, Eq)]
pub struct ReviewFacts {
    pub today: Date,
    pub window: TransferWindowContext,
    /// The club the player is registered with.
    pub owner: String,
    pub player: MarketPlayer,
    pub retired: bool,
    pub active_loan: Option<ActiveLoan>,
    /// How many players the seller has.
    pub seller_roster: u64,
    /// Zero when the game sets no minimum.
    pub minimum_squad_size: u64,
    pub buyer: FinancialConsent,
    pub seller: FinancialConsent,
    /// The player's current contract.
    pub contract_wage: u32,
    pub contract_end: Option<Date>,
    /// The buyer's contract and staff wages, whose total the board's wage policy reads.
    pub buyer_wages: Vec<u32>,
    pub buyer_wage_budget: u64,
}

/// What a passed review fixes: the clubs' finances as consented to, the
/// contract, the loan and roster it saw, and the day the move registers.
#[derive(Debug, Clone, PartialEq, Eq)]
pub struct MarketReview {
    pub date: Date,
    pub offer: MarketOffer,
    pub buyer: FinancialConsent,
    pub seller: FinancialConsent,
    pub owner: String,
    pub contract_wage: u32,
    pub contract_end: Option<Date>,
    pub active_loan: Option<ActiveLoan>,
    pub seller_roster: u64,
    pub registration: Date,
}

/// Why a review refuses an offer.
#[derive(Debug, Clone, Copy, PartialEq, Eq, Structural)]
pub enum ReviewRefusal {
    Unavailable,
    AlreadyLoaned,
    OfferNotPending,
    WindowClosed,
    SquadTooSmall,
    Overflow,
    InsufficientFunds,
    TransferBudgetTooLow,
    WageTotalOverflow,
    IncomingContractRefused,
    InvalidLoanTerms,
    InvalidLoanEndDate,
    LoanWagePolicy,
}

/// The message key a refusal is reported with, where it has one.
pub open spec fn refusal_message(r: ReviewRefusal) -> Option<Seq<char>> {
    match r {
        ReviewRefusal::AlreadyLoaned => Some("be.error.transfers.playerAlreadyLoaned"@),
        ReviewRefusal::OfferNotPending => Some("be.error.transfers.offerNotPending"@),
        ReviewRefusal::WindowClosed => Some("be.error.transfers.transferWindowClosed"@),
        ReviewRefusal::TransferBudgetTooLow => Some("be.error.transfers.transferBudgetTooLow"@),
        ReviewRefusal::WageTotalOverflow => Some("Wage total overflow"@),
        ReviewRefusal::IncomingContractRefused => Some("Board wage policy refuses incoming contract"@),
        ReviewRefusal::InvalidLoanTerms => Some("Invalid loan terms"@),
        ReviewRefusal::InvalidLoanEndDate => Some("be.error.transfers.invalidLoanEndDate"@),
        ReviewRefusal::LoanWagePolicy => Some("Board wage policy refuses loan"@),
        _ => None,
    }
}

/// `x` is the market error that answers the refusal `r`: a refusal with its
/// message key where it has one, otherwise the error of the same name.
pub open spec fn answers(x: MarketError, r: ReviewRefusal) -> bool {
    match refusal_message(r) {
        Some(m) => x matches MarketError::Refused(t) && t@ == m,
        None => x == match r {
            ReviewRefusal::Overflow => MarketError::Overflow,
            ReviewRefusal::InsufficientFunds => MarketError::InsufficientFunds,
            ReviewRefusal::SquadTooSmall => MarketError::SquadTooSmall,
            _ => MarketError::Unavailable,
        },
    }
}

impl ReviewRefusal {
    /// The market error a refusal is answered with.
    pub fn to_error(self) -> (e: MarketError)
        ensures
            answers(e, self),
    {
        match self {
            ReviewRefusal::Unavailable => MarketError::Unavailable,
            ReviewRefusal::Overflow => MarketError::Overflow,
            ReviewRefusal::InsufficientFunds => MarketError::InsufficientFunds,
            ReviewRefusal::SquadTooSmall => MarketError::SquadTooSmall,
            ReviewRefusal::AlreadyLoaned => MarketError::Refused(
                String::from_str("be.error.transfers.playerAlreadyLoaned"),
            ),
            ReviewRefusal::OfferNotPending => MarketError::Refused(String::from_str("be.error.transfers.offerNotPending")),
            ReviewRefusal::WindowClosed => MarketError::Refused(
                String::from_str("be.error.transfers.transferWindowClosed"),
            ),
            ReviewRefusal::TransferBudgetTooLow => MarketError::Refused(
                String::from_str("be.error.transfers.transferBudgetTooLow"),
            ),
            ReviewRefusal::WageTotalOverflow => MarketError::Refused(String::from_str("Wage total overflow")),
            ReviewRefusal::IncomingContractRefused => MarketError::Refused(
                String::from_str("Board wage policy refuses incoming contract"),
            ),
            ReviewRefusal::InvalidLoanTerms => MarketError::Refused(String::from_str("Invalid loan terms")),
            ReviewRefusal::InvalidLoanEndDate => MarketError::Refused(
                String::from_str("be.error.transfers.invalidLoanEndDate"),
            ),
            ReviewRefusal::LoanWagePolicy => MarketError::Refused(String::from_str("Board wage policy refuses loan")),
        }
    }
}

/// Another offer for the same player already waits for registration.
pub open spec fn pending_elsewhere(offers: Seq<MarketOffer>, offer: MarketOffer) -> bool {
    exists|i: int|
        0 <= i < offers.len() && #[trigger] offers[i].id != offer.id && offers[i].player_id@ == offer.player_id@
            && offers[i].status == Status::PendingRegistration
}

/// The borrower's weekly share of the wage, rounded down.
pub open spec fn loan_share(wage: u32, pct: u8) -> int {
    wage * pct / 100
}

/// A loan already agreed and waiting for registration must still end after
/// today and before the player's contract does (an unreadable contract end
/// refuses it).
pub open spec fn agreed_loan_end_ok(today: Date, end: Date, contract_end: Option<String>) -> bool {
    today.day_number() < end.day_number() && match contract_end {
        None => true,
        Some(text) => parsed_date(text@) matches Some(d) && end.day_number() < d,
    }
}

/// The checks on a transfer fee, in order: it must fit in a signed balance,
/// the buyer must have the cash and the budget, the seller's balance must take
/// it; a normal transfer must fit the buyer's wage policy, and a buy option
/// must be the one the loan carries.
pub open spec fn transfer_refusal(fee: u64, buy_option: bool, offer: MarketOffer, f: ReviewFacts) -> Option<
    ReviewRefusal,
> {
    if fee > i64::MAX {
        Some(ReviewRefusal::Overflow)
    } else if f.buyer.balance < fee {
        Some(ReviewRefusal::InsufficientFunds)
    } else if f.buyer.transfer_budget < fee {
        Some(ReviewRefusal::TransferBudgetTooLow)
    } else if f.seller.balance + fee > i64::MAX {
        Some(ReviewRefusal::Overflow)
    } else if !buy_option && wage_sum(f.buyer_wages@) > u64::MAX {
        Some(ReviewRefusal::WageTotalOverflow)
    } else if !buy_option && !spec_wage_policy(
        f.buyer_wage_budget as int,
        wage_sum(f.buyer_wages@),
        0,
        f.contract_wage as int,
    ) {
        Some(ReviewRefusal::IncomingContractRefused)
    } else if buy_option && !(f.active_loan matches Some(l) && l.parent_team_id@ == offer.seller@
        && l.loan_team_id@ == offer.buyer@ && l.buy_option_fee == Some(fee)) {
        Some(ReviewRefusal::Unavailable)
    } else {
        None
    }
}

/// The checks on loan terms, in order: a share of at most 100% and no free buy
/// option; valid dates (from the registration day for a new loan); a wage
/// bill that fits in 64 bits; cash for the share; and, when the bill grows, a
/// buyer in credit staying within its wage budget.
pub open spec fn loan_refusal(
    end_date: Date,
    pct: u8,
    option: Option<u64>,
    status: Status,
    registration: int,
    f: ReviewFacts,
) -> Option<ReviewRefusal> {
    let share = loan_share(f.contract_wage, pct);
    let projected = f.buyer.wages + share;
    if pct > 100 || option == Some(0u64) {
        Some(ReviewRefusal::InvalidLoanTerms)
    } else if status == Status::PendingRegistration && !agreed_loan_end_ok(
        f.today,
        end_date,
        f.player.contract_end,
    ) {
        Some(ReviewRefusal::InvalidLoanEndDate)
    } else if status != Status::PendingRegistration && !loan_dates_valid(
        f.player.contract_end,
        Date::from_day_number_spec(registration),
        end_date,
    ) {
        Some(ReviewRefusal::InvalidLoanEndDate)
    } else if projected > i64::MAX {
        Some(ReviewRefusal::Overflow)
    } else if f.buyer.balance < share {
        Some(ReviewRefusal::InsufficientFunds)
    } else if projected > f.buyer.wages && (f.buyer.balance < 0 || projected > f.buyer.wage_budget) {
        Some(ReviewRefusal::LoanWagePolicy)
    } else {
        None
    }
}

/// Why `offer` fails review, checked in this order, or `None` when it passes.
/// With `buy_option` the offer is the borrower taking up its loan's option:
/// the borrower must hold the player and the move must register today.
pub open spec fn review_refusal(offer: MarketOffer, buy_option: bool, offers: Seq<MarketOffer>, f: ReviewFacts) -> Option<
    ReviewRefusal,
> {
    let registration = spec_registration(f.today, f.window);
    if f.retired {
        Some(ReviewRefusal::Unavailable)
    } else if (!buy_option && f.owner@ != offer.seller@) || (buy_option && f.owner@ != offer.buyer@) {
        Some(ReviewRefusal::Unavailable)
    } else if !buy_option && f.active_loan is Some {
        Some(ReviewRefusal::AlreadyLoaned)
    } else if offer.status != Status::PendingRegistration && pending_elsewhere(offers, offer) {
        Some(ReviewRefusal::OfferNotPending)
    } else if registration is None || (buy_option && registration != Some(f.today.day_number())) {
        Some(ReviewRefusal::WindowClosed)
    } else if !buy_option && f.minimum_squad_size > 0 && f.seller_roster <= f.minimum_squad_size {
        Some(ReviewRefusal::SquadTooSmall)
    } else {
        match offer.terms {
            Terms::Transfer { fee } => transfer_refusal(fee, buy_option, offer, f),
            Terms::Loan { end_date, wage_contribution_pct, buy_option_fee } => loan_refusal(
                end_date,
                wage_contribution_pct,
                buy_option_fee,
                offer.status,
                registration->0,
                f,
            ),
        }
    }
}

/// The record of a passed review.
pub open spec fn reviewed(v: MarketReview, offer: MarketOffer, f: ReviewFacts) -> bool {
    &&& v.date == f.today
    &&& v.offer == offer
    &&& v.buyer == (FinancialConsent { incoming_wage: f.contract_wage, incoming_end: f.contract_end, ..f.buyer })
    &&& v.seller == (FinancialConsent { incoming_wage: f.contract_wage, incoming_end: f.contract_end, ..f.seller })
    &&& v.owner@ == f.owner@
    &&& v.contract_wage == f.contract_wage
    &&& v.contract_end == f.contract_end
    &&& v.active_loan == f.active_loan
    &&& v.seller_roster == f.seller_roster
    &&& spec_registration(f.today, f.window) == Some(v.registration.day_number())
}

pub(crate) fn copy_offer(o: &MarketOffer) -> (r: MarketOffer)
    ensures
        r == *o,
{
    MarketOffer {
        id: o.id,
        player_id: o.player_id.clone(),
        seller: o.seller.clone(),
        buyer: o.buyer.clone(),
        proposer: o.proposer.clone(),
        terms: o.terms,
        date: o.date,
        revision: o.revision,
        round: o.round,
        status: o.status,
        registration_date: o.registration_date,
    }
}

fn copy_loan(l: &Option<ActiveLoan>) -> (r: Option<ActiveLoan>)
    ensures
        r == *l,
{
    match l {
        Some(l) => Some(
            ActiveLoan {
                parent_team_id: l.parent_team_id.clone(),
                loan_team_id: l.loan_team_id.clone(),
                buy_option_fee: l.buy_option_fee,
            },
        ),
        None => None,
    }
}

pub(crate) fn copy_review(v: &MarketReview) -> (r: MarketReview)
    ensures
        r == *v,
{
    MarketReview {
        date: v.date,
        offer: copy_offer(&v.offer),
        buyer: v.buyer,
        seller: v.seller,
        owner: v.owner.clone(),
        contract_wage: v.contract_wage,
        contract_end: v.contract_end,
        active_loan: copy_loan(&v.active_loan),
        seller_roster: v.seller_roster,
        registration: v.registration,
    }
}

fn pending_registration_elsewhere(offers: &Vec<MarketOffer>, offer: &MarketOffer) -> (r: bool)
    ensures
        r == pending_elsewhere(offers@, *offer),
{
    let mut i: usize = 0;
    while i < offers.len()
        invariant
            0 <= i <= offers.len(),
            forall|j: int|
                0 <= j < i ==> !(#[trigger] offers@[j].id != offer.id && offers@[j].player_id@ == offer.player_id@
                    && offers@[j].status == Status::PendingRegistration),
        decreases offers.len() - i,
    {
        let o = &offers[i];
        let waiting = match o.status {
            Status::PendingRegistration => true,
            _ => false,
        };
        if o.id != offer.id && waiting && str_eq(o.player_id.as_str(), offer.player_id.as_str()) {
            return true;
        }
        i += 1;
    }
    false
}

fn transfer_check(fee: u64, buy_option: bool, offer: &MarketOffer, facts: &ReviewFacts) -> (r: Result<(), ReviewRefusal>)
    ensures
        match transfer_refusal(fee, buy_option, *offer, *facts) {
            Some(e) => r == Err::<(), ReviewRefusal>(e),
            None => r is Ok,
        },
{
    if fee > i64::MAX as u64 {
        return Err(ReviewRefusal::Overflow);
    }
    let amount = fee as i64;
    if facts.buyer.balance < amount {
        return Err(ReviewRefusal::InsufficientFunds);
    }
    if facts.buyer.transfer_budget < amount {
        return Err(ReviewRefusal::TransferBudgetTooLow);
    }
    if facts.seller.balance.checked_add(amount).is_none() {
        return Err(ReviewRefusal::Overflow);
    }
    if !buy_option {
        let total = match contract_wage_total(facts.buyer_wages.as_slice()) {
            Ok(t) => t,
            Err(_) => return Err(ReviewRefusal::WageTotalOverflow),
        };
        if !wage_policy_allows(facts.buyer.balance, facts.buyer_wage_budget, total, 0, facts.contract_wage) {
            return Err(ReviewRefusal::IncomingContractRefused);
        }
    } else {
        let carried = match &facts.active_loan {
            Some(l) => str_eq(l.parent_team_id.as_str(), offer.seller.as_str()) && str_eq(
                l.loan_team_id.as_str(),
                offer.buyer.as_str(),
            ) && match l.buy_option_fee {
                Some(f) => f == fee,
                None => false,
            },
            None => false,
        };
        if !carried {
            return Err(ReviewRefusal::Unavailable);
        }
    }
    Ok(())
}

fn loan_check(
    end_date: Date,
    pct: u8,
    option: Option<u64>,
    status: Status,
    registration: Date,
    facts: &ReviewFacts,
) -> (r: Result<(), ReviewRefusal>)
    ensures
        match loan_refusal(end_date, pct, option, status, registration.day_number(), *facts) {
            Some(e) => r == Err::<(), ReviewRefusal>(e),
            None => r is Ok,
        },
{
    let free_option = match option {
        Some(f) => f == 0,
        None => false,
    };
    if pct > 100 || free_option {
        return Err(ReviewRefusal::InvalidLoanTerms);
    }
    let agreed = match status {
        Status::PendingRegistration => true,
        _ => false,
    };
    if agreed {
        let past_contract = match &facts.player.contract_end {
            None => false,
            Some(text) => match Date::parse(text.as_str()) {
                Some(d) => !end_date.is_before(d),
                None => true,
            },
        };
        if !facts.today.is_before(end_date) || past_contract {
            return Err(ReviewRefusal::InvalidLoanEndDate);
        }
    } else {
        proof {
            Date::lemma_date_of_day_number(registration);
        }
        if validate_loan_dates(&facts.player, registration, end_date).is_err() {
            return Err(ReviewRefusal::InvalidLoanEndDate);
        }
    }
    let wage = facts.contract_wage as i64;
    let part = pct as i64;
    assert(wage * part <= 4294967295 * 100) by (nonlinear_arith)
        requires
            0 <= wage <= 4294967295,
            0 <= part <= 100,
    ;
    assert(wage * part >= 0) by (nonlinear_arith)
        requires
            0 <= wage,
            0 <= part,
    ;
    let share: i64 = wage * part / 100;
    let projected = match facts.buyer.wages.checked_add(share) {
        Some(p) => p,
        None => return Err(ReviewRefusal::Overflow),
    };
    if facts.buyer.balance < share {
        return Err(ReviewRefusal::InsufficientFunds);
    }
    if projected > facts.buyer.wages && (facts.buyer.balance < 0 || projected > facts.buyer.wage_budget) {
        return Err(ReviewRefusal::LoanWagePolicy);
    }
    Ok(())
}

/// Review `offer` against the market's `offers` and `facts`. Refused with the
/// first failed check of `review_refusal`; otherwise the record of what was
/// reviewed, with the day the move registers.
pub fn review_offer(offer: &MarketOffer, buy_option: bool, offers: &Vec<MarketOffer>, facts: &ReviewFacts) -> (r: Result<
    MarketReview,
    ReviewRefusal,
>)
    ensures
        match review_refusal(*offer, buy_option, offers@, *facts) {
            Some(e) => r == Err::<MarketReview, ReviewRefusal>(e),
            None => r matches Ok(v) && reviewed(v, *offer, *facts),
        },
{
    if facts.retired {
        return Err(ReviewRefusal::Unavailable);
    }
    let owned_by_seller = str_eq(facts.owner.as_str(), offer.seller.as_str());
    let owned_by_buyer = str_eq(facts.owner.as_str(), offer.buyer.as_str());
    if (!buy_option && !owned_by_seller) || (buy_option && !owned_by_buyer) {
        return Err(ReviewRefusal::Unavailable);
    }
    if !buy_option && facts.active_loan.is_some() {
        return Err(ReviewRefusal::AlreadyLoaned);
    }
    let agreed = match offer.status {
        Status::PendingRegistration => true,
        _ => false,
    };
    if !agreed && pending_registration_elsewhere(offers, offer) {
        return Err(ReviewRefusal::OfferNotPending);
    }
    let registration = match registration_date(facts.today, &facts.window) {
        Ok(d) => d,
        Err(_) => return Err(ReviewRefusal::WindowClosed),
    };
    if buy_option && (registration.is_before(facts.today) || facts.today.is_before(registration)) {
        return Err(ReviewRefusal::WindowClosed);
    }
    if !buy_option && facts.minimum_squad_size > 0 && facts.seller_roster <= facts.minimum_squad_size {
        return Err(ReviewRefusal::SquadTooSmall);
    }
    match offer.terms {
        Terms::Transfer { fee } => {
            if let Err(e) = transfer_check(fee, buy_option, offer, facts) {
                return Err(e);
            }
        },
        Terms::Loan { end_date, wage_contribution_pct, buy_option_fee } => {
            if let Err(e) = loan_check(end_date, wage_contribution_pct, buy_option_fee, offer.status, registration, facts) {
                return Err(e);
            }
        },
    }
    let buyer = FinancialConsent {
        incoming_wage: facts.contract_wage,
        incoming_end: facts.contract_end,
        ..facts.buyer
    };
    let seller = FinancialConsent {
        incoming_wage: facts.contract_wage,
        incoming_end: facts.contract_end,
        ..facts.seller
    };
    Ok(
        MarketReview {
            date: facts.today,
            offer: copy_offer(offer),
            buyer,
            seller,
            owner: facts.owner.clone(),
            contract_wage: facts.contract_wage,
            contract_end: facts.contract_end,
            active_loan: copy_loan(&facts.active_loan),
            seller_roster: facts.seller_roster,
            registration,
        },
    )
}

} // verus!
