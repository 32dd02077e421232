//! Offers on the shared transfer market and the negotiation steps that need
//! no financial review: countering an offer and rejecting it. Clubs answer
//! only offers the other side proposed; a counter must improve the terms for
//! the side that makes it.
use vstd::prelude::*;
use crate::contracts::PlayerContract;
use crate::dates::Date;
use crate::market_rules::{
    MarketPlayer, MarketTeam, apply_blocked_move_consequences, player_move_openness_score, spec_blocked,
    spec_openness,
};
use crate::text::str_eq;

verus! {

/// What an offer proposes: a permanent transfer for a fee, or a loan until
/// `end_date` with the borrower's share of the wage and an optional buy option.
#[derive(Debug, Clone, Copy, PartialEq, Eq, Structural)]
pub enum Terms {
    Transfer { fee: u64 },
    Loan { end_date: Date, wage_contribution_pct: u8, buy_option_fee: Option<u64> },
}

#[derive(Debug, Clone, Copy, PartialEq, Eq, Structural)]
pub enum Status {
    Pending,
    PendingRegistration,
    Completed,
    Rejected,
    Withdrawn,
}

/// An offer between two clubs for a player. `proposer` made the current terms.
#[derive(Debug, Clone, PartialEq, Eq)]
pub struct MarketOffer {
    pub id: u64,
    pub player_id: String,
    pub seller: String,
    pub buyer: String,
    pub proposer: String,
    pub terms: Terms,
    pub date: Date,
    pub revision: u64,
    pub round: u8,
    pub status: Status,
    pub registration_date: Option<Date>,
}

#[derive(Debug, Clone, PartialEq, Eq)]
pub enum MarketCommand {
    List { player_id: String, transfer_listed: bool, loan_listed: bool },
    Bid { player_id: String, terms: Terms },
    Counter { offer_id: u64, terms: Terms },
    Reject { offer_id: u64 },
    Review { offer_id: u64 },
    Confirm { preview_id: u64 },
    ReviewBuyOption { player_id: String },
}

impl MarketCommand {
    /// Whether the command answers an offer (allowed after declaring ready).
    pub fn is_response(&self) -> (r: bool)
        ensures
            r == (self is Counter || self is Reject || self is Review || self is Confirm),
    {
        match self {
            MarketCommand::Counter { .. } | MarketCommand::Reject { .. } | MarketCommand::Review { .. }
            | MarketCommand::Confirm { .. } => true,
            _ => false,
        }
    }
}

#[derive(Debug, Clone, PartialEq, Eq)]
pub enum MarketError {
    Unavailable,
    Overflow,
    InsufficientFunds,
    SquadTooSmall,
    /// The club has declared itself ready for the day and may only answer offers.
    AlreadyReady,
    /// A refusal with its message key.
    Refused(String),
}

/// Why a counter is refused, if it is: a transfer counter must raise the fee
/// when the seller makes it and lower it when the buyer does; a loan counter
/// must change something, and the seller may neither lower the borrower's
/// wage share nor the buy-option fee; a counter may not switch between a
/// transfer and a loan.
pub open spec fn counter_refusal(old: Terms, new: Terms, by_seller: bool, by_buyer: bool) -> Option<Seq<char>> {
    match (old, new) {
        (Terms::Transfer { fee: a }, Terms::Transfer { fee: b }) => if (by_seller && b > a) || (by_buyer && b < a) {
            None
        } else {
            Some("Counter must improve terms"@)
        },
        (
            Terms::Loan { end_date: e1, wage_contribution_pct: w1, buy_option_fee: o1 },
            Terms::Loan { end_date: e2, wage_contribution_pct: w2, buy_option_fee: o2 },
        ) => if (e1 == e2 && w1 == w2 && o1 == o2) || (by_seller && w2 < w1) || (by_seller && (o1 matches Some(a)
            && o2 matches Some(b) && b < a)) {
            Some("be.error.transfers.loanCounterMustImproveTerms"@)
        } else {
            None
        },
        _ => Some("Counter must improve terms"@),
    }
}

/// The offer after `club` counters it on `today` with `terms`: the club
/// becomes the proposer, the round goes up by one (at most 255) and the
/// revision by one.
pub open spec fn countered(offer: MarketOffer, after: MarketOffer, club: Seq<char>, terms: Terms, today: Date) -> bool {
    after == MarketOffer {
        proposer: after.proposer,
        terms,
        date: today,
        round: if offer.round == 255 {
            255
        } else {
            (offer.round + 1) as u8
        },
        revision: (offer.revision + 1) as u64,
        ..offer
    } && after.proposer@ == club
}

fn same_date(a: Date, b: Date) -> (r: bool)
    ensures
        r == (a == b),
{
    proof {
        Date::lemma_date_of_day_number(a);
        Date::lemma_date_of_day_number(b);
    }
    !a.is_before(b) && !b.is_before(a)
}

fn same_option(a: Option<u64>, b: Option<u64>) -> (r: bool)
    ensures
        r == (a == b),
{
    match (a, b) {
        (Some(x), Some(y)) => x == y,
        (None, None) => true,
        _ => false,
    }
}

fn counter_check(old: Terms, new: Terms, by_seller: bool, by_buyer: bool) -> (r: Result<(), String>)
    ensures
        match counter_refusal(old, new, by_seller, by_buyer) {
            None => r is Ok,
            Some(m) => r matches Err(e) && e@ == m,
        },
{
    match (old, new) {
        (Terms::Transfer { fee: a }, Terms::Transfer { fee: b }) => {
            if (by_seller && b > a) || (by_buyer && b < a) {
                Ok(())
            } else {
                Err(String::from_str("Counter must improve terms"))
            }
        },
        (
            Terms::Loan { end_date: e1, wage_contribution_pct: w1, buy_option_fee: o1 },
            Terms::Loan { end_date: e2, wage_contribution_pct: w2, buy_option_fee: o2 },
        ) => {
            let lowered = match (o1, o2) {
                (Some(a), Some(b)) => b < a,
                _ => false,
            };
            if (same_date(e1, e2) && w1 == w2 && same_option(o1, o2)) || (by_seller && w2 < w1) || (by_seller
                && lowered) {
                Err(String::from_str("be.error.transfers.loanCounterMustImproveTerms"))
            } else {
                Ok(())
            }
        },
        _ => Err(String::from_str("Counter must improve terms")),
    }
}

/// `club` counters `offer` on `today` with `terms`. Refused as unavailable
/// unless the offer is pending and the other side proposed it; refused with
/// the rule's message when the terms do not improve; an overflow when the
/// revision cannot grow.
pub fn counter_offer(offer: &MarketOffer, club: &str, terms: Terms, today: Date) -> (r: Result<
    MarketOffer,
    MarketError,
>)
    ensures
        !(offer.status == Status::Pending && offer.proposer@ != club@) ==> r == Err::<
            MarketOffer,
            MarketError,
        >(MarketError::Unavailable),
        offer.status == Status::Pending && offer.proposer@ != club@ ==> match counter_refusal(
            offer.terms,
            terms,
            club@ == offer.seller@,
            club@ == offer.buyer@,
        ) {
            Some(m) => r matches Err(MarketError::Refused(e)) && e@ == m,
            None => if offer.revision == u64::MAX {
                r == Err::<MarketOffer, MarketError>(MarketError::Overflow)
            } else {
                r matches Ok(after) && countered(*offer, after, club@, terms, today)
            },
        },
{
    let pending = match offer.status {
        Status::Pending => true,
        _ => false,
    };
    if !pending || str_eq(offer.proposer.as_str(), club) {
        return Err(MarketError::Unavailable);
    }
    let by_seller = str_eq(club, offer.seller.as_str());
    let by_buyer = str_eq(club, offer.buyer.as_str());
    match counter_check(offer.terms, terms, by_seller, by_buyer) {
        Err(e) => return Err(MarketError::Refused(e)),
        Ok(()) => {},
    }
    if offer.revision == u64::MAX {
        return Err(MarketError::Overflow);
    }
    let round: u8 = if offer.round == 255 {
        255
    } else {
        offer.round + 1
    };
    Ok(
        MarketOffer {
            id: offer.id,
            player_id: offer.player_id.clone(),
            seller: offer.seller.clone(),
            buyer: offer.buyer.clone(),
            proposer: club.to_owned(),
            terms,
            date: today,
            revision: offer.revision + 1,
            round,
            status: offer.status,
            registration_date: offer.registration_date,
        },
    )
}

/// `club` rejects `offer` on `today`. Refused as unavailable unless the offer
/// is pending and the other side proposed it. A rejection marks the offer
/// rejected; when the seller turns down a transfer, a player open enough to
/// the move takes the blocked move to heart, and the contract takes over his
/// morale, trust and whether a grievance stands.
pub fn reject_offer(
    offer: &mut MarketOffer,
    club: &str,
    player: &mut MarketPlayer,
    seller_team: &MarketTeam,
    buyer_team: &MarketTeam,
    contract: &mut PlayerContract,
    today: Date,
) -> (r: Result<(), MarketError>)
    ensures
        r.is_ok() <==> (old(offer).status == Status::Pending && old(offer).proposer@ != club@),
        r.is_err() ==> r == Err::<(), MarketError>(MarketError::Unavailable) && *final(offer) == *old(offer)
            && *final(player) == *old(player) && *final(contract) == *old(contract),
        r.is_ok() ==> *final(offer) == (MarketOffer { status: Status::Rejected, ..*old(offer) }),
        r.is_ok() && club@ == old(offer).seller@ && old(offer).terms is Transfer ==> {
            &&& *final(player) == spec_blocked(
                *old(player),
                spec_openness(today, *old(player), *seller_team, *buyer_team),
            )
            &&& *final(contract) == (PlayerContract {
                morale: final(player).morale,
                manager_trust: final(player).manager_trust,
                unresolved_issue: final(player).unresolved_issue is Some,
                ..*old(contract)
            })
        },
        r.is_ok() && !(club@ == old(offer).seller@ && old(offer).terms is Transfer) ==> *final(player) == *old(
            player,
        ) && *final(contract) == *old(contract),
{
    let pending = match offer.status {
        Status::Pending => true,
        _ => false,
    };
    if !pending || str_eq(offer.proposer.as_str(), club) {
        return Err(MarketError::Unavailable);
    }
    offer.status = Status::Rejected;
    let transfer = match offer.terms {
        Terms::Transfer { .. } => true,
        _ => false,
    };
    if str_eq(club, offer.seller.as_str()) && transfer {
        let openness = player_move_openness_score(today, player, seller_team, buyer_team);
        apply_blocked_move_consequences(player, openness);
        contract.morale = player.morale;
        contract.manager_trust = player.manager_trust;
        contract.unresolved_issue = player.unresolved_issue.is_some();
    }
    Ok(())
}

} // verus!
