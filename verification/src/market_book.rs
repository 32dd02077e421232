//! The market's book of offers, consents and listings, and the commands that
//! change it: listing a player, bidding, countering and rejecting. A bid or a
//! counter passes the financial review first, and the club that makes it
//! consents to the reviewed finances. Previews and confirmations work on a
//! reviewed preview of both clubs' finances and are not decided by the book.
use vstd::prelude::*;
use crate::contracts::PlayerContract;
use crate::dates::Date;
use crate::market::{
    MarketCommand, MarketError, MarketOffer, Status, Terms, counter_offer, counter_refusal, countered,
    reject_offer,
};
use crate::market_review::{copy_offer, copy_review,
    FinancialConsent, MarketReview, ReviewFacts, answers, pending_elsewhere, review_offer, review_refusal, reviewed,
};
use crate::market_rules::{MarketPlayer, MarketTeam, spec_blocked, spec_openness};
use crate::text::str_eq;

verus! {

/// A player as the market lists him: his club, whether he is offered for a
/// transfer or a loan, and whether he has retired or is out on loan.
#[derive(Debug, Clone, PartialEq, Eq)]
pub struct Listing {
    pub player_id: String,
    pub club_id: String,
    pub transfer_listed: bool,
    pub loan_listed: bool,
    pub retired: bool,
    pub on_loan: bool,
}

/// A club's consent to the finances of an offer as last reviewed.
#[derive(Debug, Clone, PartialEq, Eq)]
pub struct Consent {
    pub offer_id: u64,
    pub club: String,
    pub consent: FinancialConsent,
}

/// What a club sees before consenting to an offer: its own balance and
/// transfer budget before and after the fee, its projected wage bill, its wage
/// budget, the day the move registers, and whether the other club's consent
/// to the reviewed finances is still missing.
#[derive(Debug, Clone, PartialEq, Eq)]
pub struct MarketPreview {
    pub id: u64,
    pub offer: MarketOffer,
    pub registration_date: Date,
    pub balance_before: i64,
    pub balance_after: i64,
    pub transfer_budget_before: i64,
    pub transfer_budget_after: i64,
    pub projected_annual_wages: i64,
    pub wage_budget: i64,
    pub pending_other_consent: bool,
}

/// A preview kept for confirmation: who asked, on which day, and the review
/// it rests on.
#[derive(Debug, Clone, PartialEq, Eq)]
pub struct StoredPreview {
    pub actor: String,
    pub day: u32,
    pub view: MarketPreview,
    pub review: MarketReview,
    pub buy_option: bool,
}

/// The offers (in the order they were made), the next offer id, the
/// consents, the listings and the stored previews.
#[derive(Debug, Clone, PartialEq, Eq)]
pub struct MarketBook {
    pub offers: Vec<MarketOffer>,
    pub next_offer_id: u64,
    pub consents: Vec<Consent>,
    pub listings: Vec<Listing>,
    pub previews: Vec<StoredPreview>,
}

#[derive(Debug, Clone, PartialEq, Eq)]
pub enum MarketOutcome {
    Listed,
    Offer(MarketOffer),
    Rejected,
    Preview(MarketPreview),
}

impl MarketBook {
    /// Offer ids are distinct and below the next id.
    pub open spec fn wf(&self) -> bool {
        &&& forall|i: int| 0 <= i < self.offers@.len() ==> #[trigger] self.offers@[i].id < self.next_offer_id
        &&& forall|i: int, j: int|
            0 <= i < j < self.offers@.len() ==> #[trigger] self.offers@[i].id != #[trigger] self.offers@[j].id
    }
}

/// `i` is the first listing of `player`.
pub open spec fn first_listing(ls: Seq<Listing>, player: Seq<char>, i: int) -> bool {
    &&& 0 <= i < ls.len()
    &&& ls[i].player_id@ == player
    &&& forall|j: int| 0 <= j < i ==> #[trigger] ls[j].player_id@ != player
}

pub open spec fn unlisted(ls: Seq<Listing>, player: Seq<char>) -> bool {
    forall|j: int| 0 <= j < ls.len() ==> #[trigger] ls[j].player_id@ != player
}

/// `i` holds the offer `id`.
pub open spec fn offer_at(os: Seq<MarketOffer>, id: u64, i: int) -> bool {
    0 <= i < os.len() && os[i].id == id
}

pub open spec fn no_offer(os: Seq<MarketOffer>, id: u64) -> bool {
    forall|j: int| 0 <= j < os.len() ==> #[trigger] os[j].id != id
}

/// An agreed move of `player` waits for registration.
pub open spec fn awaiting_registration(os: Seq<MarketOffer>, player: Seq<char>) -> bool {
    exists|j: int| 0 <= j < os.len() && #[trigger] os[j].player_id@ == player && os[j].status == Status::PendingRegistration
}

/// `club`'s earlier pending bids for `player` are withdrawn.
pub open spec fn withdrawn(os: Seq<MarketOffer>, player: Seq<char>, club: Seq<char>) -> Seq<MarketOffer> {
    Seq::new(
        os.len(),
        |j: int|
            if os[j].player_id@ == player && os[j].buyer@ == club && os[j].status == Status::Pending {
                MarketOffer { status: Status::Withdrawn, ..os[j] }
            } else {
                os[j]
            },
    )
}

/// The consents that do not belong to offer `id`, in order.
pub open spec fn without_offer(cs: Seq<Consent>, id: u64) -> Seq<Consent>
    decreases cs.len(),
{
    if cs.len() == 0 {
        Seq::empty()
    } else {
        let rest = without_offer(cs.drop_last(), id);
        if cs.last().offer_id == id {
            rest
        } else {
            rest.push(cs.last())
        }
    }
}

/// A new bid: `club` proposes `terms` for `player` to `seller` on `today`.
pub open spec fn fresh_bid(o: MarketOffer, id: u64, player: Seq<char>, seller: Seq<char>, club: Seq<char>, terms: Terms, today: Date) -> bool {
    &&& o.id == id
    &&& o.player_id@ == player
    &&& o.seller@ == seller
    &&& o.buyer@ == club
    &&& o.proposer@ == club
    &&& o.terms == terms
    &&& o.date == today
    &&& o.revision == 0
    &&& o.round == 1
    &&& o.status == Status::Pending
    &&& o.registration_date is None
}

/// The buyer's or the seller's finances as the review records them.
pub open spec fn reviewed_consent(f: ReviewFacts, buyer_side: bool) -> FinancialConsent {
    let c = if buyer_side {
        f.buyer
    } else {
        f.seller
    };
    FinancialConsent { incoming_wage: f.contract_wage, incoming_end: f.contract_end, ..c }
}

/// What a rejection does to the player and his contract: only the seller
/// turning down a transfer has consequences.
pub open spec fn reject_effects(
    o: MarketOffer,
    club: Seq<char>,
    p0: MarketPlayer,
    p1: MarketPlayer,
    c0: PlayerContract,
    c1: PlayerContract,
    seller_team: MarketTeam,
    buyer_team: MarketTeam,
    today: Date,
) -> bool {
    if club == o.seller@ && o.terms is Transfer {
        &&& p1 == spec_blocked(p0, spec_openness(today, p0, seller_team, buyer_team))
        &&& c1 == (PlayerContract {
            morale: p1.morale,
            manager_trust: p1.manager_trust,
            unresolved_issue: p1.unresolved_issue is Some,
            ..c0
        })
    } else {
        p1 == p0 && c1 == c0
    }
}

/// Listing `player` (for a transfer, for a loan) by `club`: only the
/// player's own club may list him, and not while an agreed move waits for
/// registration, nor once he has retired or while he is out on loan.
pub open spec fn listed(b0: MarketBook, b1: MarketBook, club: Seq<char>, player: Seq<char>, transfer: bool, loan: bool, r: Result<MarketOutcome, MarketError>) -> bool {
    let allowed = exists|i: int|
        first_listing(b0.listings@, player, i) && b0.listings@[i].club_id@ == club && !b0.listings@[i].retired
            && !b0.listings@[i].on_loan;
    if allowed && !awaiting_registration(b0.offers@, player) {
        &&& r == Ok::<MarketOutcome, MarketError>(MarketOutcome::Listed)
        &&& exists|i: int|
            first_listing(b0.listings@, player, i) && b1.listings@ == b0.listings@.update(
                i,
                Listing { transfer_listed: transfer, loan_listed: loan, ..b0.listings@[i] },
            )
        &&& b1.offers@ == b0.offers@ && b1.consents@ == b0.consents@ && b1.next_offer_id == b0.next_offer_id
        &&& b1.previews@ == b0.previews@
    } else {
        r == Err::<MarketOutcome, MarketError>(MarketError::Unavailable) && b1 == b0
    }
}

/// A bid by `club` for `player` on `terms`. Refused as unavailable for an
/// unknown player, a player without a club or one of `club`'s own; refused
/// for a loan unless the player is loan-listed; an overflow when no offer id
/// is left. Otherwise the bid takes the next id (kept even when the review
/// then refuses it). A passed review withdraws `club`'s earlier pending bids
/// for the player, records the bid and the buyer's consent.
pub open spec fn bid_placed(
    b0: MarketBook,
    b1: MarketBook,
    club: Seq<char>,
    player: Seq<char>,
    terms: Terms,
    today: Date,
    f: ReviewFacts,
    r: Result<MarketOutcome, MarketError>,
) -> bool {
    if unlisted(b0.listings@, player) {
        r == Err::<MarketOutcome, MarketError>(MarketError::Unavailable) && b1 == b0
    } else {
        exists|i: int|
            first_listing(b0.listings@, player, i) && {
                let seller = b0.listings@[i].club_id@;
                if seller.len() == 0 || seller == club {
                    r == Err::<MarketOutcome, MarketError>(MarketError::Unavailable) && b1 == b0
                } else if terms is Loan && !b0.listings@[i].loan_listed {
                    r matches Err(MarketError::Refused(m)) && m@ == "be.error.transfers.playerNotLoanListed"@ && b1 == b0
                } else if b0.next_offer_id == u64::MAX {
                    r == Err::<MarketOutcome, MarketError>(MarketError::Overflow) && b1 == b0
                } else {
                    let id = b0.next_offer_id;
                    &&& b1.next_offer_id == id + 1
                    &&& b1.listings@ == b0.listings@
                    &&& b1.previews@ == b0.previews@
                    &&& match r {
                        Ok(MarketOutcome::Offer(n)) => {
                            &&& fresh_bid(n, id, player, seller, club, terms, today)
                            &&& review_refusal(n, false, b0.offers@, f) is None
                            &&& b1.offers@ == withdrawn(b0.offers@, player, club).push(n)
                            &&& b1.consents@.len() == b0.consents@.len() + 1
                            &&& b1.consents@.drop_last() == b0.consents@
                            &&& b1.consents@.last().offer_id == id
                            &&& b1.consents@.last().club@ == club
                            &&& b1.consents@.last().consent == reviewed_consent(f, true)
                        },
                        Err(x) => exists|o: MarketOffer|
                            #![trigger fresh_bid(o, id, player, seller, club, terms, today)]
                            {
                                &&& fresh_bid(o, id, player, seller, club, terms, today)
                                &&& review_refusal(o, false, b0.offers@, f) matches Some(e) && answers(x, e)
                                &&& b1.offers@ == b0.offers@
                                &&& b1.consents@ == b0.consents@
                            },
                        _ => false,
                    }
                }
            }
    }
}

/// The review of a bid reads the offer's text fields by their characters
/// only: every bid with the same id, player, clubs, terms and date is
/// reviewed alike.
pub proof fn lemma_bid_review_is_determined(
    o1: MarketOffer,
    o2: MarketOffer,
    id: u64,
    player: Seq<char>,
    seller: Seq<char>,
    club: Seq<char>,
    terms: Terms,
    today: Date,
    offers: Seq<MarketOffer>,
    f: ReviewFacts,
)
    requires
        fresh_bid(o1, id, player, seller, club, terms, today),
        fresh_bid(o2, id, player, seller, club, terms, today),
    ensures
        review_refusal(o1, false, offers, f) == review_refusal(o2, false, offers, f),
{
    assert(pending_elsewhere(offers, o1) == pending_elsewhere(offers, o2));
}

/// A counter by `club` to offer `id`: only a party to the offer may counter
/// (else unavailable); then `counter_offer`'s refusals; then the review of the
/// countered offer. A passed counter replaces the offer, drops every consent
/// to it and records the countering club's consent.
pub open spec fn countered_in_book(
    b0: MarketBook,
    b1: MarketBook,
    club: Seq<char>,
    id: u64,
    terms: Terms,
    today: Date,
    f: ReviewFacts,
    r: Result<MarketOutcome, MarketError>,
) -> bool {
    if !(exists|i: int| offer_at(b0.offers@, id, i) && (b0.offers@[i].seller@ == club || b0.offers@[i].buyer@ == club)) {
        r == Err::<MarketOutcome, MarketError>(MarketError::Unavailable) && b1 == b0
    } else {
        exists|i: int|
            offer_at(b0.offers@, id, i) && {
                let o = b0.offers@[i];
                if !(o.status == Status::Pending && o.proposer@ != club) {
                    r == Err::<MarketOutcome, MarketError>(MarketError::Unavailable) && b1 == b0
                } else if counter_refusal(o.terms, terms, club == o.seller@, club == o.buyer@) is Some {
                    r matches Err(MarketError::Refused(m)) && Some(m@) == counter_refusal(
                        o.terms,
                        terms,
                        club == o.seller@,
                        club == o.buyer@,
                    ) && b1 == b0
                } else if o.revision == u64::MAX {
                    r == Err::<MarketOutcome, MarketError>(MarketError::Overflow) && b1 == b0
                } else {
                    match r {
                        Ok(MarketOutcome::Offer(n)) => {
                            &&& countered(o, n, club, terms, today)
                            &&& review_refusal(n, false, b0.offers@, f) is None
                            &&& b1.offers@ == b0.offers@.update(i, n)
                            &&& b1.next_offer_id == b0.next_offer_id
                            &&& b1.listings@ == b0.listings@
                            &&& b1.previews@ == b0.previews@
                            &&& b1.consents@.drop_last() == without_offer(b0.consents@, id)
                            &&& b1.consents@.len() == without_offer(b0.consents@, id).len() + 1
                            &&& b1.consents@.last().offer_id == id
                            &&& b1.consents@.last().club@ == club
                            &&& b1.consents@.last().consent == reviewed_consent(f, club == o.buyer@)
                        },
                        Err(x) => exists|a: MarketOffer|
                            #![trigger countered(o, a, club, terms, today)]
                            {
                                &&& countered(o, a, club, terms, today)
                                &&& review_refusal(a, false, b0.offers@, f) matches Some(e) && answers(x, e)
                                &&& b1 == b0
                            },
                        _ => false,
                    }
                }
            }
    }
}

/// Every counter of the same offer by the same club with the same terms on
/// the same day is reviewed alike.
pub proof fn lemma_counter_review_is_determined(
    o: MarketOffer,
    a1: MarketOffer,
    a2: MarketOffer,
    club: Seq<char>,
    terms: Terms,
    today: Date,
    offers: Seq<MarketOffer>,
    f: ReviewFacts,
)
    requires
        countered(o, a1, club, terms, today),
        countered(o, a2, club, terms, today),
    ensures
        review_refusal(a1, false, offers, f) == review_refusal(a2, false, offers, f),
{
    assert(pending_elsewhere(offers, a1) == pending_elsewhere(offers, a2));
}

/// A rejection by `club` of offer `id`: only a party may reject a pending
/// offer the other side proposed; it marks the offer rejected with
/// `reject_effects` on the player and his contract.
pub open spec fn rejected_in_book(
    b0: MarketBook,
    b1: MarketBook,
    club: Seq<char>,
    id: u64,
    p0: MarketPlayer,
    p1: MarketPlayer,
    c0: PlayerContract,
    c1: PlayerContract,
    seller_team: MarketTeam,
    buyer_team: MarketTeam,
    today: Date,
    r: Result<MarketOutcome, MarketError>,
) -> bool {
    let allowed = exists|i: int|
        offer_at(b0.offers@, id, i) && (b0.offers@[i].seller@ == club || b0.offers@[i].buyer@ == club)
            && b0.offers@[i].status == Status::Pending && b0.offers@[i].proposer@ != club;
    if allowed {
        &&& r == Ok::<MarketOutcome, MarketError>(MarketOutcome::Rejected)
        &&& exists|i: int|
            offer_at(b0.offers@, id, i) && b1.offers@ == b0.offers@.update(
                i,
                MarketOffer { status: Status::Rejected, ..b0.offers@[i] },
            ) && reject_effects(b0.offers@[i], club, p0, p1, c0, c1, seller_team, buyer_team, today)
        &&& b1.consents@ == b0.consents@ && b1.listings@ == b0.listings@ && b1.next_offer_id == b0.next_offer_id
        &&& b1.previews@ == b0.previews@
    } else {
        r == Err::<MarketOutcome, MarketError>(MarketError::Unavailable) && b1 == b0 && p1 == p0 && c1 == c0
    }
}

fn copy_consent(c: &Consent) -> (r: Consent)
    ensures
        r == *c,
{
    Consent { offer_id: c.offer_id, club: c.club.clone(), consent: c.consent }
}

fn find_listing(ls: &Vec<Listing>, player: &str) -> (r: Option<usize>)
    ensures
        r matches Some(i) ==> first_listing(ls@, player@, i as int),
        r is None ==> unlisted(ls@, player@),
{
    let mut i: usize = 0;
    while i < ls.len()
        invariant
            0 <= i <= ls.len(),
            forall|j: int| 0 <= j < i ==> #[trigger] ls@[j].player_id@ != player@,
        decreases ls.len() - i,
    {
        if str_eq(ls[i].player_id.as_str(), player) {
            return Some(i);
        }
        i += 1;
    }
    None
}

fn find_offer(os: &Vec<MarketOffer>, id: u64) -> (r: Option<usize>)
    ensures
        r matches Some(i) ==> offer_at(os@, id, i as int),
        r is None ==> no_offer(os@, id),
{
    let mut i: usize = 0;
    while i < os.len()
        invariant
            0 <= i <= os.len(),
            forall|j: int| 0 <= j < i ==> #[trigger] os@[j].id != id,
        decreases os.len() - i,
    {
        if os[i].id == id {
            return Some(i);
        }
        i += 1;
    }
    None
}

fn awaits_registration(os: &Vec<MarketOffer>, player: &str) -> (r: bool)
    ensures
        r == awaiting_registration(os@, player@),
{
    let mut i: usize = 0;
    while i < os.len()
        invariant
            0 <= i <= os.len(),
            forall|j: int|
                0 <= j < i ==> !(#[trigger] os@[j].player_id@ == player@ && os@[j].status
                    == Status::PendingRegistration),
        decreases os.len() - i,
    {
        let waiting = match os[i].status {
            Status::PendingRegistration => true,
            _ => false,
        };
        if waiting && str_eq(os[i].player_id.as_str(), player) {
            return true;
        }
        i += 1;
    }
    false
}

fn withdraw_bids(os: &Vec<MarketOffer>, player: &str, club: &str) -> (r: Vec<MarketOffer>)
    ensures
        r@ == withdrawn(os@, player@, club@),
{
    let mut out: Vec<MarketOffer> = Vec::new();
    let mut i: usize = 0;
    while i < os.len()
        invariant
            0 <= i <= os.len(),
            out@.len() == i,
            forall|j: int| 0 <= j < i ==> #[trigger] out@[j] == withdrawn(os@, player@, club@)[j],
        decreases os.len() - i,
    {
        let o = copy_offer(&os[i]);
        let pending = match o.status {
            Status::Pending => true,
            _ => false,
        };
        if pending && str_eq(o.player_id.as_str(), player) && str_eq(o.buyer.as_str(), club) {
            out.push(MarketOffer { status: Status::Withdrawn, ..o });
        } else {
            out.push(o);
        }
        i += 1;
    }
    assert(out@ =~= withdrawn(os@, player@, club@));
    out
}

fn drop_consents(cs: &Vec<Consent>, id: u64) -> (r: Vec<Consent>)
    ensures
        r@ == without_offer(cs@, id),
{
    let mut out: Vec<Consent> = Vec::new();
    let mut i: usize = 0;
    while i < cs.len()
        invariant
            0 <= i <= cs.len(),
            out@ == without_offer(cs@.take(i as int), id),
        decreases cs.len() - i,
    {
        proof {
            assert(cs@.take(i as int + 1).drop_last() =~= cs@.take(i as int));
        }
        if cs[i].offer_id != id {
            out.push(copy_consent(&cs[i]));
        }
        i += 1;
    }
    assert(cs@.take(cs@.len() as int) =~= cs@);
    out
}

/// `club` lists `player` for a transfer and for a loan as given.
pub fn list_player(book: &mut MarketBook, club: &str, player: &str, transfer: bool, loan: bool) -> (r: Result<
    MarketOutcome,
    MarketError,
>)
    ensures
        listed(*old(book), *final(book), club@, player@, transfer, loan, r),
{
    let i = match find_listing(&book.listings, player) {
        Some(i) => i,
        None => return Err(MarketError::Unavailable),
    };
    let l = &book.listings[i];
    if !str_eq(l.club_id.as_str(), club) || l.retired || l.on_loan {
        return Err(MarketError::Unavailable);
    }
    if awaits_registration(&book.offers, player) {
        return Err(MarketError::Unavailable);
    }
    let updated = Listing {
        player_id: l.player_id.clone(),
        club_id: l.club_id.clone(),
        transfer_listed: transfer,
        loan_listed: loan,
        retired: l.retired,
        on_loan: l.on_loan,
    };
    book.listings.set(i, updated);
    Ok(MarketOutcome::Listed)
}

/// `club` bids `terms` for `player` on `today`, with `facts` for the review.
pub fn place_bid(book: &mut MarketBook, club: &str, player: &str, terms: Terms, today: Date, facts: &ReviewFacts) -> (r: Result<
    MarketOutcome,
    MarketError,
>)
    requires
        old(book).wf(),
    ensures
        final(book).wf(),
        bid_placed(*old(book), *final(book), club@, player@, terms, today, *facts, r),
{
    let i = match find_listing(&book.listings, player) {
        Some(i) => i,
        None => return Err(MarketError::Unavailable),
    };
    let seller = book.listings[i].club_id.clone();
    if seller.as_str().is_empty() || str_eq(seller.as_str(), club) {
        return Err(MarketError::Unavailable);
    }
    let loan = match terms {
        Terms::Loan { .. } => true,
        _ => false,
    };
    if loan && !book.listings[i].loan_listed {
        return Err(MarketError::Refused(String::from_str("be.error.transfers.playerNotLoanListed")));
    }
    if book.next_offer_id == u64::MAX {
        return Err(MarketError::Overflow);
    }
    let id = book.next_offer_id;
    book.next_offer_id = id + 1;
    let offer = MarketOffer {
        id,
        player_id: player.to_owned(),
        seller,
        buyer: club.to_owned(),
        proposer: club.to_owned(),
        terms,
        date: today,
        revision: 0,
        round: 1,
        status: Status::Pending,
        registration_date: None,
    };
    let review = match review_offer(&offer, false, &book.offers, facts) {
        Ok(v) => v,
        Err(e) => {
            proof {
                assert(fresh_bid(offer, id, player@, seller@, club@, terms, today));
                assert(first_listing(old(book).listings@, player@, i as int));
            }
            return Err(e.to_error());
        },
    };
    let ghost before = book.offers@;
    let mut offers = withdraw_bids(&book.offers, player, club);
    offers.push(copy_offer(&offer));
    book.offers = offers;
    book.consents.push(Consent { offer_id: id, club: club.to_owned(), consent: review.buyer });
    proof {
        assert(first_listing(old(book).listings@, player@, i as int));
        assert(book.consents@.drop_last() =~= old(book).consents@);
        assert forall|a: int| 0 <= a < book.offers@.len() implies #[trigger] book.offers@[a].id < book.next_offer_id by {
            if a < before.len() {
                assert(book.offers@[a].id == before[a].id);
            }
        };
        assert forall|a: int, b: int| 0 <= a < b < book.offers@.len() implies #[trigger] book.offers@[a].id
            != #[trigger] book.offers@[b].id by {
            assert(book.offers@[a].id == before[a].id);
            if b < before.len() {
                assert(book.offers@[b].id == before[b].id);
            }
        };
    }
    Ok(MarketOutcome::Offer(offer))
}

/// `club` counters offer `id` with `terms` on `today`, with `facts` for the review.
pub fn counter_in_book(book: &mut MarketBook, club: &str, id: u64, terms: Terms, today: Date, facts: &ReviewFacts) -> (r: Result<
    MarketOutcome,
    MarketError,
>)
    requires
        old(book).wf(),
    ensures
        final(book).wf(),
        countered_in_book(*old(book), *final(book), club@, id, terms, today, *facts, r),
{
    let ghost before = book.offers@;
    let i = match find_offer(&book.offers, id) {
        Some(i) => i,
        None => return Err(MarketError::Unavailable),
    };
    proof {
        assert forall|k: int| offer_at(before, id, k) implies k == i as int by {
            if k < i {
                assert(before[k].id != before[i as int].id);
            } else if k > i {
                assert(before[i as int].id != before[k].id);
            }
        };
    }
    if !(str_eq(book.offers[i].seller.as_str(), club) || str_eq(book.offers[i].buyer.as_str(), club)) {
        return Err(MarketError::Unavailable);
    }
    let after = match counter_offer(&book.offers[i], club, terms, today) {
        Ok(a) => a,
        Err(e) => return Err(e),
    };
    let review = match review_offer(&after, false, &book.offers, facts) {
        Ok(v) => v,
        Err(e) => {
            proof {
                assert(offer_at(before, id, i as int));
            }
            return Err(e.to_error());
        },
    };
    let consent = if str_eq(club, after.buyer.as_str()) {
        review.buyer
    } else {
        review.seller
    };
    let mut consents = drop_consents(&book.consents, id);
    consents.push(Consent { offer_id: id, club: club.to_owned(), consent });
    book.consents = consents;
    book.offers.set(i, copy_offer(&after));
    proof {
        assert(book.consents@.drop_last() =~= without_offer(old(book).consents@, id));
        assert forall|a: int| 0 <= a < book.offers@.len() implies #[trigger] book.offers@[a].id < book.next_offer_id by {
            assert(book.offers@[a].id == before[a].id);
        };
        assert forall|a: int, b: int| 0 <= a < b < book.offers@.len() implies #[trigger] book.offers@[a].id
            != #[trigger] book.offers@[b].id by {
            assert(book.offers@[a].id == before[a].id);
            assert(book.offers@[b].id == before[b].id);
        };
    }
    Ok(MarketOutcome::Offer(after))
}

/// `club` rejects offer `id` on `today`; `player` and `contract` are the
/// offered player's market record and contract, `seller_team` and
/// `buyer_team` the two clubs as the move rules read them.
pub fn reject_in_book(
    book: &mut MarketBook,
    club: &str,
    id: u64,
    player: &mut MarketPlayer,
    seller_team: &MarketTeam,
    buyer_team: &MarketTeam,
    contract: &mut PlayerContract,
    today: Date,
) -> (r: Result<MarketOutcome, MarketError>)
    requires
        old(book).wf(),
    ensures
        final(book).wf(),
        rejected_in_book(
            *old(book),
            *final(book),
            club@,
            id,
            *old(player),
            *final(player),
            *old(contract),
            *final(contract),
            *seller_team,
            *buyer_team,
            today,
            r,
        ),
{
    let ghost before = book.offers@;
    let i = match find_offer(&book.offers, id) {
        Some(i) => i,
        None => return Err(MarketError::Unavailable),
    };
    proof {
        assert forall|k: int| offer_at(before, id, k) implies k == i as int by {
            if k < i {
                assert(before[k].id != before[i as int].id);
            } else if k > i {
                assert(before[i as int].id != before[k].id);
            }
        };
    }
    if !(str_eq(book.offers[i].seller.as_str(), club) || str_eq(book.offers[i].buyer.as_str(), club)) {
        return Err(MarketError::Unavailable);
    }
    let mut o = copy_offer(&book.offers[i]);
    match reject_offer(&mut o, club, player, seller_team, buyer_team, contract, today) {
        Err(e) => return Err(e),
        Ok(()) => {},
    }
    book.offers.set(i, o);
    proof {
        assert forall|a: int| 0 <= a < book.offers@.len() implies #[trigger] book.offers@[a].id < book.next_offer_id by {
            assert(book.offers@[a].id == before[a].id);
        };
        assert forall|a: int, b: int| 0 <= a < b < book.offers@.len() implies #[trigger] book.offers@[a].id
            != #[trigger] book.offers@[b].id by {
            assert(book.offers@[a].id == before[a].id);
            assert(book.offers@[b].id == before[b].id);
        };
    }
    Ok(MarketOutcome::Rejected)
}

/// The answer of a command the book decides, read from `execute_market`'s result.
pub open spec fn decided(r: Result<Option<MarketOutcome>, MarketError>) -> Result<MarketOutcome, MarketError> {
    match r {
        Ok(Some(o)) => Ok(o),
        Ok(None) => Err(MarketError::Unavailable),
        Err(e) => Err(e),
    }
}

/// Run a market command of `actor`, who manages `club`, as request
/// `request_id` on session day `day`. A club that has declared itself `ready`
/// may only answer offers. Listing, bidding, countering, rejecting and the
/// two reviews are decided here (`Some` outcome); a confirmation changes
/// nothing here and gives `None`: confirming records the consent and registers
/// or schedules the move together with the player's transfer, which the book
/// does not hold.
pub fn execute_market(
    book: &mut MarketBook,
    actor: &str,
    club: &str,
    request_id: u64,
    day: u32,
    ready: bool,
    command: &MarketCommand,
    today: Date,
    facts: &ReviewFacts,
    player: &mut MarketPlayer,
    seller_team: &MarketTeam,
    buyer_team: &MarketTeam,
    contract: &mut PlayerContract,
) -> (r: Result<Option<MarketOutcome>, MarketError>)
    requires
        old(book).wf(),
    ensures
        final(book).wf(),
        ready && !(command is Counter || command is Reject || command is Review || command is Confirm) ==> r
            == Err::<Option<MarketOutcome>, MarketError>(MarketError::AlreadyReady) && *final(book) == *old(book)
            && *final(player) == *old(player) && *final(contract) == *old(contract),
        !(ready && !(command is Counter || command is Reject || command is Review || command is Confirm))
            ==> match *command {
            MarketCommand::List { player_id, transfer_listed, loan_listed } => {
                &&& !(r matches Ok(None))
                &&& listed(*old(book), *final(book), club@, player_id@, transfer_listed, loan_listed, decided(r))
                &&& *final(player) == *old(player) && *final(contract) == *old(contract)
            },
            MarketCommand::Bid { player_id, terms } => {
                &&& !(r matches Ok(None))
                &&& bid_placed(*old(book), *final(book), club@, player_id@, terms, today, *facts, decided(r))
                &&& *final(player) == *old(player) && *final(contract) == *old(contract)
            },
            MarketCommand::Counter { offer_id, terms } => {
                &&& !(r matches Ok(None))
                &&& countered_in_book(*old(book), *final(book), club@, offer_id, terms, today, *facts, decided(r))
                &&& *final(player) == *old(player) && *final(contract) == *old(contract)
            },
            MarketCommand::Reject { offer_id } => {
                &&& !(r matches Ok(None))
                &&& rejected_in_book(
                    *old(book),
                    *final(book),
                    club@,
                    offer_id,
                    *old(player),
                    *final(player),
                    *old(contract),
                    *final(contract),
                    *seller_team,
                    *buyer_team,
                    today,
                    decided(r),
                )
            },
            MarketCommand::Review { offer_id } => {
                &&& !(r matches Ok(None))
                &&& reviewed_in_book(*old(book), *final(book), actor@, club@, offer_id, *facts, request_id, day, decided(r))
                &&& *final(player) == *old(player) && *final(contract) == *old(contract)
            },
            MarketCommand::ReviewBuyOption { player_id } => {
                &&& !(r matches Ok(None))
                &&& buy_option_reviewed(
                    *old(book),
                    *final(book),
                    actor@,
                    club@,
                    player_id@,
                    today,
                    *facts,
                    request_id,
                    day,
                    decided(r),
                )
                &&& *final(player) == *old(player) && *final(contract) == *old(contract)
            },
            MarketCommand::Confirm { .. } => r == Ok::<Option<MarketOutcome>, MarketError>(None) && *final(book) == *old(
                book,
            ) && *final(player) == *old(player) && *final(contract) == *old(contract),
        },
{
    if ready && !command.is_response() {
        return Err(MarketError::AlreadyReady);
    }
    let r = match command {
        MarketCommand::List { player_id, transfer_listed, loan_listed } => list_player(
            book,
            club,
            player_id.as_str(),
            *transfer_listed,
            *loan_listed,
        ),
        MarketCommand::Bid { player_id, terms } => place_bid(book, club, player_id.as_str(), *terms, today, facts),
        MarketCommand::Counter { offer_id, terms } => counter_in_book(book, club, *offer_id, *terms, today, facts),
        MarketCommand::Reject { offer_id } => reject_in_book(
            book,
            club,
            *offer_id,
            player,
            seller_team,
            buyer_team,
            contract,
            today,
        ),
        MarketCommand::Review { offer_id } => review_in_book(book, actor, club, *offer_id, facts, request_id, day),
        MarketCommand::ReviewBuyOption { player_id } => review_buy_option(
            book,
            actor,
            club,
            player_id.as_str(),
            today,
            facts,
            request_id,
            day,
        ),
        MarketCommand::Confirm { .. } => return Ok(None),
    };
    match r {
        Ok(o) => Ok(Some(o)),
        Err(e) => Err(e),
    }
}

/// A rejection is final: once a club has rejected an offer, no club can
/// reject or counter that offer again.
pub proof fn lemma_rejection_is_final(
    b0: MarketBook,
    b1: MarketBook,
    b2: MarketBook,
    club: Seq<char>,
    other: Seq<char>,
    id: u64,
    p0: MarketPlayer,
    p1: MarketPlayer,
    p2: MarketPlayer,
    c0: PlayerContract,
    c1: PlayerContract,
    c2: PlayerContract,
    seller_team: MarketTeam,
    buyer_team: MarketTeam,
    today: Date,
    terms: Terms,
    f: ReviewFacts,
    r: Result<MarketOutcome, MarketError>,
)
    requires
        b0.wf(),
        rejected_in_book(
            b0,
            b1,
            club,
            id,
            p0,
            p1,
            c0,
            c1,
            seller_team,
            buyer_team,
            today,
            Ok(MarketOutcome::Rejected),
        ),
    ensures
        rejected_in_book(b1, b2, other, id, p1, p2, c1, c2, seller_team, buyer_team, today, r) ==> r == Err::<
            MarketOutcome,
            MarketError,
        >(MarketError::Unavailable),
        countered_in_book(b1, b2, other, id, terms, today, f, r) ==> r == Err::<MarketOutcome, MarketError>(
            MarketError::Unavailable,
        ),
{
    let i = choose|i: int|
        offer_at(b0.offers@, id, i) && b1.offers@ == b0.offers@.update(
            i,
            MarketOffer { status: Status::Rejected, ..b0.offers@[i] },
        ) && reject_effects(b0.offers@[i], club, p0, p1, c0, c1, seller_team, buyer_team, today);
    assert forall|k: int| offer_at(b1.offers@, id, k) implies k == i && b1.offers@[k].status == Status::Rejected by {
        if k != i {
            assert(b1.offers@[k] == b0.offers@[k]);
            if k < i {
                assert(b0.offers@[k].id != b0.offers@[i].id);
            } else {
                assert(b0.offers@[i].id != b0.offers@[k].id);
            }
        }
    };
}

/// `club` has consented to offer `id` with exactly these finances.
pub open spec fn consented(cs: Seq<Consent>, id: u64, club: Seq<char>, c: FinancialConsent) -> bool {
    exists|k: int| 0 <= k < cs.len() && (#[trigger] cs[k]).offer_id == id && cs[k].club@ == club && cs[k].consent == c
}

/// The previewing club's own finances in review `v`, and the change to its
/// balance and budget and to its wage bill: a transfer moves the fee from
/// buyer to seller and the player's wage (none for a buy option) with him; a
/// loan moves only the borrower's share of the wage.
pub open spec fn preview_amounts(offer: MarketOffer, v: MarketReview, club: Seq<char>, buy_option: bool) -> (
    FinancialConsent,
    int,
    int,
) {
    let (fee, incoming) = match offer.terms {
        Terms::Transfer { fee } => (fee as int, if buy_option {
            0int
        } else {
            v.contract_wage as int
        }),
        Terms::Loan { wage_contribution_pct, .. } => (0int, v.contract_wage * wage_contribution_pct / 100),
    };
    if club == offer.buyer@ {
        (v.buyer, -fee, incoming)
    } else {
        (v.seller, fee, -incoming)
    }
}

pub open spec fn fits_i64(x: int) -> bool {
    i64::MIN <= x <= i64::MAX
}

/// A preview cannot be shown when the fee does not fit a balance or a
/// balance, budget or wage bill after the move would overflow.
pub open spec fn preview_overflows(offer: MarketOffer, v: MarketReview, club: Seq<char>, buy_option: bool) -> bool {
    let (f, d, w) = preview_amounts(offer, v, club, buy_option);
    ||| (offer.terms matches Terms::Transfer { fee } && fee > i64::MAX)
    ||| !fits_i64(f.balance + d)
    ||| !fits_i64(f.transfer_budget + d)
    ||| !fits_i64(f.wages + w)
}

/// `p` is the preview `club` gets of `offer` under review `v`.
pub open spec fn previewed(
    p: MarketPreview,
    id: u64,
    offer: MarketOffer,
    club: Seq<char>,
    v: MarketReview,
    buy_option: bool,
    cs: Seq<Consent>,
) -> bool {
    let (f, d, w) = preview_amounts(offer, v, club, buy_option);
    let other = if club == offer.buyer@ {
        offer.seller@
    } else {
        offer.buyer@
    };
    let other_facts = if other == offer.buyer@ {
        v.buyer
    } else {
        v.seller
    };
    &&& p.id == id
    &&& p.offer == offer
    &&& p.registration_date == v.registration
    &&& p.balance_before == f.balance
    &&& p.balance_after == f.balance + d
    &&& p.transfer_budget_before == f.transfer_budget
    &&& p.transfer_budget_after == f.transfer_budget + d
    &&& p.projected_annual_wages == f.wages + w
    &&& p.wage_budget == f.wage_budget
    &&& p.pending_other_consent == (!buy_option && !consented(cs, offer.id, other, other_facts))
}

/// The stored previews other than `id`, in order.
pub open spec fn without_preview(ps: Seq<StoredPreview>, id: u64) -> Seq<StoredPreview>
    decreases ps.len(),
{
    if ps.len() == 0 {
        Seq::empty()
    } else {
        let rest = without_preview(ps.drop_last(), id);
        if ps.last().view.id == id {
            rest
        } else {
            rest.push(ps.last())
        }
    }
}

/// `actor` of `club` previews `offer` as request `id` on `day`: the review
/// refuses it, or the preview overflows, or the preview is returned and kept
/// (replacing any earlier one with the same id), with nothing else changed.
pub open spec fn preview_made(
    b0: MarketBook,
    b1: MarketBook,
    actor: Seq<char>,
    club: Seq<char>,
    offer: MarketOffer,
    buy_option: bool,
    f: ReviewFacts,
    id: u64,
    day: u32,
    r: Result<MarketOutcome, MarketError>,
) -> bool {
    match review_refusal(offer, buy_option, b0.offers@, f) {
        Some(e) => r matches Err(x) && answers(x, e) && b1 == b0,
        None => exists|v: MarketReview|
            #![trigger reviewed(v, offer, f)]
            reviewed(v, offer, f) && if preview_overflows(offer, v, club, buy_option) {
                r == Err::<MarketOutcome, MarketError>(MarketError::Overflow) && b1 == b0
            } else {
                &&& r matches Ok(MarketOutcome::Preview(p)) && previewed(p, id, offer, club, v, buy_option, b0.consents@)
                    && b1.previews@.last().view == p
                &&& b1.previews@.len() == without_preview(b0.previews@, id).len() + 1
                &&& b1.previews@.drop_last() == without_preview(b0.previews@, id)
                &&& b1.previews@.last().actor@ == actor
                &&& b1.previews@.last().day == day
                &&& b1.previews@.last().review == v
                &&& b1.previews@.last().buy_option == buy_option
                &&& b1.offers@ == b0.offers@ && b1.consents@ == b0.consents@ && b1.listings@ == b0.listings@
                &&& b1.next_offer_id == b0.next_offer_id
            },
    }
}

fn copy_preview(p: &StoredPreview) -> (r: StoredPreview)
    ensures
        r == *p,
{
    StoredPreview {
        actor: p.actor.clone(),
        day: p.day,
        view: MarketPreview { offer: copy_offer(&p.view.offer), ..p.view },
        review: copy_review(&p.review),
        buy_option: p.buy_option,
    }
}

fn drop_previews(ps: &Vec<StoredPreview>, id: u64) -> (r: Vec<StoredPreview>)
    ensures
        r@ == without_preview(ps@, id),
{
    let mut out: Vec<StoredPreview> = Vec::new();
    let mut i: usize = 0;
    while i < ps.len()
        invariant
            0 <= i <= ps.len(),
            out@ == without_preview(ps@.take(i as int), id),
        decreases ps.len() - i,
    {
        proof {
            assert(ps@.take(i as int + 1).drop_last() =~= ps@.take(i as int));
        }
        if ps[i].view.id != id {
            out.push(copy_preview(&ps[i]));
        }
        i += 1;
    }
    assert(ps@.take(ps@.len() as int) =~= ps@);
    out
}

fn has_consent(cs: &Vec<Consent>, id: u64, club: &String, c: FinancialConsent) -> (r: bool)
    ensures
        r == consented(cs@, id, club@, c),
{
    let mut k: usize = 0;
    while k < cs.len()
        invariant
            k <= cs@.len(),
            forall|x: int|
                0 <= x < k ==> !((#[trigger] cs@[x]).offer_id == id && cs@[x].club@ == club@ && cs@[x].consent == c),
        decreases cs@.len() - k,
    {
        let e = &cs[k];
        if e.offer_id == id && e.club == *club && same_consent(e.consent, c) {
            return true;
        }
        k += 1;
    }
    false
}

fn same_consent(a: FinancialConsent, b: FinancialConsent) -> (r: bool)
    ensures
        r == (a == b),
{
    let ends = match (a.incoming_end, b.incoming_end) {
        (Some(x), Some(y)) => !x.is_before(y) && !y.is_before(x),
        (None, None) => true,
        _ => false,
    };
    proof {
        if let (Some(x), Some(y)) = (a.incoming_end, b.incoming_end) {
            Date::lemma_date_of_day_number(x);
            Date::lemma_date_of_day_number(y);
        }
    }
    a.balance == b.balance && a.transfer_budget == b.transfer_budget && a.wages == b.wages && a.wage_budget
        == b.wage_budget && a.incoming_wage == b.incoming_wage && ends
}

/// `actor` of `club` previews `offer` as request `id` on `day`.
fn make_preview(
    book: &mut MarketBook,
    actor: &str,
    club: &str,
    offer: &MarketOffer,
    buy_option: bool,
    facts: &ReviewFacts,
    id: u64,
    day: u32,
) -> (r: Result<MarketOutcome, MarketError>)
    ensures
        preview_made(*old(book), *final(book), actor@, club@, *offer, buy_option, *facts, id, day, r),
{
    let v = match review_offer(offer, buy_option, &book.offers, facts) {
        Ok(v) => v,
        Err(e) => return Err(e.to_error()),
    };
    let ghost gv = v;
    let buyer_side = str_eq(club, offer.buyer.as_str());
    let other = if buyer_side {
        &offer.seller
    } else {
        &offer.buyer
    };
    let other_facts = if str_eq(other.as_str(), offer.buyer.as_str()) {
        v.buyer
    } else {
        v.seller
    };
    let pending = !buy_option && !has_consent(&book.consents, offer.id, other, other_facts);
    let wage = v.contract_wage as i64;
    let (fee, incoming): (i64, i64) = match offer.terms {
        Terms::Transfer { fee } => {
            if fee > i64::MAX as u64 {
                return Err(MarketError::Overflow);
            }
            (fee as i64, if buy_option {
                0
            } else {
                wage
            })
        },
        Terms::Loan { wage_contribution_pct, .. } => {
            let part = wage_contribution_pct as i64;
            assert(wage * part <= 4294967295 * 255) by (nonlinear_arith)
                requires
                    0 <= wage <= 4294967295,
                    0 <= part <= 255,
            ;
            assert(wage * part >= 0) by (nonlinear_arith)
                requires
                    0 <= wage,
                    0 <= part,
            ;
            (0, wage * part / 100)
        },
    };
    let (own, delta, wage_delta): (FinancialConsent, i64, i64) = if buyer_side {
        (v.buyer, -fee, incoming)
    } else {
        (v.seller, fee, -incoming)
    };
    let balance_after = match own.balance.checked_add(delta) {
        Some(x) => x,
        None => return Err(MarketError::Overflow),
    };
    let budget_after = match own.transfer_budget.checked_add(delta) {
        Some(x) => x,
        None => return Err(MarketError::Overflow),
    };
    let wages_after = match own.wages.checked_add(wage_delta) {
        Some(x) => x,
        None => return Err(MarketError::Overflow),
    };
    let view = MarketPreview {
        id,
        offer: copy_offer(offer),
        registration_date: v.registration,
        balance_before: own.balance,
        balance_after,
        transfer_budget_before: own.transfer_budget,
        transfer_budget_after: budget_after,
        projected_annual_wages: wages_after,
        wage_budget: own.wage_budget,
        pending_other_consent: pending,
    };
    let mut previews = drop_previews(&book.previews, id);
    previews.push(
        StoredPreview {
            actor: actor.to_owned(),
            day,
            view: MarketPreview { offer: copy_offer(offer), ..view },
            review: v,
            buy_option,
        },
    );
    book.previews = previews;
    proof {
        assert(reviewed(gv, *offer, *facts));
        assert(book.previews@.drop_last() =~= without_preview(old(book).previews@, id));
        assert(!preview_overflows(*offer, gv, club@, buy_option));
        assert(previewed(view, id, *offer, club@, gv, buy_option, old(book).consents@));
    }
    Ok(MarketOutcome::Preview(view))
}

/// `actor` of `club` reviews offer `id` as request `request_id` on `day`:
/// only a party may, and only while the offer is pending.
pub open spec fn reviewed_in_book(
    b0: MarketBook,
    b1: MarketBook,
    actor: Seq<char>,
    club: Seq<char>,
    id: u64,
    f: ReviewFacts,
    request_id: u64,
    day: u32,
    r: Result<MarketOutcome, MarketError>,
) -> bool {
    if !(exists|i: int|
        offer_at(b0.offers@, id, i) && (b0.offers@[i].seller@ == club || b0.offers@[i].buyer@ == club)
            && b0.offers@[i].status == Status::Pending) {
        r == Err::<MarketOutcome, MarketError>(MarketError::Unavailable) && b1 == b0
    } else {
        exists|i: int|
            offer_at(b0.offers@, id, i) && preview_made(b0, b1, actor, club, b0.offers@[i], false, f, request_id, day, r)
    }
}

/// The player is on loan to `club` with a buy option of a positive fee.
pub open spec fn buy_option_open(f: ReviewFacts, club: Seq<char>) -> bool {
    &&& f.active_loan is Some
    &&& f.active_loan->0.loan_team_id@ == club
    &&& f.active_loan->0.buy_option_fee is Some
    &&& f.active_loan->0.buy_option_fee->0 > 0
}

/// `actor` of `club` reviews taking up the buy option of `player`'s loan:
/// the player must be listed and on loan to `club` with a buy option of a
/// positive fee; the preview is of a transfer for that fee from the parent
/// club.
pub open spec fn buy_option_reviewed(
    b0: MarketBook,
    b1: MarketBook,
    actor: Seq<char>,
    club: Seq<char>,
    player: Seq<char>,
    today: Date,
    f: ReviewFacts,
    request_id: u64,
    day: u32,
    r: Result<MarketOutcome, MarketError>,
) -> bool {
    if unlisted(b0.listings@, player) || !buy_option_open(f, club) {
        r == Err::<MarketOutcome, MarketError>(MarketError::Unavailable) && b1 == b0
    } else {
        exists|o: MarketOffer|
            #![trigger fresh_bid(
                o,
                0,
                player,
                f.active_loan->0.parent_team_id@,
                club,
                Terms::Transfer { fee: f.active_loan->0.buy_option_fee->0 },
                today,
            )]
            fresh_bid(
                o,
                0,
                player,
                f.active_loan->0.parent_team_id@,
                club,
                Terms::Transfer { fee: f.active_loan->0.buy_option_fee->0 },
                today,
            ) && preview_made(b0, b1, actor, club, o, true, f, request_id, day, r)
    }
}

/// `actor` of `club` reviews offer `id`.
pub fn review_in_book(
    book: &mut MarketBook,
    actor: &str,
    club: &str,
    id: u64,
    facts: &ReviewFacts,
    request_id: u64,
    day: u32,
) -> (r: Result<MarketOutcome, MarketError>)
    requires
        old(book).wf(),
    ensures
        final(book).wf(),
        reviewed_in_book(*old(book), *final(book), actor@, club@, id, *facts, request_id, day, r),
{
    let ghost before = book.offers@;
    let i = match find_offer(&book.offers, id) {
        Some(i) => i,
        None => return Err(MarketError::Unavailable),
    };
    proof {
        assert forall|k: int| offer_at(before, id, k) implies k == i as int by {
            if k < i {
                assert(before[k].id != before[i as int].id);
            } else if k > i {
                assert(before[i as int].id != before[k].id);
            }
        };
    }
    let pending = match book.offers[i].status {
        Status::Pending => true,
        _ => false,
    };
    if !(str_eq(book.offers[i].seller.as_str(), club) || str_eq(book.offers[i].buyer.as_str(), club)) || !pending {
        return Err(MarketError::Unavailable);
    }
    let offer = copy_offer(&book.offers[i]);
    make_preview(book, actor, club, &offer, false, facts, request_id, day)
}

/// `actor` of `club` reviews the buy option of `player`'s loan on `today`.
pub fn review_buy_option(
    book: &mut MarketBook,
    actor: &str,
    club: &str,
    player: &str,
    today: Date,
    facts: &ReviewFacts,
    request_id: u64,
    day: u32,
) -> (r: Result<MarketOutcome, MarketError>)
    requires
        old(book).wf(),
    ensures
        final(book).wf(),
        buy_option_reviewed(*old(book), *final(book), actor@, club@, player@, today, *facts, request_id, day, r),
{
    if find_listing(&book.listings, player).is_none() {
        return Err(MarketError::Unavailable);
    }
    let loan = match &facts.active_loan {
        Some(l) => l,
        None => return Err(MarketError::Unavailable),
    };
    if !str_eq(loan.loan_team_id.as_str(), club) {
        return Err(MarketError::Unavailable);
    }
    let fee = match loan.buy_option_fee {
        Some(fee) => if fee > 0 {
            fee
        } else {
            return Err(MarketError::Unavailable);
        },
        None => return Err(MarketError::Unavailable),
    };
    let offer = MarketOffer {
        id: 0,
        player_id: player.to_owned(),
        seller: loan.parent_team_id.clone(),
        buyer: club.to_owned(),
        proposer: club.to_owned(),
        terms: Terms::Transfer { fee },
        date: today,
        revision: 0,
        round: 1,
        status: Status::Pending,
        registration_date: None,
    };
    proof {
        assert(fresh_bid(
            offer,
            0,
            player@,
            facts.active_loan->0.parent_team_id@,
            club@,
            Terms::Transfer { fee: facts.active_loan->0.buy_option_fee->0 },
            today,
        ));
    }
    make_preview(book, actor, club, &offer, true, facts, request_id, day)
}

} // verus!
