//! Carrying contract decisions over to the player's social record: renewal
//! talks after a "let expire" setting or a renewal answer, and the record
//! after a renewal, a free-agent signing or a termination.
use vstd::prelude::*;
use crate::career::{signing_shirt, spec_signing_shirt};
use crate::contracts::{Decision, PlayerContract};
use crate::dates::{Date, date_text};
use crate::inbox::conversations::{
    ContractExitIntent, ContractRenewalState, RenewalSessionOutcome, RenewalSessionStatus,
};
use crate::text::{str_eq, text_views};

verus! {

/// The renewal talks as values.
pub struct TalksView {
    pub status: RenewalSessionStatus,
    pub blocked_until: Option<Seq<char>>,
    pub outcome: Option<RenewalSessionOutcome>,
    /// The let-expire intent: when it was set, and why.
    pub exit: Option<(Seq<char>, Option<Seq<char>>)>,
    pub last_attempt: Option<Seq<char>>,
    pub round: u8,
}

pub open spec fn opt_text(o: Option<String>) -> Option<Seq<char>> {
    match o {
        Some(t) => Some(t@),
        None => None,
    }
}

pub open spec fn opt_date_text(d: Option<Date>) -> Option<Seq<char>> {
    match d {
        Some(d) => Some(date_text(d.day_number())),
        None => None,
    }
}

pub open spec fn state_view(s: ContractRenewalState) -> TalksView {
    TalksView {
        status: s.status,
        blocked_until: opt_text(s.manager_blocked_until),
        outcome: s.last_outcome,
        exit: match s.exit_intent {
            Some(ContractExitIntent::LetExpire { set_on, reason }) => Some((set_on@, opt_text(reason))),
            None => None,
        },
        last_attempt: opt_text(s.last_attempt_date),
        round: s.conversation_round,
    }
}

pub open spec fn talks_view(t: Option<ContractRenewalState>) -> Option<TalksView> {
    match t {
        Some(s) => Some(state_view(s)),
        None => None,
    }
}

/// Talks as they stand, or idle talks when none were held.
pub open spec fn base_view(t: Option<ContractRenewalState>) -> TalksView {
    match t {
        Some(s) => state_view(s),
        None => TalksView {
            status: RenewalSessionStatus::Idle,
            blocked_until: None,
            outcome: None,
            exit: None,
            last_attempt: None,
            round: 0,
        },
    }
}

/// A negotiation round count as the talks record it: at most 255.
pub open spec fn capped_round(round: int) -> u8 {
    if round > 255 {
        255
    } else {
        round as u8
    }
}

/// Renewal talks after the manager sets or clears "let expire" on `today`:
/// setting blocks the talks, dates the attempt and records the intent to let
/// the contract run out; clearing removes that intent and, when it had
/// blocked the talks, returns them to idle.
pub open spec fn spec_let_expire(talks: Option<ContractRenewalState>, enabled: bool, today: Date) -> Option<
    TalksView,
> {
    if enabled {
        Some(
            TalksView {
                status: RenewalSessionStatus::Blocked,
                blocked_until: None,
                outcome: Some(RenewalSessionOutcome::BlockedByManager),
                exit: Some((date_text(today.day_number()), None)),
                last_attempt: Some(date_text(today.day_number())),
                round: 0,
            },
        )
    } else {
        match talks {
            None => None,
            Some(s) => {
                let v = state_view(s);
                if v.exit is Some && v.status == RenewalSessionStatus::Blocked {
                    Some(
                        TalksView {
                            status: RenewalSessionStatus::Idle,
                            blocked_until: None,
                            outcome: None,
                            exit: None,
                            round: 0,
                            ..v
                        },
                    )
                } else {
                    Some(TalksView { exit: None, ..v })
                }
            },
        }
    }
}

/// Update the renewal talks for a "let expire" setting.
pub fn let_expire_talks_after(talks: Option<ContractRenewalState>, enabled: bool, today: Date) -> (r: Option<
    ContractRenewalState,
>)
    ensures
        talks_view(r) == spec_let_expire(talks, enabled, today),
{
    if enabled {
        return Some(
            ContractRenewalState {
                status: RenewalSessionStatus::Blocked,
                manager_blocked_until: None,
                last_outcome: Some(RenewalSessionOutcome::BlockedByManager),
                exit_intent: Some(ContractExitIntent::LetExpire { set_on: today.to_text(), reason: None }),
                last_attempt_date: Some(today.to_text()),
                conversation_round: 0,
            },
        );
    }
    match talks {
        None => None,
        Some(s) => {
            let blocked = match s.status {
                RenewalSessionStatus::Blocked => true,
                _ => false,
            };
            if s.exit_intent.is_some() && blocked {
                Some(
                    ContractRenewalState {
                        status: RenewalSessionStatus::Idle,
                        manager_blocked_until: None,
                        last_outcome: None,
                        exit_intent: None,
                        conversation_round: 0,
                        ..s
                    },
                )
            } else {
                Some(ContractRenewalState { exit_intent: None, ..s })
            }
        },
    }
}

/// Whether a rejection counts as no attempt: invalid terms, blocked talks or
/// an agreement already reached today.
pub open spec fn not_an_attempt(reason: Seq<char>) -> bool {
    reason == "Invalid contract years"@ || reason == "Negotiation blocked"@ || reason == "Already agreed today"@
}

/// Renewal talks after the player's answer to a renewal review. A rejection
/// that is no attempt changes nothing. Otherwise the talks take the
/// contract's last attempt date, round and block date, and: a counter keeps
/// them open (stalled); a rejection blocks them when it sets a block date and
/// otherwise stalls them as refused by the player; acceptance keeps status and
/// outcome.
pub open spec fn spec_decision_talks(
    talks: Option<ContractRenewalState>,
    decision: Decision,
    contract: PlayerContract,
) -> Option<TalksView> {
    let base = base_view(talks);
    let dated = TalksView {
        blocked_until: opt_date_text(contract.blocked_until),
        last_attempt: opt_date_text(contract.last_attempt),
        round: capped_round(contract.round as int),
        ..base
    };
    match decision {
        Decision::Rejected { reason, blocked_until } => if not_an_attempt(reason@) {
            talks_view(talks)
        } else if blocked_until is Some {
            Some(
                TalksView {
                    status: RenewalSessionStatus::Blocked,
                    outcome: Some(RenewalSessionOutcome::BlockedByManager),
                    ..dated
                },
            )
        } else {
            Some(
                TalksView {
                    status: RenewalSessionStatus::Stalled,
                    outcome: Some(RenewalSessionOutcome::RejectedByPlayer),
                    ..dated
                },
            )
        },
        Decision::Counter { .. } => Some(
            TalksView { status: RenewalSessionStatus::Open, outcome: Some(RenewalSessionOutcome::Stalled), ..dated },
        ),
        Decision::Accepted => Some(dated),
    }
}

fn date_text_opt(d: Option<Date>) -> (r: Option<String>)
    ensures
        opt_text(r) == opt_date_text(d),
{
    match d {
        Some(d) => Some(d.to_text()),
        None => None,
    }
}

fn round_of(round: u32) -> (r: u8)
    ensures
        r == capped_round(round as int),
{
    if round > 255 {
        255
    } else {
        round as u8
    }
}

fn idle_talks() -> (r: ContractRenewalState)
    ensures
        state_view(r) == base_view(None),
{
    ContractRenewalState {
        status: RenewalSessionStatus::Idle,
        manager_blocked_until: None,
        last_outcome: None,
        exit_intent: None,
        last_attempt_date: None,
        conversation_round: 0,
    }
}

/// Update the renewal talks for the player's answer to a renewal review of
/// `contract` (the contract as the review left it).
pub fn renewal_talks_for_decision(
    talks: Option<ContractRenewalState>,
    decision: &Decision,
    contract: &PlayerContract,
) -> (r: Option<ContractRenewalState>)
    ensures
        talks_view(r) == spec_decision_talks(talks, *decision, *contract),
{
    proof {
        reveal_strlit("Invalid contract years");
        reveal_strlit("Negotiation blocked");
        reveal_strlit("Already agreed today");
    }
    match decision {
        Decision::Rejected { reason, .. } => {
            if str_eq(reason.as_str(), "Invalid contract years") || str_eq(reason.as_str(), "Negotiation blocked")
                || str_eq(reason.as_str(), "Already agreed today") {
                return talks;
            }
        },
        _ => {},
    }
    let base = match talks {
        Some(s) => s,
        None => idle_talks(),
    };
    let (status, last_outcome) = match decision {
        Decision::Accepted => (base.status, base.last_outcome),
        Decision::Counter { .. } => (RenewalSessionStatus::Open, Some(RenewalSessionOutcome::Stalled)),
        Decision::Rejected { blocked_until: b, .. } => {
            if b.is_some() {
                (RenewalSessionStatus::Blocked, Some(RenewalSessionOutcome::BlockedByManager))
            } else {
                (RenewalSessionStatus::Stalled, Some(RenewalSessionOutcome::RejectedByPlayer))
            }
        },
    };
    Some(
        ContractRenewalState {
            status,
            last_outcome,
            manager_blocked_until: date_text_opt(contract.blocked_until),
            last_attempt_date: date_text_opt(contract.last_attempt),
            conversation_round: round_of(contract.round),
            ..base
        },
    )
}

/// The category of a player's unresolved issue, as far as contracts care.
#[derive(Debug, Clone, Copy, PartialEq, Eq, Structural)]
pub enum IssueCategory {
    Contract,
    Other,
}

/// A free-agent signing in the player's movement history.
#[derive(Debug, Clone, PartialEq, Eq)]
pub struct Signing {
    pub date: String,
    pub to_team_id: String,
    pub to_team_name: String,
}

/// The player's social record, as contract changes read and write it.
#[derive(Debug, Clone, PartialEq, Eq)]
pub struct SocialContractRecord {
    pub team_id: Option<String>,
    pub wage: u32,
    pub contract_end: Option<String>,
    pub jersey_number: Option<u8>,
    pub transfer_listed: bool,
    pub loan_listed: bool,
    pub transfer_offers: Vec<String>,
    pub morale: u8,
    pub manager_trust: u8,
    pub unresolved_issue: Option<IssueCategory>,
    pub renewal: Option<ContractRenewalState>,
    pub signings: Vec<Signing>,
}

/// What a career command did that the social record follows.
#[derive(Debug, Clone, PartialEq, Eq)]
pub enum ContractChange {
    /// "Let expire" set or cleared.
    LetExpireSet { enabled: bool },
    /// The player's answer to a renewal review.
    RenewalAnswer { decision: Decision },
    /// A renewal, signing or termination applied.
    Renewed,
    Signed,
    Terminated,
}

/// The record after a change, given the contract as the change left it, the
/// day, the club and the shirt numbers the club's other players wear. Every
/// applied change copies the wage and the end date; a renewal marks the talks
/// agreed; a signing joins the club in a free shirt, clears the listings and
/// offers, takes morale and trust from the contract, ends the talks, drops a
/// contract grievance and records the signing; a termination leaves the club
/// and ends the talks.
pub open spec fn synced(
    before: SocialContractRecord,
    after: SocialContractRecord,
    contract: PlayerContract,
    change: ContractChange,
    today: Date,
    club_id: Seq<char>,
    club_name: Seq<char>,
    shirts: Seq<u8>,
) -> bool {
    let copied = after.wage == contract.weekly_wage && opt_text(after.contract_end) == opt_date_text(
        contract.end_date,
    );
    match change {
        ContractChange::LetExpireSet { enabled } => after == SocialContractRecord {
            renewal: after.renewal,
            ..before
        } && talks_view(after.renewal) == spec_let_expire(before.renewal, enabled, today),
        ContractChange::RenewalAnswer { decision } => after == SocialContractRecord {
            renewal: after.renewal,
            ..before
        } && talks_view(after.renewal) == spec_decision_talks(before.renewal, decision, contract),
        ContractChange::Renewed => {
            &&& after == SocialContractRecord {
                wage: after.wage,
                contract_end: after.contract_end,
                renewal: after.renewal,
                ..before
            }
            &&& copied
            &&& talks_view(after.renewal) == Some(
                TalksView {
                    status: RenewalSessionStatus::Agreed,
                    blocked_until: None,
                    outcome: Some(RenewalSessionOutcome::AcceptedByManager),
                    exit: None,
                    last_attempt: Some(date_text(today.day_number())),
                    round: capped_round(contract.round as int),
                },
            )
        },
        ContractChange::Signed => {
            &&& copied
            &&& after.jersey_number == spec_signing_shirt(before.jersey_number, shirts)
            &&& opt_text(after.team_id) == Some(club_id)
            &&& !after.transfer_listed
            &&& !after.loan_listed
            &&& after.transfer_offers@.len() == 0
            &&& after.morale == contract.morale
            &&& after.manager_trust == contract.manager_trust
            &&& after.unresolved_issue == (if before.unresolved_issue == Some(IssueCategory::Contract) {
                None
            } else {
                before.unresolved_issue
            })
            &&& after.renewal is None
            &&& after.signings@.len() == before.signings@.len() + 1
            &&& after.signings@.take(before.signings@.len() as int) == before.signings@
            &&& after.signings@.last().date@ == date_text(today.day_number())
            &&& after.signings@.last().to_team_id@ == club_id
            &&& after.signings@.last().to_team_name@ == club_name
        },
        ContractChange::Terminated => {
            &&& after == SocialContractRecord {
                wage: after.wage,
                contract_end: after.contract_end,
                team_id: None,
                renewal: None,
                ..before
            }
            &&& copied
        },
    }
}

/// Carry a contract change over to the player's social record. `contract` is
/// the player's contract after the change; a signing also records on it
/// whether a grievance remains.
pub fn sync_contract_social(
    record: &mut SocialContractRecord,
    contract: &mut PlayerContract,
    change: &ContractChange,
    today: Date,
    club_id: &str,
    club_name: &str,
    shirts: &Vec<u8>,
)
    ensures
        synced(*old(record), *final(record), *old(contract), *change, today, club_id@, club_name@, shirts@),
        *final(contract) == (match change {
            ContractChange::Signed => PlayerContract {
                unresolved_issue: final(record).unresolved_issue is Some,
                ..*old(contract)
            },
            _ => *old(contract),
        }),
{
    match change {
        ContractChange::LetExpireSet { enabled } => {
            let talks = record.renewal.take();
            record.renewal = let_expire_talks_after(talks, *enabled, today);
        },
        ContractChange::RenewalAnswer { decision } => {
            let talks = record.renewal.take();
            record.renewal = renewal_talks_for_decision(talks, decision, contract);
        },
        ContractChange::Renewed => {
            record.wage = contract.weekly_wage;
            record.contract_end = date_text_opt(contract.end_date);
            record.renewal = Some(
                ContractRenewalState {
                    status: RenewalSessionStatus::Agreed,
                    manager_blocked_until: None,
                    last_outcome: Some(RenewalSessionOutcome::AcceptedByManager),
                    exit_intent: None,
                    last_attempt_date: Some(today.to_text()),
                    conversation_round: round_of(contract.round),
                },
            );
        },
        ContractChange::Signed => {
            let shirt = signing_shirt(record.jersey_number, shirts);
            record.wage = contract.weekly_wage;
            record.contract_end = date_text_opt(contract.end_date);
            record.jersey_number = shirt;
            record.team_id = Some(club_id.to_owned());
            record.transfer_listed = false;
            record.loan_listed = false;
            record.transfer_offers = Vec::new();
            record.morale = contract.morale;
            record.manager_trust = contract.manager_trust;
            record.renewal = None;
            match record.unresolved_issue {
                Some(IssueCategory::Contract) => {
                    record.unresolved_issue = None;
                },
                _ => {},
            }
            contract.unresolved_issue = record.unresolved_issue.is_some();
            let ghost before = record.signings@;
            record.signings.push(
                Signing { date: today.to_text(), to_team_id: club_id.to_owned(), to_team_name: club_name.to_owned() },
            );
            proof {
                assert(record.signings@.take(before.len() as int) =~= before);
            }
        },
        ContractChange::Terminated => {
            record.wage = contract.weekly_wage;
            record.contract_end = date_text_opt(contract.end_date);
            record.team_id = None;
            record.renewal = None;
        },
    }
}

} // verus!
