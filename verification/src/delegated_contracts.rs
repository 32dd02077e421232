//! Renewals handed to the assistant manager. Which players are taken, and how
//! each case ends: let expire, blocked, beyond the manager's limits, refused by
//! the board's wage policy, agreed, left for the manager, or refused by the
//! player. The caller applies agreements and records the report.
use vstd::prelude::*;
use crate::dates::Date;
use crate::contracts::{
    PlayerContract, WarningStage, spec_age_on, spec_expected_years, spec_warning_stage, spec_wage_policy,
    wage_policy_allows,
};
use crate::career::CareerError;
use crate::text::{contains_text, text_views};

verus! {

/// The limits a manager gives the assistant, and optionally the players to
/// handle (otherwise every player whose renewal warning has started).
#[derive(Debug, Clone, PartialEq, Eq)]
pub struct Delegation {
    pub player_ids: Option<Vec<String>>,
    pub max_wage_increase_pct: u32,
    pub max_contract_years: u32,
}

/// The assistant's ratings that weigh in a negotiation.
#[derive(Debug, Clone, Copy, PartialEq, Eq, Structural)]
pub struct AssistantRatings {
    pub coaching: u8,
    pub judging_ability: u8,
    pub judging_potential: u8,
}

#[derive(Debug, Clone, Copy, PartialEq, Eq, Structural)]
pub enum CaseStatus {
    Successful,
    Stalled,
    Failed,
}

/// Why a case ended as it did.
#[derive(Debug, Clone, Copy, PartialEq, Eq, Structural)]
pub enum CaseNote {
    MarkedLetExpire,
    ManagerBlocked,
    BeyondLimits,
    BoardWagePolicy,
    Completed,
    PrefersManager,
    RelationshipBlocked,
}

/// The renewal session status a case leaves.
#[derive(Debug, Clone, Copy, PartialEq, Eq, Structural)]
pub enum SessionStatus {
    Open,
    Stalled,
    Agreed,
}

/// The renewal session outcome a case records.
#[derive(Debug, Clone, Copy, PartialEq, Eq, Structural)]
pub enum SessionOutcome {
    Stalled,
    AcceptedByAssistant,
    RejectedByPlayer,
}

/// How one delegated renewal ends: status and note, the renewal session it
/// leaves (none for let-expire and blocked cases), the player's expected terms,
/// and the agreed wage and years of a successful case.
#[derive(Debug, Clone, Copy, PartialEq, Eq, Structural)]
pub struct DelegatedCase {
    pub status: CaseStatus,
    pub note: CaseNote,
    pub session_status: Option<SessionStatus>,
    pub session_outcome: Option<SessionOutcome>,
    pub expected_wage: u32,
    pub expected_years: u32,
    pub agreed_wage: Option<u32>,
    pub agreed_years: Option<u32>,
}

/// Whether a contract is handed to the assistant: it must have an end date;
/// a listed player is taken as listed; otherwise the contract must not be let
/// expire, the player must have no exit intent, and a renewal warning must
/// have started.
pub open spec fn spec_candidate(
    c: PlayerContract,
    today: Date,
    exit_intent: bool,
    selection: Option<Seq<Seq<char>>>,
    player_id: Seq<char>,
) -> bool {
    c.end_date is Some && match selection {
        Some(ids) => ids.contains(player_id),
        None => !c.let_expire && !exit_intent && spec_warning_stage(c, today) is Some,
    }
}

/// Whether a player is handed to the assistant.
pub fn delegation_candidate(
    contract: &PlayerContract,
    today: Date,
    exit_intent: bool,
    selection: &Option<Vec<String>>,
    player_id: &str,
) -> (r: bool)
    ensures
        r == spec_candidate(
            *contract,
            today,
            exit_intent,
            match selection {
                Some(ids) => Some(text_views(ids@)),
                None => None,
            },
            player_id@,
        ),
{
    if contract.end_date.is_none() {
        return false;
    }
    match selection {
        Some(ids) => contains_text(ids, player_id),
        None => !contract.let_expire && !exit_intent && contract.warning_stage(today).is_some(),
    }
}

/// Urgency of a renewal by its warning stage.
pub open spec fn spec_urgency(stage: Option<WarningStage>) -> int {
    match stage {
        Some(WarningStage::FinalWeeks) => 18,
        Some(WarningStage::ThreeMonths) => 14,
        Some(WarningStage::SixMonths) => 10,
        Some(WarningStage::TwelveMonths) => 6,
        None => 2,
    }
}

/// The assistant's negotiation score: a tenth of four times coaching plus
/// three times each judging rating, a third of the player's trust in the
/// manager, half his morale and the urgency; less 22 for a market value of at
/// least 2,000,000 (10 from 750,000) and half the severity of an unresolved issue.
pub open spec fn spec_score(
    c: PlayerContract,
    today: Date,
    a: AssistantRatings,
    issue_severity: Option<u8>,
) -> int {
    (a.coaching * 4 + a.judging_ability * 3 + a.judging_potential * 3) / 10 + c.manager_trust / 3 + c.morale / 2
        + spec_urgency(spec_warning_stage(c, today)) - (if c.market_value >= 2_000_000 {
        22int
    } else if c.market_value >= 750_000 {
        10int
    } else {
        0int
    }) - match issue_severity {
        Some(s) => s / 2,
        None => 0,
    }
}

/// The highest wage the assistant may agree: the current wage raised by the
/// allowed percentage (saturating at `u32::MAX`), rounded up to a thousand.
pub open spec fn spec_wage_cap(wage: int, percent: int) -> int {
    let raised = if wage * percent > u32::MAX {
        u32::MAX as int
    } else {
        wage * percent
    };
    (raised / 100 + 999) / 1000 * 1000
}

/// How a case ends, given the player's expected wage and years, whether a
/// manager block or exit intent stands, and the club's wage figures. `None`
/// when the allowed increase does not fit 100 plus it in `u32`.
pub open spec fn spec_case(
    c: PlayerContract,
    today: Date,
    expected_wage: int,
    exit_intent: bool,
    manager_blocked: bool,
    issue_severity: Option<u8>,
    a: AssistantRatings,
    options_max_pct: int,
    options_max_years: int,
    wage_total: int,
    wage_budget: int,
) -> Option<DelegatedCase> {
    if 100 + options_max_pct > u32::MAX {
        None
    } else {
        let years = spec_expected_years(spec_age_on(c, today));
        let max_years = if options_max_years < 1 {
            1
        } else {
            options_max_years
        };
        let cap = spec_wage_cap(c.weekly_wage as int, 100 + options_max_pct);
        let blocked = manager_blocked || (c.blocked_until matches Some(u) && u.day_number()
            >= today.day_number());
        let let_expire = c.let_expire || exit_intent;
        let score = spec_score(c, today, a, issue_severity);
        let policy = spec_wage_policy(wage_budget, wage_total, c.weekly_wage as int, expected_wage);
        let (status, note, session) = if let_expire {
            (CaseStatus::Failed, CaseNote::MarkedLetExpire, None)
        } else if blocked {
            (CaseStatus::Failed, CaseNote::ManagerBlocked, None)
        } else if cap < expected_wage || max_years < years {
            (
                CaseStatus::Stalled,
                CaseNote::BeyondLimits,
                Some((SessionStatus::Stalled, SessionOutcome::Stalled)),
            )
        } else if score >= 95 && !policy {
            (
                CaseStatus::Stalled,
                CaseNote::BoardWagePolicy,
                Some((SessionStatus::Stalled, SessionOutcome::Stalled)),
            )
        } else if score >= 95 {
            (
                CaseStatus::Successful,
                CaseNote::Completed,
                Some((SessionStatus::Agreed, SessionOutcome::AcceptedByAssistant)),
            )
        } else if score >= 72 {
            (
                CaseStatus::Stalled,
                CaseNote::PrefersManager,
                Some((SessionStatus::Open, SessionOutcome::Stalled)),
            )
        } else {
            (
                CaseStatus::Failed,
                CaseNote::RelationshipBlocked,
                Some((SessionStatus::Stalled, SessionOutcome::RejectedByPlayer)),
            )
        };
        Some(
            DelegatedCase {
                status,
                note,
                session_status: match session {
                    Some((st, _)) => Some(st),
                    None => None,
                },
                session_outcome: match session {
                    Some((_, out)) => Some(out),
                    None => None,
                },
                expected_wage: expected_wage as u32,
                expected_years: years as u32,
                agreed_wage: if status == CaseStatus::Successful {
                    Some(expected_wage as u32)
                } else {
                    None
                },
                agreed_years: if status == CaseStatus::Successful {
                    Some(
                        (if years < max_years {
                            years
                        } else {
                            max_years
                        }) as u32,
                    )
                } else {
                    None
                },
            },
        )
    }
}

/// Decide one delegated renewal. `expected_wage` is the player's expected wage
/// as the contract rules compute it; `manager_blocked` says whether the
/// manager's own renewal talks are currently refused. Fails with `Overflow`
/// exactly when 100 plus the allowed increase does not fit in `u32`.
pub fn delegated_case(
    contract: &PlayerContract,
    today: Date,
    expected_wage: u32,
    exit_intent: bool,
    manager_blocked: bool,
    issue_severity: Option<u8>,
    assistant: AssistantRatings,
    options: &Delegation,
    wage_total: u64,
    wage_budget: u64,
    balance: i64,
) -> (r: Result<DelegatedCase, CareerError>)
    ensures
        match spec_case(
            *contract,
            today,
            expected_wage as int,
            exit_intent,
            manager_blocked,
            issue_severity,
            assistant,
            options.max_wage_increase_pct as int,
            options.max_contract_years as int,
            wage_total as int,
            wage_budget as int,
        ) {
            Some(case) => r == Ok::<DelegatedCase, CareerError>(case),
            None => r matches Err(CareerError::Overflow),
        },
{
    let years = contract.expected_years(today);
    let max_years: u32 = if options.max_contract_years < 1 {
        1
    } else {
        options.max_contract_years
    };
    let percent: u32 = match 100u32.checked_add(options.max_wage_increase_pct) {
        Some(p) => p,
        None => return Err(CareerError::Overflow),
    };
    assert((contract.weekly_wage as u64) * (percent as u64) <= u64::MAX) by (nonlinear_arith)
        requires
            contract.weekly_wage <= u32::MAX,
            percent <= u32::MAX,
    ;
    let product: u64 = (contract.weekly_wage as u64) * (percent as u64);
    let raised: u32 = if product > u32::MAX as u64 {
        u32::MAX
    } else {
        product as u32
    };
    let cap: u32 = (raised / 100 + 999) / 1000 * 1000;
    let blocked = manager_blocked || match contract.blocked_until {
        Some(until) => !until.is_before(today),
        None => false,
    };
    let let_expire = contract.let_expire || exit_intent;
    let urgency: i32 = match contract.warning_stage(today) {
        Some(WarningStage::FinalWeeks) => 18,
        Some(WarningStage::ThreeMonths) => 14,
        Some(WarningStage::SixMonths) => 10,
        Some(WarningStage::TwelveMonths) => 6,
        None => 2,
    };
    let value_penalty: i32 = if contract.market_value >= 2_000_000 {
        22
    } else if contract.market_value >= 750_000 {
        10
    } else {
        0
    };
    let issue_penalty: i32 = match issue_severity {
        Some(s) => (s / 2) as i32,
        None => 0,
    };
    let score: i32 = (assistant.coaching as i32 * 4 + assistant.judging_ability as i32 * 3
        + assistant.judging_potential as i32 * 3) / 10 + contract.manager_trust as i32 / 3
        + contract.morale as i32 / 2 + urgency - value_penalty - issue_penalty;
    let policy = wage_policy_allows(balance, wage_budget, wage_total, contract.weekly_wage, expected_wage);
    let (status, note, session) = if let_expire {
        (CaseStatus::Failed, CaseNote::MarkedLetExpire, None)
    } else if blocked {
        (CaseStatus::Failed, CaseNote::ManagerBlocked, None)
    } else if cap < expected_wage || max_years < years {
        (CaseStatus::Stalled, CaseNote::BeyondLimits, Some((SessionStatus::Stalled, SessionOutcome::Stalled)))
    } else if score >= 95 && !policy {
        (CaseStatus::Stalled, CaseNote::BoardWagePolicy, Some((SessionStatus::Stalled, SessionOutcome::Stalled)))
    } else if score >= 95 {
        (
            CaseStatus::Successful,
            CaseNote::Completed,
            Some((SessionStatus::Agreed, SessionOutcome::AcceptedByAssistant)),
        )
    } else if score >= 72 {
        (CaseStatus::Stalled, CaseNote::PrefersManager, Some((SessionStatus::Open, SessionOutcome::Stalled)))
    } else {
        (
            CaseStatus::Failed,
            CaseNote::RelationshipBlocked,
            Some((SessionStatus::Stalled, SessionOutcome::RejectedByPlayer)),
        )
    };
    let successful = match status {
        CaseStatus::Successful => true,
        _ => false,
    };
    let (session_status, session_outcome) = match session {
        Some((st, out)) => (Some(st), Some(out)),
        None => (None, None),
    };
    Ok(DelegatedCase {
        status,
        note,
        session_status,
        session_outcome,
        expected_wage,
        expected_years: years,
        agreed_wage: if successful { Some(expected_wage) } else { None },
        agreed_years: if successful {
            Some(if years < max_years { years } else { max_years })
        } else {
            None
        },
    })
}

} // verus!
