//! Contract actions of a club: renewing a contract, signing a free agent, and
//! terminating a contract. A review works on copies of the contract and the
//! club's figures; the caller commits the outcome.
use vstd::prelude::*;
use crate::dates::{Date, months_later};
use crate::contracts::{
    PlayerContract, Decision, Verdict, WageTerms, contract_valid, spec_negotiate, spec_remaining_days,
    spec_wage_policy, states_verdict, wage_policy_allows,
};

verus! {

#[derive(Debug, Clone, PartialEq, Eq)]
pub enum ContractAction {
    Renew { player_id: String, weekly_wage: u32, years: u32 },
    Sign { player_id: String, weekly_wage: u32, years: u32 },
    Terminate { player_id: String },
}

/// The player an action is about.
pub open spec fn action_player(a: ContractAction) -> Seq<char> {
    match a {
        ContractAction::Renew { player_id, .. } => player_id@,
        ContractAction::Sign { player_id, .. } => player_id@,
        ContractAction::Terminate { player_id } => player_id@,
    }
}

impl ContractAction {
    pub fn player_id(&self) -> (r: &str)
        ensures
            r@ == action_player(*self),
    {
        match self {
            ContractAction::Renew { player_id, .. } => player_id.as_str(),
            ContractAction::Sign { player_id, .. } => player_id.as_str(),
            ContractAction::Terminate { player_id } => player_id.as_str(),
        }
    }
}

/// The figures a contract review reads: the day, the club's balance, wage
/// total and wage budget, its squad size, the player's contract, and the
/// negotiation state (the contract itself except when signing a free agent).
#[derive(Debug, Clone, Copy, PartialEq, Eq, Structural)]
pub struct ContractDependencies {
    pub date: Date,
    pub balance: i64,
    pub contract: PlayerContract,
    pub negotiation: PlayerContract,
    pub wage_total: u64,
    pub wage_budget: u64,
    pub squad_size: u64,
}

/// A reviewed contract action: the balance and wage total it leaves, the
/// resulting contract end and the severance it costs.
#[derive(Debug, Clone, PartialEq, Eq)]
pub struct CareerPreview {
    pub id: u64,
    pub player_id: String,
    pub action: ContractAction,
    pub balance_after: i64,
    pub projected_wage_total: u64,
    pub contract_end: Option<Date>,
    pub severance: i64,
}

#[derive(Debug, Clone, PartialEq, Eq)]
pub enum CareerError {
    Contract(String),
    SquadTooSmall,
    Overflow,
}

/// Why a review fails.
pub enum ReviewFailure {
    /// The contract rules refuse (an invalid profile, or terms that cannot be
    /// computed or dated).
    ContractRules,
    /// The board's wage policy refuses the agreed wage.
    WagePolicy,
    /// There is no contract to terminate.
    NoActiveContract,
    SquadTooSmall,
    Overflow,
}

/// A review's figures: what the club's balance and wage total become, the
/// contract after the action, the verdict, and the severance paid.
pub struct ContractReview {
    pub balance_after: int,
    pub projected_wage_total: int,
    pub contract: PlayerContract,
    pub verdict: Verdict,
    pub severance: int,
}

/// The review of `action` on `dep`, given the negotiation's wage terms (`None`
/// when they could not be computed). An agreed renewal or signing must pass
/// the wage policy, then takes the new wage and a new end date; termination
/// needs an active contract and a squad of more than eleven, and pays the
/// remaining weeks.
pub open spec fn spec_review(action: ContractAction, dep: ContractDependencies, terms: Option<WageTerms>) -> Result<ContractReview, ReviewFailure> {
    match action {
        ContractAction::Terminate { .. } => {
            if dep.contract.end_date is None {
                Err(ReviewFailure::NoActiveContract)
            } else if dep.squad_size <= 11 {
                Err(ReviewFailure::SquadTooSmall)
            } else {
                let severance = ((spec_remaining_days(dep.contract, dep.date) + 6) / 7) * dep.contract.weekly_wage;
                if dep.balance - severance < i64::MIN || dep.wage_total < dep.contract.weekly_wage {
                    Err(ReviewFailure::Overflow)
                } else {
                    Ok(
                        ContractReview {
                            balance_after: dep.balance - severance,
                            projected_wage_total: dep.wage_total - dep.contract.weekly_wage,
                            contract: PlayerContract { end_date: None, ..dep.negotiation },
                            verdict: Verdict::Accepted,
                            severance,
                        },
                    )
                }
            }
        },
        _ => {
            let (wage, years, free) = match action {
                ContractAction::Sign { weekly_wage, years, .. } => (weekly_wage, years, true),
                ContractAction::Renew { weekly_wage, years, .. } => (weekly_wage, years, false),
                ContractAction::Terminate { .. } => (0u32, 0u32, false),
            };
            if !(contract_valid(dep.negotiation, dep.date) && spec_negotiate(
                dep.negotiation,
                dep.date,
                wage as int,
                years as int,
                free,
                terms,
            ) is Some) {
                Err(ReviewFailure::ContractRules)
            } else {
                let (verdict, negotiated) = spec_negotiate(
                    dep.negotiation,
                    dep.date,
                    wage as int,
                    years as int,
                    free,
                    terms,
                )->0;
                if verdict != Verdict::Accepted {
                    Ok(
                        ContractReview {
                            balance_after: dep.balance as int,
                            projected_wage_total: dep.wage_total as int,
                            contract: negotiated,
                            verdict,
                            severance: 0,
                        },
                    )
                } else {
                    let old = if free { 0 } else { dep.contract.weekly_wage as int };
                    let projected = (if dep.wage_total >= old { dep.wage_total - old } else { 0 }) + wage;
                    if !spec_wage_policy(dep.wage_budget as int, dep.wage_total as int, old, wage as int) {
                        Err(ReviewFailure::WagePolicy)
                    } else if projected > u64::MAX {
                        Err(ReviewFailure::Overflow)
                    } else {
                        match months_later(dep.date.day_number(), years * 12) {
                            None => Err(ReviewFailure::ContractRules),
                            Some(end) => Ok(
                                ContractReview {
                                    balance_after: dep.balance as int,
                                    projected_wage_total: projected,
                                    contract: PlayerContract {
                                        weekly_wage: wage,
                                        end_date: Some(Date::from_day_number_spec(end)),
                                        blocked_until: None,
                                        last_attempt: Some(dep.date),
                                        last_agreed: Some(dep.date),
                                        let_expire: false,
                                        ..negotiated
                                    },
                                    verdict,
                                    severance: 0,
                                },
                            ),
                        }
                    }
                }
            }
        },
    }
}

/// An error as the failure it reports.
pub open spec fn reports_failure(e: CareerError, f: ReviewFailure) -> bool {
    match (e, f) {
        (CareerError::Contract(_), ReviewFailure::ContractRules) => true,
        (CareerError::Contract(m), ReviewFailure::WagePolicy) => m@ == "Board wage policy refuses these terms"@,
        (CareerError::Contract(m), ReviewFailure::NoActiveContract) => m@ == "Player has no active contract"@,
        (CareerError::SquadTooSmall, ReviewFailure::SquadTooSmall) => true,
        (CareerError::Overflow, ReviewFailure::Overflow) => true,
        _ => false,
    }
}

/// Two actions of the same kind, about the same player, on the same terms.
pub open spec fn same_action(a: ContractAction, b: ContractAction) -> bool {
    action_player(a) == action_player(b) && match (a, b) {
        (
            ContractAction::Renew { weekly_wage: w, years: y, .. },
            ContractAction::Renew { weekly_wage: w2, years: y2, .. },
        ) => w == w2 && y == y2,
        (
            ContractAction::Sign { weekly_wage: w, years: y, .. },
            ContractAction::Sign { weekly_wage: w2, years: y2, .. },
        ) => w == w2 && y == y2,
        (ContractAction::Terminate { .. }, ContractAction::Terminate { .. }) => true,
        _ => false,
    }
}

fn copy_action(a: &ContractAction) -> (r: ContractAction)
    ensures
        same_action(r, *a),
{
    match a {
        ContractAction::Renew { player_id, weekly_wage, years } => ContractAction::Renew {
            player_id: player_id.clone(),
            weekly_wage: *weekly_wage,
            years: *years,
        },
        ContractAction::Sign { player_id, weekly_wage, years } => ContractAction::Sign {
            player_id: player_id.clone(),
            weekly_wage: *weekly_wage,
            years: *years,
        },
        ContractAction::Terminate { player_id } => ContractAction::Terminate { player_id: player_id.clone() },
    }
}

/// Review `action` on `dep`, numbering the preview `id`. `terms` are the wage
/// thresholds of the negotiation, computed by the caller. Returns the preview,
/// the contract it would leave, and the player's decision.
pub fn contract_preview(
    id: u64,
    action: &ContractAction,
    dep: &ContractDependencies,
    terms: Result<WageTerms, String>,
) -> (r: Result<(CareerPreview, PlayerContract, Decision), CareerError>)
    ensures
        ({
            let terms_opt = match terms {
                Ok(t) => Some(t),
                Err(_) => None,
            };
            match (r, spec_review(*action, *dep, terms_opt)) {
                (Ok((preview, contract, decision)), Ok(review)) => {
                    &&& preview.id == id
                    &&& preview.player_id@ == action_player(*action)
                    &&& same_action(preview.action, *action)
                    &&& preview.balance_after == review.balance_after
                    &&& preview.projected_wage_total == review.projected_wage_total
                    &&& preview.contract_end == review.contract.end_date
                    &&& preview.severance == review.severance
                    &&& contract == review.contract
                    &&& states_verdict(decision, review.verdict)
                },
                (Err(e), Err(f)) => reports_failure(e, f),
                _ => false,
            }
        }),
{
    let mut negotiated = dep.negotiation;
    let mut balance_after = dep.balance;
    let mut projected = dep.wage_total;
    let mut severance: i64 = 0;
    let decision = match action {
        ContractAction::Terminate { .. } => {
            if dep.contract.end_date.is_none() {
                return Err(CareerError::Contract("Player has no active contract".to_owned()));
            }
            if dep.squad_size <= 11 {
                return Err(CareerError::SquadTooSmall);
            }
            severance = match dep.contract.severance(dep.date) {
                Ok(s) => s,
                Err(e) => return Err(CareerError::Contract(e)),
            };
            balance_after = match dep.balance.checked_sub(severance) {
                Some(b) => b,
                None => return Err(CareerError::Overflow),
            };
            projected = match dep.wage_total.checked_sub(dep.contract.weekly_wage as u64) {
                Some(p) => p,
                None => return Err(CareerError::Overflow),
            };
            negotiated.end_date = None;
            Decision::Accepted
        },
        ContractAction::Renew { weekly_wage, years, .. } | ContractAction::Sign { weekly_wage, years, .. } => {
            let free = match action {
                ContractAction::Sign { .. } => true,
                _ => false,
            };
            let decision = match negotiated.negotiate(dep.date, *weekly_wage, *years, free, terms) {
                Ok(d) => d,
                Err(e) => return Err(CareerError::Contract(e)),
            };
            let accepted = match decision {
                Decision::Accepted => true,
                _ => false,
            };
            if accepted {
                let old: u32 = if free { 0 } else { dep.contract.weekly_wage };
                if !wage_policy_allows(dep.balance, dep.wage_budget, dep.wage_total, old, *weekly_wage) {
                    return Err(CareerError::Contract("Board wage policy refuses these terms".to_owned()));
                }
                let retained: u64 = if dep.wage_total >= old as u64 { dep.wage_total - old as u64 } else { 0 };
                projected = match retained.checked_add(*weekly_wage as u64) {
                    Some(p) => p,
                    None => return Err(CareerError::Overflow),
                };
                match negotiated.apply_agreement(dep.date, *weekly_wage, *years) {
                    Ok(()) => {},
                    Err(e) => return Err(CareerError::Contract(e)),
                }
                proof {
                    Date::lemma_date_of_day_number(negotiated.end_date->0);
                }
            }
            decision
        },
    };
    let preview = CareerPreview {
        id,
        player_id: action.player_id().to_owned(),
        action: copy_action(action),
        balance_after,
        projected_wage_total: projected,
        contract_end: negotiated.end_date,
        severance,
    };
    Ok((preview, negotiated, decision))
}

/// The contract of a newly signed free agent: morale up by six (at most 100),
/// manager trust at least 55, and the negotiation memory cleared. An unresolved
/// issue is kept.
pub open spec fn spec_signed(c: PlayerContract) -> PlayerContract {
    PlayerContract {
        morale: (if c.morale + 6 > 100 { 100 } else { c.morale + 6 }) as u8,
        manager_trust: (if c.manager_trust < 55 { 55 } else { c.manager_trust }) as u8,
        last_attempt: None,
        last_agreed: None,
        round: 0,
        ..c
    }
}

pub fn signed_contract(c: PlayerContract) -> (r: PlayerContract)
    ensures
        r == spec_signed(c),
{
    let raised: u8 = c.morale.saturating_add(6);
    PlayerContract {
        morale: if raised > 100 { 100 } else { raised },
        manager_trust: if c.manager_trust < 55 { 55 } else { c.manager_trust },
        last_attempt: None,
        last_agreed: None,
        round: 0,
        ..c
    }
}


/// The sum of a list of wages.
pub open spec fn wage_sum(wages: Seq<u32>) -> int
    decreases wages.len(),
{
    if wages.len() == 0 {
        0
    } else {
        wage_sum(wages.drop_last()) + wages.last()
    }
}

/// The weekly wage charge of a list of annual wages: each divided by 52,
/// rounded down, then added up.
pub open spec fn weekly_charge(wages: Seq<u32>) -> int
    decreases wages.len(),
{
    if wages.len() == 0 {
        0
    } else {
        weekly_charge(wages.drop_last()) + wages.last() / 52
    }
}

proof fn lemma_sums_grow(wages: Seq<u32>, i: int)
    requires
        0 <= i <= wages.len(),
    ensures
        0 <= wage_sum(wages.take(i)) <= wage_sum(wages),
        0 <= weekly_charge(wages.take(i)) <= weekly_charge(wages),
    decreases wages.len() - i,
{
    if i < wages.len() {
        lemma_sums_grow(wages, i + 1);
        assert(wages.take(i + 1).drop_last() =~= wages.take(i));
    } else {
        assert(wages.take(i) =~= wages);
    }
    lemma_sums_nonnegative(wages.take(i));
}

proof fn lemma_sums_nonnegative(wages: Seq<u32>)
    ensures
        wage_sum(wages) >= 0,
        weekly_charge(wages) >= 0,
    decreases wages.len(),
{
    if wages.len() > 0 {
        lemma_sums_nonnegative(wages.drop_last());
    }
}

/// A club's wage total: its players' contract wages and its staff's annual
/// wages, added up; an error when the total does not fit in 64 bits.
pub fn contract_wage_total(wages: &[u32]) -> (r: Result<u64, String>)
    ensures
        r matches Ok(t) ==> t == wage_sum(wages@),
        r is Err <==> wage_sum(wages@) > u64::MAX,
        r matches Err(e) ==> e@ == "Wage total overflow"@,
{
    let mut total: u64 = 0;
    for i in 0..wages.len()
        invariant
            total == wage_sum(wages@.take(i as int)),
    {
        assert(wages@.take(i + 1).drop_last() =~= wages@.take(i as int));
        match total.checked_add(wages[i] as u64) {
            Some(t) => total = t,
            None => {
                proof {
                    lemma_sums_grow(wages@, i + 1);
                }
                return Err(String::from_str("Wage total overflow"));
            },
        }
    }
    assert(wages@.take(wages@.len() as int) =~= wages@);
    Ok(total)
}

/// The Monday wage charge of a club: each player's and staff member's annual
/// wage divided by 52 (rounded down), added up; `None` when it does not fit in
/// a signed 64-bit amount.
pub fn weekly_wage_charge(wages: &[u32]) -> (r: Option<i64>)
    ensures
        r matches Some(c) ==> c == weekly_charge(wages@),
        r is None <==> weekly_charge(wages@) > i64::MAX,
{
    let mut total: i64 = 0;
    for i in 0..wages.len()
        invariant
            total == weekly_charge(wages@.take(i as int)),
            total >= 0,
    {
        assert(wages@.take(i + 1).drop_last() =~= wages@.take(i as int));
        match total.checked_add((wages[i] / 52) as i64) {
            Some(t) => total = t,
            None => {
                proof {
                    lemma_sums_grow(wages@, i + 1);
                }
                return None;
            },
        }
    }
    assert(wages@.take(wages@.len() as int) =~= wages@);
    Some(total)
}

/// The share of the wage budget that a wage total uses, in whole percent
/// (a budget of zero counts as one), capped at `u32::MAX`.
pub open spec fn spec_wage_usage_percent(total: int, budget: int) -> int {
    let p = total * 100 / (if budget < 1 { 1 } else { budget });
    if p > u32::MAX { u32::MAX as int } else { p }
}

/// Wage usage of a club for the board's season review.
pub fn wage_usage_percent(total: u64, budget: u64) -> (r: u32)
    ensures
        r == spec_wage_usage_percent(total as int, budget as int),
{
    let b: u128 = if budget < 1 { 1 } else { budget as u128 };
    assert((total as u128) * 100 <= u128::MAX) by (nonlinear_arith)
        requires total <= u64::MAX;
    let p: u128 = (total as u128) * 100 / b;
    if p > u32::MAX as u128 {
        u32::MAX
    } else {
        p as u32
    }
}


/// The lowest shirt number from `n` to 99 that nobody in the squad wears.
pub open spec fn lowest_free_shirt(used: Seq<u8>, n: int) -> Option<u8>
    decreases 100 - n,
{
    if n > 99 || n < 1 {
        None
    } else if used.contains(n as u8) {
        lowest_free_shirt(used, n + 1)
    } else {
        Some(n as u8)
    }
}

/// The shirt number a signing free agent wears: his own when no squad mate
/// wears it, otherwise the lowest free number from 1 to 99 (none if all are taken).
pub open spec fn spec_signing_shirt(own: Option<u8>, used: Seq<u8>) -> Option<u8> {
    match own {
        Some(n) if !used.contains(n) => Some(n),
        _ => lowest_free_shirt(used, 1),
    }
}

fn shirt_taken(used: &Vec<u8>, n: u8) -> (r: bool)
    ensures
        r == used@.contains(n),
{
    let mut i: usize = 0;
    while i < used.len()
        invariant
            i <= used@.len(),
            forall|k: int| 0 <= k < i ==> used@[k] != n,
        decreases used@.len() - i,
    {
        if used[i] == n {
            assert(used@[i as int] == n);
            return true;
        }
        i = i + 1;
    }
    false
}

/// The shirt number of a signing free agent, given the numbers his new squad
/// mates wear.
pub fn signing_shirt(own: Option<u8>, used: &Vec<u8>) -> (r: Option<u8>)
    ensures
        r == spec_signing_shirt(own, used@),
{
    match own {
        Some(n) => {
            if !shirt_taken(used, n) {
                return Some(n);
            }
        },
        None => {},
    }
    let mut n: u8 = 1;
    while n <= 99
        invariant
            1 <= n <= 100,
            own matches Some(k) ==> used@.contains(k),
            lowest_free_shirt(used@, 1) == lowest_free_shirt(used@, n as int),
        decreases 100 - n,
    {
        if !shirt_taken(used, n) {
            return Some(n);
        }
        n = n + 1;
    }
    None
}


} // verus!
