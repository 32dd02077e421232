//! Contract rules: renewal and free-agent negotiation, let-expire, agreements,
//! severance, expiry warnings and the wage-budget policy. A preview evaluates a
//! copy; only confirmation commits it. The wage expectations themselves are
//! computed in single-precision floating point by the caller and handed in as
//! [`WageTerms`].
use vstd::prelude::*;
use crate::dates::{Date, calendar_year, calendar_ordinal, months_later, day_number_in_range};

verus! {

/// The negotiation-relevant profile of a player under contract.
#[derive(Debug, Clone, Copy, PartialEq, Eq, Structural)]
pub struct PlayerContract {
    pub date_of_birth: Date,
    pub weekly_wage: u32,
    pub end_date: Option<Date>,
    pub market_value: u64,
    pub morale: u8,
    pub manager_trust: u8,
    pub unresolved_issue: bool,
    pub recent_poor_treatment: bool,
    pub let_expire: bool,
    pub blocked_until: Option<Date>,
    pub last_attempt: Option<Date>,
    pub last_agreed: Option<Date>,
    pub round: u32,
}

/// Why an offer was rejected.
#[derive(Debug, Clone, Copy, PartialEq, Eq, Structural)]
pub enum RejectReason {
    InvalidYears,
    NegotiationBlocked,
    AlreadyAgreedToday,
    BelowMinimumWage,
    InsultingOffer,
    ManagerRelationship,
}

#[derive(Debug, Clone, PartialEq, Eq)]
pub enum Decision {
    Accepted,
    Counter { weekly_wage: u32, years: u32 },
    Rejected { reason: String, blocked_until: Option<Date> },
}

#[derive(Debug, Clone, Copy, PartialEq, Eq, Structural)]
pub enum WarningStage {
    FinalWeeks,
    ThreeMonths,
    SixMonths,
    TwelveMonths,
}

/// Wage thresholds of one negotiation, computed in single precision:
/// `expected` is the player's expected wage, `insult_floor` is
/// ⌊max(reference, expected) × 0.65⌋ and `minimum` is ⌊reference × 0.85⌋, where
/// the reference is the current wage for a renewal and the reference wage for a
/// free agent.
#[derive(Debug, Clone, Copy, PartialEq, Eq, Structural)]
pub struct WageTerms {
    pub expected: u32,
    pub insult_floor: u32,
    pub minimum: u32,
}

pub open spec fn round_thousand_spec(v: int) -> int {
    ((v + 999) / 1000) * 1000
}

/// Round up to a whole thousand; refused when that leaves `u32`.
pub fn round_thousand(value: u32) -> (r: Result<u32, String>)
    ensures
        r.is_ok() <==> round_thousand_spec(value as int) <= u32::MAX,
        r matches Ok(v) ==> v == round_thousand_spec(value as int),
{
    let thousands: u64 = (value as u64 + 999) / 1000;
    let rounded: u64 = thousands * 1000;
    if rounded > u32::MAX as u64 {
        Err("Contract wage overflow".to_owned())
    } else {
        Ok(rounded as u32)
    }
}

/// The reference wage: the current wage, or for an unpaid player the market
/// value / 200 (at least 500), rounded up to a thousand.
pub open spec fn spec_reference_wage(c: PlayerContract) -> Option<int> {
    if c.weekly_wage > 0 {
        Some(c.weekly_wage as int)
    } else {
        let raw = c.market_value as int / 200;
        let w = if raw < 500 {
            500
        } else if raw > u32::MAX {
            u32::MAX as int
        } else {
            raw
        };
        if round_thousand_spec(w) <= u32::MAX { Some(round_thousand_spec(w)) } else { None }
    }
}

pub open spec fn date_opt_after(d: Option<Date>, today: Date) -> bool {
    d matches Some(x) && x.day_number() > today.day_number()
}

pub open spec fn contract_valid(c: PlayerContract, today: Date) -> bool {
    &&& c.date_of_birth.day_number() <= today.day_number()
    &&& c.morale <= 100
    &&& c.manager_trust <= 100
    &&& !date_opt_after(c.last_attempt, today)
    &&& !date_opt_after(c.last_agreed, today)
    &&& !(c.let_expire && c.end_date is None)
    &&& spec_reference_wage(c) is Some
}

/// Age by the calendar-year difference, one less before the birthday's day of the year.
pub open spec fn spec_age_on(c: PlayerContract, today: Date) -> int {
    calendar_year(today.day_number()) - calendar_year(c.date_of_birth.day_number()) - (if calendar_ordinal(
        today.day_number(),
    ) < calendar_ordinal(c.date_of_birth.day_number()) {
        1int
    } else {
        0
    })
}

/// Contract years a player expects: 3 up to 28, 2 up to 32, otherwise 1.
pub open spec fn spec_expected_years(age: int) -> int {
    if age <= 28 { 3 } else if age <= 32 { 2 } else { 1 }
}

pub open spec fn spec_remaining_days(c: PlayerContract, today: Date) -> int {
    match c.end_date {
        Some(end) => if end.day_number() - today.day_number() > 0 {
            end.day_number() - today.day_number()
        } else {
            0
        },
        None => 0,
    }
}

/// Cooling: conversation rounds reset after 14 days, except when let-expire,
/// blocked, or agreed on the last attempt.
pub open spec fn cools(c: PlayerContract, today: Date) -> bool {
    !c.let_expire && c.blocked_until is None && !(c.last_agreed is Some && c.last_agreed
        == c.last_attempt) && c.round > 0 && (c.last_attempt matches Some(last)
        && today.day_number() - last.day_number() >= 14)
}

pub open spec fn spec_cooled(c: PlayerContract, today: Date) -> PlayerContract {
    if cools(c, today) { PlayerContract { round: 0, ..c } } else { c }
}

impl PlayerContract {
    pub fn new(
        date_of_birth: Date,
        weekly_wage: u32,
        end_date: Option<Date>,
        market_value: u64,
        morale: u8,
        manager_trust: u8,
    ) -> (r: Self)
        ensures
            r == (PlayerContract {
                date_of_birth,
                weekly_wage,
                end_date,
                market_value,
                morale,
                manager_trust,
                unresolved_issue: false,
                recent_poor_treatment: false,
                let_expire: false,
                blocked_until: None,
                last_attempt: None,
                last_agreed: None,
                round: 0,
            }),
    {
        PlayerContract {
            date_of_birth,
            weekly_wage,
            end_date,
            market_value,
            morale,
            manager_trust,
            unresolved_issue: false,
            recent_poor_treatment: false,
            let_expire: false,
            blocked_until: None,
            last_attempt: None,
            last_agreed: None,
            round: 0,
        }
    }

    pub fn validate(&self, today: Date) -> (r: Result<(), String>)
        ensures
            r.is_ok() <==> contract_valid(*self, today),
    {
        if today.is_before(self.date_of_birth) || self.morale > 100 || self.manager_trust > 100 {
            return Err("Invalid contract player profile".to_owned());
        }
        let future_attempt = match self.last_attempt {
            Some(d) => today.is_before(d),
            None => false,
        };
        let future_agreed = match self.last_agreed {
            Some(d) => today.is_before(d),
            None => false,
        };
        if future_attempt || future_agreed {
            return Err("Contract negotiation date is in the future".to_owned());
        }
        if self.let_expire && self.end_date.is_none() {
            return Err("Let-expire requires an active contract".to_owned());
        }
        self.reference_wage()?;
        Ok(())
    }

    /// Age on `today`, comparing days of the year as the calendar counts them.
    pub fn age_on(&self, today: Date) -> (r: i32)
        ensures
            r == spec_age_on(*self, today),
    {
        let later: bool = today.ordinal() < self.date_of_birth.ordinal();
        today.year() - self.date_of_birth.year() - if later { 1 } else { 0 }
    }

    pub fn reference_wage(&self) -> (r: Result<u32, String>)
        ensures
            r.is_ok() <==> spec_reference_wage(*self) is Some,
            r matches Ok(w) ==> spec_reference_wage(*self) == Some(w as int),
    {
        if self.weekly_wage > 0 {
            return Ok(self.weekly_wage);
        }
        let raw: u64 = self.market_value / 200;
        let wage: u32 = if raw < 500 {
            500
        } else if raw > u32::MAX as u64 {
            u32::MAX
        } else {
            raw as u32
        };
        round_thousand(wage)
    }

    pub fn expected_years(&self, today: Date) -> (r: u32)
        ensures
            r == spec_expected_years(spec_age_on(*self, today)),
    {
        let age = self.age_on(today);
        if age <= 28 {
            3
        } else if age <= 32 {
            2
        } else {
            1
        }
    }

    /// Days until the contract ends, never negative (0 without a contract).
    pub fn remaining_days(&self, today: Date) -> (r: i64)
        ensures
            r == spec_remaining_days(*self, today),
    {
        match self.end_date {
            Some(end) => {
                let days = end.days_since(today);
                if days > 0 { days } else { 0 }
            },
            None => 0,
        }
    }

    /// Reset the conversation rounds of a stale negotiation; true when it cooled.
    pub fn cool_stale(&mut self, today: Date) -> (cooled: bool)
        ensures
            cooled == cools(*old(self), today),
            *final(self) == spec_cooled(*old(self), today),
    {
        let agreed_on_last = match (self.last_agreed, self.last_attempt) {
            (Some(a), Some(b)) => a == b,
            _ => false,
        };
        if self.let_expire || self.blocked_until.is_some() || agreed_on_last {
            return false;
        }
        let stale = match self.last_attempt {
            Some(last) => today.days_since(last) >= 14,
            None => false,
        };
        if self.round > 0 && stale {
            self.round = 0;
            return true;
        }
        false
    }

    /// Mark or clear let-expire. Enabling needs an active contract and restarts
    /// negotiation memory from today; disabling clears it if it was set.
    pub fn set_let_expire(&mut self, today: Date, enabled: bool) -> (r: Result<(), String>)
        ensures
            r.is_ok() <==> !(enabled && old(self).end_date is None),
            r.is_err() ==> *final(self) == *old(self),
            r.is_ok() ==> *final(self) == (if enabled || old(self).let_expire {
                PlayerContract {
                    blocked_until: None,
                    last_agreed: None,
                    round: 0,
                    last_attempt: if enabled { Some(today) } else { old(self).last_attempt },
                    let_expire: enabled,
                    ..*old(self)
                }
            } else {
                PlayerContract { let_expire: enabled, ..*old(self) }
            }),
    {
        if enabled && self.end_date.is_none() {
            return Err("Player has no active contract".to_owned());
        }
        if enabled || self.let_expire {
            self.blocked_until = None;
            self.last_agreed = None;
            self.round = 0;
            if enabled {
                self.last_attempt = Some(today);
            }
        }
        self.let_expire = enabled;
        Ok(())
    }

    /// Sign: the wage and an end date `years` calendar years from today.
    pub fn apply_agreement(&mut self, today: Date, wage: u32, years: u32) -> (r: Result<(), String>)
        ensures
            r.is_ok() <==> (1 <= years <= 5 && months_later(today.day_number(), years * 12) is Some),
            r.is_err() ==> *final(self) == *old(self),
            r.is_ok() ==> {
                &&& final(self).end_date matches Some(end) && months_later(today.day_number(), years * 12)
                    == Some(end.day_number())
                &&& *final(self) == (PlayerContract {
                    weekly_wage: wage,
                    end_date: final(self).end_date,
                    blocked_until: None,
                    last_attempt: Some(today),
                    last_agreed: Some(today),
                    let_expire: false,
                    ..*old(self)
                })
            },
    {
        if years < 1 || years > 5 {
            return Err("Invalid contract years".to_owned());
        }
        let end = match today.checked_add_months(years * 12) {
            Some(d) => d,
            None => return Err("Contract end date overflow".to_owned()),
        };
        self.weekly_wage = wage;
        self.end_date = Some(end);
        self.blocked_until = None;
        self.last_attempt = Some(today);
        self.last_agreed = Some(today);
        self.let_expire = false;
        Ok(())
    }

    /// Severance: the weekly wage for every started week left on the contract.
    pub fn severance(&self, today: Date) -> (r: Result<i64, String>)
        ensures
            r == Ok::<i64, String>((((spec_remaining_days(*self, today) + 6) / 7) * self.weekly_wage) as i64),
            0 <= ((spec_remaining_days(*self, today) + 6) / 7) * self.weekly_wage <= i64::MAX,
    {
        let remaining: i64 = match self.end_date {
            Some(end) => {
                let d = end.days_since(today);
                if d > 0 { d } else { 0 }
            },
            None => 0,
        };
        assert(remaining <= 200_000_000);
        let weeks: i64 = (remaining + 6) / 7;
        assert(0 <= weeks * self.weekly_wage <= 30_000_000 * 0xFFFF_FFFFi64) by (nonlinear_arith)
            requires
                0 <= weeks <= 30_000_000,
                self.weekly_wage <= 0xFFFF_FFFFu32,
        ;
        Ok(weeks * self.weekly_wage as i64)
    }

    pub fn warning_stage(&self, today: Date) -> (r: Option<WarningStage>)
        ensures
            r == spec_warning_stage(*self, today),
    {
        let end = match self.end_date {
            Some(end) => end,
            None => return None,
        };
        let d = end.days_since(today);
        if 1 <= d && d <= 30 {
            Some(WarningStage::FinalWeeks)
        } else if 31 <= d && d <= 90 {
            Some(WarningStage::ThreeMonths)
        } else if 91 <= d && d <= 180 {
            Some(WarningStage::SixMonths)
        } else if 181 <= d && d <= 365 {
            Some(WarningStage::TwelveMonths)
        } else {
            None
        }
    }
}

/// The renewal warning stage of a contract on `today`, by the days left:
/// 1..=30, 31..=90, 91..=180, 181..=365; none otherwise or without an end date.
pub open spec fn spec_warning_stage(c: PlayerContract, today: Date) -> Option<WarningStage> {
    match c.end_date {
        None => None,
        Some(end) => {
            let d = end.day_number() - today.day_number();
            if 1 <= d <= 30 {
                Some(WarningStage::FinalWeeks)
            } else if 31 <= d <= 90 {
                Some(WarningStage::ThreeMonths)
            } else if 91 <= d <= 180 {
                Some(WarningStage::SixMonths)
            } else if 181 <= d <= 365 {
                Some(WarningStage::TwelveMonths)
            } else {
                None
            }
        },
    }
}

/// The wage policy: within the budget, the projected bill may reach 110% of the
/// budget; a club already over budget may grow its bill by the larger of 3% of
/// the budget and 25,000. Cash does not gate it. A current total smaller than
/// the replaced wage is refused.
pub open spec fn spec_wage_policy(wage_budget: int, current_total: int, old_wage: int, offered: int) -> bool {
    current_total >= old_wage && {
        let projected = current_total - old_wage + offered;
        if current_total <= wage_budget {
            projected <= wage_budget * 110 / 100
        } else {
            projected <= current_total + (if wage_budget * 3 / 100 > 25_000 {
                wage_budget * 3 / 100
            } else {
                25_000
            })
        }
    }
}

pub fn wage_policy_allows(_balance: i64, wage_budget: u64, current_total: u64, old_wage: u32, offered: u32) -> (r: bool)
    ensures
        r == spec_wage_policy(wage_budget as int, current_total as int, old_wage as int, offered as int),
{
    if current_total < old_wage as u64 {
        return false;
    }
    let retained: u64 = current_total - old_wage as u64;
    let current: u128 = current_total as u128;
    let projected: u128 = retained as u128 + offered as u128;
    let budget: u128 = wage_budget as u128;
    if current <= budget {
        return projected <= budget * 110 / 100;
    }
    let grace: u128 = if budget * 3 / 100 > 25_000 { budget * 3 / 100 } else { 25_000 };
    projected <= current + grace
}


/// The answer to an offer, as the rules decide it.
#[derive(Debug, Clone, Copy, PartialEq, Eq, Structural)]
pub enum Verdict {
    Accepted,
    Counter { weekly_wage: u32, years: u32 },
    Rejected { reason: RejectReason, blocked_until: Option<Date> },
}

pub open spec fn reason_text(r: RejectReason) -> Seq<char> {
    match r {
        RejectReason::InvalidYears => "Invalid contract years"@,
        RejectReason::NegotiationBlocked => "Negotiation blocked"@,
        RejectReason::AlreadyAgreedToday => "Already agreed today"@,
        RejectReason::BelowMinimumWage => "Below minimum wage"@,
        RejectReason::InsultingOffer => "Insulting wage offer"@,
        RejectReason::ManagerRelationship => "Manager relationship"@,
    }
}

pub open spec fn states_verdict(d: Decision, v: Verdict) -> bool {
    match (d, v) {
        (Decision::Accepted, Verdict::Accepted) => true,
        (Decision::Counter { weekly_wage, years }, Verdict::Counter { weekly_wage: w, years: y }) => weekly_wage
            == w && years == y,
        (Decision::Rejected { reason, blocked_until }, Verdict::Rejected { reason: r, blocked_until: b }) => reason@
            == reason_text(r) && blocked_until == b,
        _ => false,
    }
}

fn report(v: Verdict) -> (d: Decision)
    ensures
        states_verdict(d, v),
{
    match v {
        Verdict::Accepted => Decision::Accepted,
        Verdict::Counter { weekly_wage, years } => Decision::Counter { weekly_wage, years },
        Verdict::Rejected { reason, blocked_until } => {
            let text = match reason {
                RejectReason::InvalidYears => String::from_str("Invalid contract years"),
                RejectReason::NegotiationBlocked => String::from_str("Negotiation blocked"),
                RejectReason::AlreadyAgreedToday => String::from_str("Already agreed today"),
                RejectReason::BelowMinimumWage => String::from_str("Below minimum wage"),
                RejectReason::InsultingOffer => String::from_str("Insulting wage offer"),
                RejectReason::ManagerRelationship => String::from_str("Manager relationship"),
            };
            Decision::Rejected { reason: text, blocked_until }
        },
    }
}

/// Extra wage a strained relationship demands: 2000 at trust up to 20, 1000 up to 30.
pub open spec fn trust_margin(trust: int) -> int {
    if trust <= 20 { 2000 } else if trust <= 30 { 1000 } else { 0 }
}

pub open spec fn blocked_on(c: PlayerContract, today: Date) -> bool {
    c.let_expire || (c.blocked_until matches Some(until) && until.day_number() >= today.day_number())
}

pub open spec fn next_round(c: PlayerContract, today: Date) -> int {
    if c.last_attempt == Some(today) {
        if c.round >= 255 { 255 } else { c.round + 1 }
    } else {
        1
    }
}

/// One negotiation step: the verdict and the updated negotiation memory, or
/// `None` when the wage terms could not be computed or a block date overflows.
/// Free agents cool before anything else and skip blocks and relationship
/// gating; renewals check years first, then cool, blocks and same-day agreement.
pub open spec fn spec_negotiate(
    c: PlayerContract,
    today: Date,
    wage: int,
    years: int,
    free_agent: bool,
    terms: Option<WageTerms>,
) -> Option<(Verdict, PlayerContract)> {
    let c0 = if free_agent { spec_cooled(c, today) } else { c };
    if !(1 <= years <= 5) {
        Some((Verdict::Rejected { reason: RejectReason::InvalidYears, blocked_until: None }, c0))
    } else {
        let c1 = if free_agent { c0 } else { spec_cooled(c0, today) };
        if !free_agent && blocked_on(c1, today) {
            Some((Verdict::Rejected { reason: RejectReason::NegotiationBlocked, blocked_until: c1.blocked_until }, c1))
        } else if !free_agent && c1.last_agreed == Some(today) && c1.last_attempt == Some(today) {
            Some((Verdict::Rejected { reason: RejectReason::AlreadyAgreedToday, blocked_until: None }, c1))
        } else {
            match terms {
                None => None,
                Some(t) => {
                    let expected_years = spec_expected_years(spec_age_on(c1, today));
                    let insulting = wage < t.insult_floor;
                    let below_minimum = wage < t.minimum;
                    let margin = trust_margin(c1.manager_trust as int);
                    let relationship_blocked = !free_agent && margin > 0 && wage < (if t.expected + margin
                        > u32::MAX {
                        u32::MAX as int
                    } else {
                        t.expected + margin
                    });
                    if free_agent && !insulting && below_minimum {
                        Some((Verdict::Rejected { reason: RejectReason::BelowMinimumWage, blocked_until: None }, c1))
                    } else {
                        let c2 = PlayerContract {
                            last_attempt: Some(today),
                            round: next_round(c1, today) as u32,
                            ..c1
                        };
                        if insulting {
                            if day_number_in_range(today.day_number() + 30) {
                                let until = Date::from_day_number_spec(today.day_number() + 30);
                                let c3 = PlayerContract { blocked_until: Some(until), ..c2 };
                                Some((Verdict::Rejected { reason: RejectReason::InsultingOffer, blocked_until: Some(until) }, c3))
                            } else {
                                None
                            }
                        } else {
                            let c3 = PlayerContract { blocked_until: None, ..c2 };
                            if relationship_blocked {
                                Some((Verdict::Rejected { reason: RejectReason::ManagerRelationship, blocked_until: None }, c3))
                            } else if below_minimum {
                                Some((Verdict::Rejected { reason: RejectReason::BelowMinimumWage, blocked_until: None }, c3))
                            } else if wage >= t.expected && years >= expected_years {
                                Some((Verdict::Accepted, PlayerContract { last_agreed: Some(today), let_expire: false, ..c3 }))
                            } else {
                                Some((Verdict::Counter { weekly_wage: t.expected, years: expected_years as u32 }, c3))
                            }
                        }
                    }
                },
            }
        }
    }
}


/// A negotiation accepts only an offer that meets both the expected wage and
/// the years the player expects (3 up to age 28, 2 up to 32, 1 after), and a
/// counter always asks for exactly those: an offer that falls short in either
/// and is not refused is countered, never accepted.
pub proof fn lemma_acceptance_needs_wage_and_years(
    c: PlayerContract,
    today: Date,
    wage: int,
    years: int,
    free_agent: bool,
    terms: Option<WageTerms>,
)
    requires
        spec_negotiate(c, today, wage, years, free_agent, terms) is Some,
    ensures
        ({
            let age = spec_age_on(c, today);
            let wanted = if age <= 28 {
                3int
            } else if age <= 32 {
                2
            } else {
                1
            };
            let outcome = spec_negotiate(c, today, wage, years, free_agent, terms)->0;
            let v = outcome.0;
            let t = terms->0;
            &&& v is Accepted ==> terms is Some && wage >= t.expected && years >= wanted
            &&& v matches Verdict::Counter { weekly_wage, years: y } ==> terms is Some && weekly_wage
                == t.expected && y == wanted
            &&& (v !is Rejected && (years < wanted || wage < t.expected)) ==> v == Verdict::Counter {
                weekly_wage: t.expected,
                years: wanted as u32,
            }
        }),
{
}

impl PlayerContract {
    /// One negotiation step on a validated profile. Updates negotiation memory but
    /// never the wage or the contract end; a refused call changes nothing.
    pub fn negotiate(
        &mut self,
        today: Date,
        wage: u32,
        years: u32,
        free_agent: bool,
        terms: Result<WageTerms, String>,
    ) -> (r: Result<Decision, String>)
        ensures
            r.is_ok() <==> (contract_valid(*old(self), today) && spec_negotiate(
                *old(self),
                today,
                wage as int,
                years as int,
                free_agent,
                match terms { Ok(t) => Some(t), Err(_) => None },
            ) is Some),
            r.is_err() ==> *final(self) == *old(self),
            r matches Ok(d) ==> {
                let (v, next) = spec_negotiate(
                    *old(self),
                    today,
                    wage as int,
                    years as int,
                    free_agent,
                    match terms { Ok(t) => Some(t), Err(_) => None },
                )->0;
                states_verdict(d, v) && *final(self) == next
            },
    {
        self.validate(today)?;
        let mut staged = *self;
        if free_agent {
            staged.cool_stale(today);
        }
        if years < 1 || years > 5 {
            *self = staged;
            return Ok(report(Verdict::Rejected { reason: RejectReason::InvalidYears, blocked_until: None }));
        }
        if !free_agent {
            staged.cool_stale(today);
            let blocked = staged.let_expire || match staged.blocked_until {
                Some(until) => !until.is_before(today),
                None => false,
            };
            if blocked {
                *self = staged;
                return Ok(report(Verdict::Rejected { reason: RejectReason::NegotiationBlocked, blocked_until: staged.blocked_until }));
            }
            if staged.last_agreed == Some(today) && staged.last_attempt == Some(today) {
                *self = staged;
                return Ok(report(Verdict::Rejected { reason: RejectReason::AlreadyAgreedToday, blocked_until: None }));
            }
        }
        let t = terms?;
        let expected_years = staged.expected_years(today);
        let next: u32 = if staged.last_attempt == Some(today) {
            if staged.round >= 255 { 255 } else { staged.round + 1 }
        } else {
            1
        };
        let insulting = wage < t.insult_floor;
        let below_minimum = wage < t.minimum;
        let margin: u32 = if staged.manager_trust <= 20 {
            2000
        } else if staged.manager_trust <= 30 {
            1000
        } else {
            0
        };
        let demanded: u32 = t.expected.saturating_add(margin);
        let relationship_blocked = !free_agent && margin > 0 && wage < demanded;
        if free_agent && !insulting && below_minimum {
            *self = staged;
            return Ok(report(Verdict::Rejected { reason: RejectReason::BelowMinimumWage, blocked_until: None }));
        }
        staged.last_attempt = Some(today);
        staged.round = next;
        if insulting {
            let until = match today.checked_add_days(30) {
                Some(d) => d,
                None => return Err("Contract block date overflow".to_owned()),
            };
            proof {
                Date::lemma_day_number_identifies(today.day_number() + 30, until);
            }
            staged.blocked_until = Some(until);
            *self = staged;
            return Ok(report(Verdict::Rejected { reason: RejectReason::InsultingOffer, blocked_until: Some(until) }));
        }
        staged.blocked_until = None;
        let verdict = if relationship_blocked {
            Verdict::Rejected { reason: RejectReason::ManagerRelationship, blocked_until: None }
        } else if below_minimum {
            Verdict::Rejected { reason: RejectReason::BelowMinimumWage, blocked_until: None }
        } else if wage >= t.expected && years >= expected_years {
            staged.last_agreed = Some(today);
            staged.let_expire = false;
            Verdict::Accepted
        } else {
            Verdict::Counter { weekly_wage: t.expected, years: expected_years }
        };
        *self = staged;
        Ok(report(verdict))
    }
}

} // verus!
