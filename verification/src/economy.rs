//! Club finance rules: weekly projection and health, board support, marketing
//! campaigns, sponsor pitches, and the Monday settlement. The balance is an
//! explicit argument, never a second state owner.
use vstd::prelude::*;
use crate::dates::{Date, parsed_date, date_text};
use crate::text::{str_eq, append_decimal, decimal_text};
use crate::random::random_u32_inclusive;

verus! {

/// A bonus a sponsorship pays on top of its base value.
#[derive(Debug, Clone, Copy, PartialEq, Eq)]
pub enum SponsorshipBonusCriterion {
    LeaguePosition { max_position: u32, bonus_amount: i64 },
    UnbeatenRun { required_matches: usize, bonus_amount: i64 },
}

/// An active sponsorship deal.
#[derive(Debug, Clone, PartialEq, Eq)]
pub struct Sponsorship {
    pub sponsor_name: String,
    pub base_value: i64,
    pub remaining_weeks: u32,
    pub bonus_criteria: Vec<SponsorshipBonusCriterion>,
}

/// Kinds of ledger entries the finance rules read or write.
#[derive(Debug, Clone, Copy, PartialEq, Eq, Structural)]
pub enum FinancialTransactionKind {
    BoardSupport,
    CommercialCampaign,
    PrizeMoney,
    /// Any other recorded transaction.
    Other,
}

/// A dated ledger entry.
#[derive(Debug, Clone, PartialEq, Eq)]
pub struct FinancialTransaction {
    pub date: String,
    pub description: String,
    pub amount: i64,
    pub kind: FinancialTransactionKind,
}

/// Terms of an active loan that decide who pays a player's wage.
#[derive(Debug, Clone, PartialEq, Eq)]
pub struct ActiveLoan {
    pub parent_team_id: String,
    pub loan_team_id: String,
    pub wage_contribution_pct: u8,
}

/// A fixture as read by the matchday count.
#[derive(Debug, Clone, PartialEq, Eq)]
pub struct FixtureRecord {
    pub home_team_id: String,
    pub completed: bool,
    pub has_result: bool,
    pub date: String,
}

#[derive(Debug, Clone, PartialEq)]
pub struct FinanceState {
    pub wage_budget: i64,
    pub transfer_budget: i64,
    pub season_income: i64,
    pub season_expenses: i64,
    pub sponsorship: Option<Sponsorship>,
    pub financial_ledger: Vec<FinancialTransaction>,
    pub reputation: u32,
    pub stadium_capacity: u32,
    pub form: Vec<String>,
}

#[derive(Debug, Clone, PartialEq, Eq)]
pub struct Context {
    pub club_id: String,
    pub today: Date,
    pub season: u32,
    pub current_position: Option<u32>,
    pub annual_wage_bill: i64,
    pub weekly_wage_spend: i64,
    pub recent_home_matches: i64,
    pub pending_sponsor_offer: bool,
    pub sponsor_pitch_attempted_today: bool,
}

/// Financial health, from best to worst.
#[derive(Debug, Clone, Copy, PartialEq, Eq, Structural)]
pub enum Health {
    Stable,
    Watch,
    Warning,
    Critical,
}

#[derive(Debug, Clone, PartialEq, Eq)]
pub struct Snapshot {
    pub annual_wage_bill: i64,
    pub weekly_wage_spend: i64,
    pub weekly_wage_budget: i64,
    pub weekly_recurring_income: i64,
    pub weekly_sponsor_income: i64,
    pub projected_weekly_net: i64,
    pub cash_runway_weeks: Option<i64>,
    pub wage_budget_usage_percent: u32,
    pub currently_in_debt: bool,
    pub currently_over_budget: bool,
    pub wage_budget_status: Health,
    pub runway_status: Health,
    pub overall_status: Health,
    pub marketing_campaign_cooldown_days_remaining: u32,
}

#[derive(Debug, Clone, PartialEq, Eq)]
pub struct BoardSupport {
    pub support_amount: i64,
    pub transfer_budget_reduction: i64,
    pub satisfaction_penalty: u8,
}

#[derive(Debug, Clone, PartialEq, Eq)]
pub struct MarketingCampaign {
    pub gross_revenue: i64,
    pub campaign_cost: i64,
    pub net_income: i64,
    pub cooldown_days: u32,
}

#[derive(Debug, Clone, PartialEq, Eq)]
pub struct SponsorPitch {
    pub message_id: String,
    pub sponsor_name: String,
    pub weekly_amount: i64,
    pub duration_weeks: u32,
}

#[derive(Debug, Clone, PartialEq, Eq)]
pub enum Warning {
    Debt { amount: u64 },
    Runway { weekly_wages: i64, weeks_left: i64 },
    OverBudget { annual_wages: i64, wage_budget: i64 },
}

#[derive(Debug, Clone, PartialEq, Eq)]
pub struct Settlement {
    pub wages: i64,
    pub upkeep: i64,
    pub sponsorship_income: i64,
    pub matchday_income: i64,
    pub attendance_percent: Option<u32>,
    pub average_ticket: Option<u32>,
    pub balance_before: i64,
    pub balance_after: i64,
    pub warning: Option<Warning>,
    pub satisfaction_penalty: u8,
}

pub open spec fn fits_i64(v: int) -> bool {
    i64::MIN <= v <= i64::MAX
}

/// Integer division truncating toward zero, as Rust's `/` on signed integers.
pub open spec fn trunc_div(a: int, b: int) -> int
    recommends
        b > 0,
{
    if a >= 0 { a / b } else { -((-a) / b) }
}

pub open spec fn max_int(a: int, b: int) -> int {
    if a >= b { a } else { b }
}

pub open spec fn min_int(a: int, b: int) -> int {
    if a <= b { a } else { b }
}

pub open spec fn clamp_int(v: int, lo: int, hi: int) -> int {
    if v < lo { lo } else if v > hi { hi } else { v }
}

/// Checked `a + b` on `i64`; the error names a finance overflow.
fn add(a: i64, b: i64) -> (r: Result<i64, String>)
    ensures
        r.is_ok() <==> fits_i64(a + b),
        r matches Ok(v) ==> v == a + b,
{
    match a.checked_add(b) {
        Some(v) => Ok(v),
        None => Err("Finance overflow".to_owned()),
    }
}

/// Checked `a - b` on `i64`; the error names a finance overflow.
fn sub(a: i64, b: i64) -> (r: Result<i64, String>)
    ensures
        r.is_ok() <==> fits_i64(a - b),
        r matches Ok(v) ==> v == a - b,
{
    match a.checked_sub(b) {
        Some(v) => Ok(v),
        None => Err("Finance overflow".to_owned()),
    }
}

/// The annual wage a club pays for a player: the whole wage to the owner, or
/// under a loan the borrower's share and the parent's remainder.
pub open spec fn spec_annual_player_wage(
    wage: int,
    owner: Option<Seq<char>>,
    loan: Option<ActiveLoan>,
    club: Seq<char>,
) -> int {
    match loan {
        Some(l) => {
            let share = wage * l.wage_contribution_pct / 100;
            if l.loan_team_id@ == club {
                share
            } else if l.parent_team_id@ == club {
                wage - share
            } else {
                0
            }
        },
        None => if owner == Some(club) { wage } else { 0 },
    }
}

pub fn annual_player_wage(wage: u32, owner: Option<&str>, loan: Option<&ActiveLoan>, club: &str) -> (r: i64)
    ensures
        r == spec_annual_player_wage(
            wage as int,
            match owner { Some(o) => Some(o@), None => None },
            match loan { Some(l) => Some(*l), None => None },
            club@,
        ),
{
    let wage = wage as i64;
    match loan {
        Some(loan) => {
            assert(wage * loan.wage_contribution_pct <= 0xFFFF_FFFFi64 * 255) by (nonlinear_arith)
                requires
                    0 <= wage <= 0xFFFF_FFFFi64,
                    loan.wage_contribution_pct <= 255,
            ;
            let share: i64 = wage * (loan.wage_contribution_pct as i64) / 100;
            if str_eq(loan.loan_team_id.as_str(), club) {
                share
            } else if str_eq(loan.parent_team_id.as_str(), club) {
                wage - share
            } else {
                0
            }
        },
        None => match owner {
            Some(o) => if str_eq(o, club) { wage } else { 0 },
            None => 0,
        },
    }
}

/// Completed home fixtures with a result, played within the last seven days
/// (today included, future and unparseable dates excluded).
pub open spec fn counts_as_recent_home(f: FixtureRecord, club: Seq<char>, today: int) -> bool {
    &&& f.completed
    &&& f.home_team_id@ == club
    &&& f.has_result
    &&& parsed_date(f.date@) matches Some(d) && 0 <= today - d < 7
}

pub open spec fn recent_home_count(fixtures: Seq<FixtureRecord>, club: Seq<char>, today: int, n: int) -> int
    decreases n,
{
    if n <= 0 {
        0
    } else {
        recent_home_count(fixtures, club, today, n - 1) + if counts_as_recent_home(
            fixtures[n - 1],
            club,
            today,
        ) {
            1int
        } else {
            0
        }
    }
}

pub fn count_recent_home_matches(fixtures: &[FixtureRecord], club: &str, today: Date) -> (r: i64)
    requires
        fixtures@.len() <= i64::MAX,
    ensures
        r == recent_home_count(fixtures@, club@, today.day_number(), fixtures@.len() as int),
{
    let mut count: i64 = 0;
    for i in 0..fixtures.len()
        invariant
            count == recent_home_count(fixtures@, club@, today.day_number(), i as int),
            0 <= count <= i,
            fixtures@.len() <= i64::MAX,
    {
        let f = &fixtures[i];
        if f.completed && str_eq(f.home_team_id.as_str(), club) && f.has_result {
            match Date::parse(f.date.as_str()) {
                Some(d) => {
                    let elapsed = today.days_since(d);
                    if elapsed >= 0 && elapsed < 7 {
                        count = count + 1;
                    }
                },
                None => {},
            }
        }
    }
    count
}

/// Matchday revenue for `count` home matches: capacity × attendance% × ticket,
/// rounded down, per match.
pub open spec fn spec_matchday_value(capacity: int, attendance_percent: int, average_ticket: int) -> int {
    capacity * attendance_percent * average_ticket / 100
}

/// Revenue of `count` home matches at an attendance percentage and ticket price.
/// A per-match value past `i64::MAX` is refused, whatever the count.
pub fn matchday_income(capacity: u32, count: i64, attendance_percent: u32, average_ticket: u32) -> (r: Result<i64, String>)
    ensures
        r.is_ok() <==> (count >= 0 && spec_matchday_value(
            capacity as int,
            attendance_percent as int,
            average_ticket as int,
        ) <= i64::MAX && fits_i64(
            spec_matchday_value(capacity as int, attendance_percent as int, average_ticket as int)
                * count,
        )),
        r matches Ok(v) ==> v == spec_matchday_value(
            capacity as int,
            attendance_percent as int,
            average_ticket as int,
        ) * count,
{
    if count < 0 {
        return Err("Invalid matchday revenue inputs".to_owned());
    }
    assert(capacity * attendance_percent <= 0xFFFF_FFFFu128 * 0xFFFF_FFFFu128) by (nonlinear_arith)
        requires
            capacity <= 0xFFFF_FFFFu128,
            attendance_percent <= 0xFFFF_FFFFu128,
    ;
    assert(capacity * attendance_percent * average_ticket <= 0xFFFF_FFFFu128 * 0xFFFF_FFFFu128
        * 0xFFFF_FFFFu128) by (nonlinear_arith)
        requires
            capacity * attendance_percent <= 0xFFFF_FFFFu128 * 0xFFFF_FFFFu128,
            average_ticket <= 0xFFFF_FFFFu128,
    ;
    let value: u128 = (capacity as u128) * (attendance_percent as u128) * (average_ticket as u128) / 100;
    if value > i64::MAX as u128 {
        return Err("Matchday revenue overflow".to_owned());
    }
    match (value as i64).checked_mul(count) {
        Some(v) => Ok(v),
        None => Err("Matchday revenue overflow".to_owned()),
    }
}

/// The projection estimates matchday revenue at 76% attendance and a ticket of 20.
pub open spec fn estimated_matchday(capacity: int, count: int) -> int {
    spec_matchday_value(capacity, 76, 20) * count
}

/// The bonus one criterion pays for a league position and recent form.
pub open spec fn criterion_bonus(c: SponsorshipBonusCriterion, position: Option<u32>, form: Seq<String>) -> int {
    match c {
        SponsorshipBonusCriterion::LeaguePosition { max_position, bonus_amount } => {
            if position matches Some(p) && p <= max_position {
                bonus_amount as int
            } else {
                0
            }
        },
        SponsorshipBonusCriterion::UnbeatenRun { required_matches, bonus_amount } => {
            if form.len() >= required_matches && (forall|i: int|
                form.len() - required_matches <= i < form.len() ==> (#[trigger] form[i])@
                    != "L"@) {
                bonus_amount as int
            } else {
                0
            }
        },
    }
}

/// The running total of the first `n` criteria, or `None` once a partial sum leaves `i64`.
pub open spec fn bonus_total(
    criteria: Seq<SponsorshipBonusCriterion>,
    position: Option<u32>,
    form: Seq<String>,
    n: int,
) -> Option<int>
    decreases n,
{
    if n <= 0 {
        Some(0)
    } else {
        match bonus_total(criteria, position, form, n - 1) {
            Some(t) => {
                let v = t + criterion_bonus(criteria[n - 1], position, form);
                if fits_i64(v) { Some(v) } else { None }
            },
            None => None,
        }
    }
}

fn unbeaten(form: &[String], required: usize) -> (r: bool)
    requires
        form@.len() >= required,
    ensures
        r == (forall|i: int|
            form@.len() - required <= i < form@.len() ==> (#[trigger] form@[i])@ != "L"@),
{
    let n = form.len();
    let mut i = n - required;
    while i < n
        invariant
            n == form@.len(),
            n - required <= i <= n,
            forall|k: int| n - required <= k < i ==> (#[trigger] form@[k])@ != "L"@,
        decreases n - i,
    {
        if str_eq(form[i].as_str(), "L") {
            return false;
        }
        i = i + 1;
    }
    true
}

/// Sum of the sponsorship's bonuses earned at a position with a recent form.
pub fn sponsorship_bonus(position: Option<u32>, form: &[String], sponsorship: &Sponsorship) -> (r: Result<i64, String>)
    ensures
        r.is_ok() <==> bonus_total(
            sponsorship.bonus_criteria@,
            position,
            form@,
            sponsorship.bonus_criteria@.len() as int,
        ) is Some,
        r matches Ok(v) ==> bonus_total(
            sponsorship.bonus_criteria@,
            position,
            form@,
            sponsorship.bonus_criteria@.len() as int,
        ) == Some(v as int),
{
    let criteria = &sponsorship.bonus_criteria;
    let mut total: i64 = 0;
    for i in 0..criteria.len()
        invariant
            criteria@ == sponsorship.bonus_criteria@,
            bonus_total(criteria@, position, form@, i as int) == Some(total as int),
    {
        let amount: i64 = match &criteria[i] {
            SponsorshipBonusCriterion::LeaguePosition { max_position, bonus_amount } => {
                match position {
                    Some(p) => if p <= *max_position { *bonus_amount } else { 0 },
                    None => 0,
                }
            },
            SponsorshipBonusCriterion::UnbeatenRun { required_matches, bonus_amount } => {
                if form.len() >= *required_matches && unbeaten(form, *required_matches) {
                    *bonus_amount
                } else {
                    0
                }
            },
        };
        assert(amount == criterion_bonus(criteria@[i as int], position, form@));
        total = match self::add(total, amount) {
            Ok(v) => v,
            Err(e) => {
                proof {
                    assert(bonus_total(criteria@, position, form@, i + 1) is None);
                    lemma_bonus_total_stays_none(criteria@, position, form@, i + 1, criteria@.len() as int);
                }
                return Err(e);
            },
        };
    }
    Ok(total)
}

proof fn lemma_bonus_total_stays_none(
    criteria: Seq<SponsorshipBonusCriterion>,
    position: Option<u32>,
    form: Seq<String>,
    from: int,
    to: int,
)
    requires
        0 <= from <= to,
        bonus_total(criteria, position, form, from) is None,
    ensures
        bonus_total(criteria, position, form, to) is None,
    decreases to - from,
{
    if from < to {
        lemma_bonus_total_stays_none(criteria, position, form, from, to - 1);
    }
}

/// Weekly sponsor income: base value plus earned bonuses, none without a sponsor.
pub open spec fn spec_sponsor_income(state: FinanceState, position: Option<u32>) -> Option<int> {
    match state.sponsorship {
        None => Some(0),
        Some(s) => match bonus_total(s.bonus_criteria@, position, state.form@, s.bonus_criteria@.len() as int) {
            Some(b) => if fits_i64(s.base_value + b) { Some(s.base_value + b) } else { None },
            None => None,
        },
    }
}

fn sponsor_income(state: &FinanceState, context: &Context) -> (r: Result<i64, String>)
    ensures
        r.is_ok() <==> spec_sponsor_income(*state, context.current_position) is Some,
        r matches Ok(v) ==> spec_sponsor_income(*state, context.current_position) == Some(v as int),
{
    match &state.sponsorship {
        Some(sponsor) => {
            let bonus = sponsorship_bonus(context.current_position, state.form.as_slice(), sponsor)?;
            self::add(sponsor.base_value, bonus)
        },
        None => Ok(0),
    }
}

/// Whole weeks the cash lasts under a negative weekly net (0 when in debt);
/// `None` when the projection is not negative.
pub open spec fn spec_cash_runway(balance: int, net: int) -> Option<i64> {
    if net < 0 {
        Some((if balance < 0 { 0 } else { balance / (-net) }) as i64)
    } else {
        None
    }
}

pub fn cash_runway(balance: i64, net: i64) -> (r: Option<i64>)
    ensures
        r == spec_cash_runway(balance as int, net as int),
{
    if net < 0 {
        if balance < 0 {
            Some(0)
        } else {
            let outflow: u64 = if net == i64::MIN {
                9223372036854775808u64
            } else {
                (-net) as u64
            };
            Some(((balance as u64) / outflow) as i64)
        }
    } else {
        None
    }
}

/// Rank of a health level: Stable < Watch < Warning < Critical.
pub open spec fn rank(h: Health) -> int {
    match h {
        Health::Stable => 0,
        Health::Watch => 1,
        Health::Warning => 2,
        Health::Critical => 3,
    }
}

fn health_rank(h: Health) -> (r: u8)
    ensures
        r == rank(h),
{
    match h {
        Health::Stable => 0,
        Health::Watch => 1,
        Health::Warning => 2,
        Health::Critical => 3,
    }
}

/// The worse of two health levels.
pub open spec fn worse(a: Health, b: Health) -> Health {
    if rank(a) >= rank(b) { a } else { b }
}

pub open spec fn spec_wage_health(usage: int) -> Health {
    if usage > 110 {
        Health::Critical
    } else if usage > 100 {
        Health::Warning
    } else if usage >= 85 {
        Health::Watch
    } else {
        Health::Stable
    }
}

pub fn wage_health(usage: u32) -> (r: Health)
    ensures
        r == spec_wage_health(usage as int),
{
    if usage > 110 {
        Health::Critical
    } else if usage > 100 {
        Health::Warning
    } else if usage >= 85 {
        Health::Watch
    } else {
        Health::Stable
    }
}

pub open spec fn spec_runway_health(balance: int, weeks: Option<i64>) -> Health {
    if balance < 0 || (weeks matches Some(w) && w <= 4) {
        Health::Critical
    } else if weeks matches Some(w) && w <= 8 {
        Health::Warning
    } else if weeks matches Some(w) && w <= 12 {
        Health::Watch
    } else {
        Health::Stable
    }
}

pub fn runway_health(balance: i64, weeks: Option<i64>) -> (r: Health)
    ensures
        r == spec_runway_health(balance as int, weeks),
{
    let w: i64 = match weeks {
        Some(w) => w,
        None => i64::MAX,
    };
    if balance < 0 || (weeks.is_some() && w <= 4) {
        Health::Critical
    } else if weeks.is_some() && w <= 8 {
        Health::Warning
    } else if weeks.is_some() && w <= 12 {
        Health::Watch
    } else {
        Health::Stable
    }
}

/// The latest parseable date among commercial-campaign entries of the first `n` entries.
pub open spec fn last_campaign(ledger: Seq<FinancialTransaction>, n: int) -> Option<int>
    decreases n,
{
    if n <= 0 {
        None
    } else {
        let prev = last_campaign(ledger, n - 1);
        let e = ledger[n - 1];
        if e.kind == FinancialTransactionKind::CommercialCampaign && parsed_date(e.date@) is Some {
            let d = parsed_date(e.date@)->0;
            match prev {
                Some(p) => Some(max_int(p, d)),
                None => Some(d),
            }
        } else {
            prev
        }
    }
}

/// Days left before another campaign may run (28 days after the latest one).
pub open spec fn spec_marketing_cooldown(ledger: Seq<FinancialTransaction>, today: int) -> int {
    match last_campaign(ledger, ledger.len() as int) {
        None => 0,
        Some(last) => {
            let elapsed = today - last;
            if elapsed >= 28 { 0 } else { min_int(28 - elapsed, u32::MAX as int) }
        },
    }
}

pub fn marketing_cooldown(state: &FinanceState, today: Date) -> (r: u32)
    ensures
        r == spec_marketing_cooldown(state.financial_ledger@, today.day_number()),
{
    let ledger = &state.financial_ledger;
    let mut last: Option<Date> = None;
    for i in 0..ledger.len()
        invariant
            match last {
                Some(d) => last_campaign(ledger@, i as int) == Some(d.day_number()),
                None => last_campaign(ledger@, i as int) is None,
            },
    {
        let e = &ledger[i];
        if e.kind == FinancialTransactionKind::CommercialCampaign {
            match Date::parse(e.date.as_str()) {
                Some(d) => {
                    last = match last {
                        Some(p) => if p.is_before(d) { Some(d) } else { Some(p) },
                        None => Some(d),
                    };
                },
                None => {},
            }
        }
    }
    match last {
        None => 0,
        Some(l) => {
            let elapsed = today.days_since(l);
            if elapsed >= 28 {
                0
            } else if 28 - elapsed > u32::MAX as i64 {
                u32::MAX
            } else {
                (28 - elapsed) as u32
            }
        },
    }
}

/// Inputs a projection refuses: negative wage figures or match counts, or a
/// reputation above 1000.
pub open spec fn projection_inputs_valid(state: FinanceState, context: Context) -> bool {
    &&& context.annual_wage_bill >= 0
    &&& context.weekly_wage_spend >= 0
    &&& context.recent_home_matches >= 0
    &&& state.reputation <= 1000
}

/// Wage bill as a percentage of the wage budget (a budget below 1 counts as 1),
/// capped to `u32`.
pub open spec fn spec_usage(annual_wage_bill: int, wage_budget: int) -> int {
    clamp_int(annual_wage_bill * 100 / max_int(wage_budget, 1), 0, u32::MAX as int)
}

/// The projection of a club's finances, or `None` when an input is refused or a
/// sum leaves `i64`.
pub open spec fn spec_snapshot(state: FinanceState, balance: int, context: Context) -> Option<Snapshot> {
    if !projection_inputs_valid(state, context) {
        None
    } else {
        match spec_sponsor_income(state, context.current_position) {
            None => None,
            Some(sponsorship) => {
                let matchday = estimated_matchday(state.stadium_capacity as int, context.recent_home_matches as int);
                let income = sponsorship + matchday;
                let net = income - context.weekly_wage_spend;
                if !fits_i64(matchday) || !fits_i64(income) || !fits_i64(net) {
                    None
                } else {
                    let usage = spec_usage(context.annual_wage_bill as int, state.wage_budget as int);
                    let runway = spec_cash_runway(balance, net);
                    let wage_status = spec_wage_health(usage);
                    let runway_status = spec_runway_health(balance, runway);
                    Some(Snapshot {
                        annual_wage_bill: context.annual_wage_bill,
                        weekly_wage_spend: context.weekly_wage_spend,
                        weekly_wage_budget: trunc_div(state.wage_budget as int, 52) as i64,
                        weekly_recurring_income: income as i64,
                        weekly_sponsor_income: sponsorship as i64,
                        projected_weekly_net: net as i64,
                        cash_runway_weeks: runway,
                        wage_budget_usage_percent: usage as u32,
                        currently_in_debt: balance < 0,
                        currently_over_budget: context.annual_wage_bill > state.wage_budget,
                        wage_budget_status: wage_status,
                        runway_status,
                        overall_status: worse(wage_status, runway_status),
                        marketing_campaign_cooldown_days_remaining: spec_marketing_cooldown(
                            state.financial_ledger@,
                            context.today.day_number(),
                        ) as u32,
                    })
                }
            },
        }
    }
}

/// The overall health of a projection is the worse of its wage-budget health
/// and its runway health (Stable, Watch, Warning, Critical in rising order):
/// it is one of the two and no better than either. A wage bill over 110% of the
/// budget makes the wage health, and so the overall health, critical.
pub proof fn lemma_overall_health_is_worst(state: FinanceState, balance: int, context: Context)
    requires
        spec_snapshot(state, balance, context) is Some,
    ensures
        ({
            let s = spec_snapshot(state, balance, context)->0;
            let level = |h: Health|
                match h {
                    Health::Stable => 0int,
                    Health::Watch => 1,
                    Health::Warning => 2,
                    Health::Critical => 3,
                };
            &&& level(s.overall_status) >= level(s.wage_budget_status)
            &&& level(s.overall_status) >= level(s.runway_status)
            &&& (s.overall_status == s.wage_budget_status || s.overall_status == s.runway_status)
            &&& s.wage_budget_usage_percent > 110 ==> s.wage_budget_status == Health::Critical
                && s.overall_status == Health::Critical
            &&& 100 < s.wage_budget_usage_percent <= 110 ==> s.wage_budget_status == Health::Warning
            &&& 85 <= s.wage_budget_usage_percent <= 100 ==> s.wage_budget_status == Health::Watch
            &&& s.wage_budget_usage_percent < 85 ==> s.wage_budget_status == Health::Stable
        }),
{
}

/// The weekly projection: recurring income (sponsor plus estimated matchday
/// revenue), net, runway, wage usage and the health levels.
pub fn snapshot(state: &FinanceState, balance: i64, context: &Context) -> (r: Result<Snapshot, String>)
    ensures
        r.is_ok() <==> spec_snapshot(*state, balance as int, *context) is Some,
        r matches Ok(s) ==> spec_snapshot(*state, balance as int, *context) == Some(s),
{
    if context.annual_wage_bill < 0 || context.weekly_wage_spend < 0 || context.recent_home_matches < 0
        || state.reputation > 1000 {
        return Err("Invalid finance projection inputs".to_owned());
    }
    let sponsorship = sponsor_income(state, context)?;
    let matchday = matchday_income(state.stadium_capacity, context.recent_home_matches, 76, 20)?;
    let income = self::add(sponsorship, matchday)?;
    let net = self::sub(income, context.weekly_wage_spend)?;
    let budget: i64 = if state.wage_budget > 1 { state.wage_budget } else { 1 };
    let raw: i128 = (context.annual_wage_bill as i128) * 100 / (budget as i128);
    let usage: u32 = if raw > u32::MAX as i128 { u32::MAX } else { raw as u32 };
    let runway = cash_runway(balance, net);
    let wage_status = wage_health(usage);
    let runway_status = runway_health(balance, runway);
    let overall = if health_rank(wage_status) >= health_rank(runway_status) {
        wage_status
    } else {
        runway_status
    };
    let weekly_budget: i64 = state.wage_budget / 52;
    Ok(Snapshot {
        annual_wage_bill: context.annual_wage_bill,
        weekly_wage_spend: context.weekly_wage_spend,
        weekly_wage_budget: weekly_budget,
        weekly_recurring_income: income,
        weekly_sponsor_income: sponsorship,
        projected_weekly_net: net,
        cash_runway_weeks: runway,
        wage_budget_usage_percent: usage,
        currently_in_debt: balance < 0,
        currently_over_budget: context.annual_wage_bill > state.wage_budget,
        wage_budget_status: wage_status,
        runway_status,
        overall_status: overall,
        marketing_campaign_cooldown_days_remaining: marketing_cooldown(state, context.today),
    })
}

pub open spec fn spec_satisfaction_penalty(s: Snapshot) -> int {
    match s.overall_status {
        Health::Critical => 4,
        Health::Warning => 2,
        _ => 0,
    }
}

pub fn satisfaction_penalty(snapshot: &Snapshot) -> (r: u8)
    ensures
        r == spec_satisfaction_penalty(*snapshot),
{
    match snapshot.overall_status {
        Health::Critical => 4,
        Health::Warning => 2,
        _ => 0,
    }
}

/// The warning published after settlement: debt first, then a runway under four
/// weeks, then a wage bill over budget.
pub open spec fn spec_warning(state: FinanceState, balance: int, s: Snapshot) -> Option<Warning> {
    if balance < 0 {
        Some(Warning::Debt { amount: (-balance) as u64 })
    } else if s.cash_runway_weeks matches Some(w) && 0 <= w < 4 {
        Some(Warning::Runway { weekly_wages: s.weekly_wage_spend, weeks_left: s.cash_runway_weeks->0 })
    } else if s.annual_wage_bill > state.wage_budget {
        Some(Warning::OverBudget { annual_wages: s.annual_wage_bill, wage_budget: state.wage_budget })
    } else {
        None
    }
}

pub fn warning(state: &FinanceState, balance: i64, snapshot: &Snapshot) -> (r: Option<Warning>)
    ensures
        r == spec_warning(*state, balance as int, *snapshot),
{
    if balance < 0 {
        let amount: u64 = if balance == i64::MIN {
            9223372036854775808u64
        } else {
            (-balance) as u64
        };
        Some(Warning::Debt { amount })
    } else {
        match snapshot.cash_runway_weeks {
            Some(w) if 0 <= w && w < 4 => Some(
                Warning::Runway { weekly_wages: snapshot.weekly_wage_spend, weeks_left: w },
            ),
            _ => if snapshot.annual_wage_bill > state.wage_budget {
                Some(
                    Warning::OverBudget {
                        annual_wages: snapshot.annual_wage_bill,
                        wage_budget: state.wage_budget,
                    },
                )
            } else {
                None
            },
        }
    }
}

/// Pressure that opens the marketing and sponsor actions.
pub open spec fn spec_pressured(s: Snapshot) -> bool {
    s.currently_over_budget || s.currently_in_debt || rank(s.wage_budget_status) >= 2 || rank(
        s.runway_status,
    ) >= 2
}

fn pressured(snapshot: &Snapshot) -> (r: bool)
    ensures
        r == spec_pressured(*snapshot),
{
    snapshot.currently_over_budget || snapshot.currently_in_debt || health_rank(
        snapshot.wage_budget_status,
    ) >= 2 || health_rank(snapshot.runway_status) >= 2
}


/// `Board support package for season {season}`.
pub open spec fn support_description_text(season: int) -> Seq<char> {
    "Board support package for season "@ + decimal_text(season as nat)
}

fn support_description(season: u32) -> (r: String)
    ensures
        r@ == support_description_text(season as int),
{
    let mut s = String::from_str("Board support package for season ");
    append_decimal(&mut s, season as u64);
    s
}

pub open spec fn support_used(ledger: Seq<FinancialTransaction>, season: int) -> bool {
    exists|i: int|
        0 <= i < ledger.len() && (#[trigger] ledger[i]).kind == FinancialTransactionKind::BoardSupport
            && ledger[i].description@ == support_description_text(season)
}

/// Support needs debt or a runway at warning level, once per season.
pub open spec fn board_support_available(s: Snapshot) -> bool {
    s.currently_in_debt || rank(s.runway_status) >= 2
}

/// Support tops the cash up towards eight weeks of wages (at least 150,000),
/// clamped to 150,000..=1,000,000; half of it (at most the remaining transfer
/// budget) comes off the transfer budget.
pub open spec fn spec_board_support(state: FinanceState, balance: int, s: Snapshot) -> BoardSupport {
    let target = max_int(s.weekly_wage_spend * 8, 150_000);
    let amount = clamp_int(target - balance, 150_000, 1_000_000);
    BoardSupport {
        support_amount: amount as i64,
        transfer_budget_reduction: min_int(max_int(state.transfer_budget as int, 0), amount / 2) as i64,
        satisfaction_penalty: 12,
    }
}

pub fn preview_board_support(state: &FinanceState, balance: i64, context: &Context) -> (r: Result<BoardSupport, String>)
    ensures
        r.is_ok() <==> (spec_snapshot(*state, balance as int, *context) matches Some(s)
            && board_support_available(s) && !support_used(
            state.financial_ledger@,
            context.season as int,
        )),
        r matches Ok(b) ==> b == spec_board_support(
            *state,
            balance as int,
            spec_snapshot(*state, balance as int, *context)->0,
        ),
{
    let projection = snapshot(state, balance, context)?;
    if !projection.currently_in_debt && health_rank(projection.runway_status) < 2 {
        return Err("be.error.finance.boardSupportUnavailable".to_owned());
    }
    let description = support_description(context.season);
    let ledger = &state.financial_ledger;
    for i in 0..ledger.len()
        invariant
            ledger@ == state.financial_ledger@,
            description@ == support_description_text(context.season as int),
            forall|k: int|
                0 <= k < i ==> !((#[trigger] ledger@[k]).kind == FinancialTransactionKind::BoardSupport
                    && ledger@[k].description@ == support_description_text(context.season as int)),
    {
        if ledger[i].kind == FinancialTransactionKind::BoardSupport && str_eq(
            ledger[i].description.as_str(),
            description.as_str(),
        ) {
            return Err("be.error.finance.boardSupportAlreadyUsed".to_owned());
        }
    }
    let spend: i128 = projection.weekly_wage_spend as i128 * 8;
    let target: i128 = if spend > 150_000 { spend } else { 150_000 };
    let gap: i128 = target - balance as i128;
    let amount: i64 = if gap < 150_000 {
        150_000
    } else if gap > 1_000_000 {
        1_000_000
    } else {
        gap as i64
    };
    let available: i64 = if state.transfer_budget > 0 { state.transfer_budget } else { 0 };
    let reduction: i64 = if available < amount / 2 { available } else { amount / 2 };
    Ok(BoardSupport { support_amount: amount, transfer_budget_reduction: reduction, satisfaction_penalty: 12 })
}

/// What taking board support does: `r` is the answer, `state2` and `balance2`
/// the finances after it; a refusal changes nothing.
pub open spec fn board_support_effect(state: FinanceState, balance: i64, context: Context, r: Result<BoardSupport, String>, state2: FinanceState, balance2: i64) -> bool {
    &&& (r.is_err() ==> state2 == state && balance2 == balance)
    &&& (r.is_ok() <==> (spec_snapshot(state, balance as int, context) matches Some(s)
        && board_support_available(s) && !support_used(
        state.financial_ledger@,
        context.season as int,
    ) && fits_i64(balance + spec_board_support(state, balance as int, s).support_amount)
        && fits_i64(state.season_income + spec_board_support(state, balance as int, s).support_amount)))
    &&& (r matches Ok(b) ==> {
        &&& b == spec_board_support(
            state,
            balance as int,
            spec_snapshot(state, balance as int, context)->0,
        )
        &&& balance2 == balance + b.support_amount
        &&& state2.season_income == state.season_income + b.support_amount
        &&& state2.transfer_budget == max_int(state.transfer_budget - b.transfer_budget_reduction, 0)
        &&& state2.financial_ledger@ == state.financial_ledger@.push(FinancialTransaction {
            date: state2.financial_ledger@.last().date,
            description: state2.financial_ledger@.last().description,
            amount: b.support_amount,
            kind: FinancialTransactionKind::BoardSupport,
        })
        &&& state2.financial_ledger@.last().date@ == date_text(context.today.day_number())
        &&& state2.financial_ledger@.last().description@ == support_description_text(context.season as int)
        &&& state2 == (FinanceState {
            season_income: state2.season_income,
            transfer_budget: state2.transfer_budget,
            financial_ledger: state2.financial_ledger,
            ..state
        })
    })
}

/// Take board support: cash and season income rise by the amount, the transfer
/// budget falls by the reduction, and a dated ledger entry records the season.
pub fn request_board_support(state: &mut FinanceState, balance: &mut i64, context: &Context) -> (r: Result<BoardSupport, String>)
    ensures
        board_support_effect(*old(state), *old(balance), *context, r, *final(state), *final(balance)),
{
    let preview = preview_board_support(state, *balance, context)?;
    let cash = self::add(*balance, preview.support_amount)?;
    let income = self::add(state.season_income, preview.support_amount)?;
    let reduced = self::sub(state.transfer_budget, preview.transfer_budget_reduction)?;
    let budget: i64 = if reduced > 0 { reduced } else { 0 };
    state.season_income = income;
    state.transfer_budget = budget;
    *balance = cash;
    let entry = FinancialTransaction {
        date: context.today.to_text(),
        description: support_description(context.season),
        amount: preview.support_amount,
        kind: FinancialTransactionKind::BoardSupport,
    };
    state.financial_ledger.push(entry);
    Ok(preview)
}

/// Marketing gross: reputation × 250 + capacity × 3 + a pressure premium, plus
/// premiums for debt and an over-budget wage bill, clamped to 60,000..=250,000;
/// the cost is a quarter (at least 15,000).
pub open spec fn spec_marketing(state: FinanceState, s: Snapshot) -> MarketingCampaign {
    let pressure = match s.overall_status {
        Health::Stable => 0int,
        Health::Watch => 10_000,
        Health::Warning => 25_000,
        Health::Critical => 40_000,
    };
    let gross = clamp_int(
        state.reputation * 250 + state.stadium_capacity * 3 + pressure + (if s.currently_in_debt {
            20_000int
        } else {
            0
        }) + (if s.currently_over_budget { 15_000int } else { 0 }),
        60_000,
        250_000,
    );
    let cost = max_int(gross / 4, 15_000);
    MarketingCampaign {
        gross_revenue: gross as i64,
        campaign_cost: cost as i64,
        net_income: (gross - cost) as i64,
        cooldown_days: 28,
    }
}

pub fn preview_marketing_campaign(state: &FinanceState, balance: i64, context: &Context) -> (r: Result<MarketingCampaign, String>)
    ensures
        r.is_ok() <==> (spec_snapshot(*state, balance as int, *context) matches Some(s)
            && spec_pressured(s) && spec_marketing_cooldown(
            state.financial_ledger@,
            context.today.day_number(),
        ) == 0),
        r matches Ok(m) ==> m == spec_marketing(*state, spec_snapshot(*state, balance as int, *context)->0),
{
    let projection = snapshot(state, balance, context)?;
    if !pressured(&projection) {
        return Err("be.error.finance.marketingCampaignUnavailable".to_owned());
    }
    if marketing_cooldown(state, context.today) > 0 {
        return Err("be.error.finance.marketingCampaignCoolingDown".to_owned());
    }
    let pressure: i64 = match projection.overall_status {
        Health::Stable => 0,
        Health::Watch => 10_000,
        Health::Warning => 25_000,
        Health::Critical => 40_000,
    };
    let raw: i64 = state.reputation as i64 * 250 + state.stadium_capacity as i64 * 3 + pressure + if projection.currently_in_debt {
        20_000
    } else {
        0
    } + if projection.currently_over_budget {
        15_000
    } else {
        0
    };
    let gross: i64 = if raw < 60_000 {
        60_000
    } else if raw > 250_000 {
        250_000
    } else {
        raw
    };
    let cost: i64 = if gross / 4 > 15_000 { gross / 4 } else { 15_000 };
    Ok(MarketingCampaign { gross_revenue: gross, campaign_cost: cost, net_income: gross - cost, cooldown_days: 28 })
}

/// What running a marketing campaign does: `r` is the answer, `state2` and
/// `balance2` the finances after it; a refusal changes nothing.
pub open spec fn marketing_effect(state: FinanceState, balance: i64, context: Context, r: Result<MarketingCampaign, String>, state2: FinanceState, balance2: i64) -> bool {
    &&& (r.is_err() ==> state2 == state && balance2 == balance)
    &&& (r.is_ok() <==> (spec_snapshot(state, balance as int, context) matches Some(s)
        && spec_pressured(s) && spec_marketing_cooldown(
        state.financial_ledger@,
        context.today.day_number(),
    ) == 0 && fits_i64(balance + spec_marketing(state, s).net_income) && fits_i64(
        state.season_income + spec_marketing(state, s).gross_revenue,
    ) && fits_i64(state.season_expenses + spec_marketing(state, s).campaign_cost)))
    &&& (r matches Ok(m) ==> {
        &&& m == spec_marketing(state, spec_snapshot(state, balance as int, context)->0)
        &&& balance2 == balance + m.net_income
        &&& state2.season_income == state.season_income + m.gross_revenue
        &&& state2.season_expenses == state.season_expenses + m.campaign_cost
        &&& state2.financial_ledger@.len() == state.financial_ledger@.len() + 2
        &&& state2.financial_ledger@.subrange(0, state.financial_ledger@.len() as int)
            == state.financial_ledger@
        &&& {
            let n = state.financial_ledger@.len() as int;
            let spend = state2.financial_ledger@[n];
            let revenue = state2.financial_ledger@[n + 1];
            &&& spend.kind == FinancialTransactionKind::CommercialCampaign
            &&& spend.amount == -m.campaign_cost
            &&& spend.date@ == date_text(context.today.day_number())
            &&& spend.description@ == "Marketing campaign activation spend"@
            &&& revenue.kind == FinancialTransactionKind::CommercialCampaign
            &&& revenue.amount == m.gross_revenue
            &&& revenue.date@ == date_text(context.today.day_number())
            &&& revenue.description@ == "Marketing campaign merchandise revenue"@
        }
        &&& state2 == (FinanceState {
            season_income: state2.season_income,
            season_expenses: state2.season_expenses,
            financial_ledger: state2.financial_ledger,
            ..state
        })
    })
}

/// Run a marketing campaign: cash rises by the net, season income by the gross,
/// season expenses by the cost, and two dated campaign entries are recorded.
pub fn request_marketing_campaign(state: &mut FinanceState, balance: &mut i64, context: &Context) -> (r: Result<MarketingCampaign, String>)
    ensures
        marketing_effect(*old(state), *old(balance), *context, r, *final(state), *final(balance)),
{
    let preview = preview_marketing_campaign(state, *balance, context)?;
    let cash = self::add(*balance, preview.net_income)?;
    let income = self::add(state.season_income, preview.gross_revenue)?;
    let expenses = self::add(state.season_expenses, preview.campaign_cost)?;
    state.season_income = income;
    state.season_expenses = expenses;
    *balance = cash;
    let spend = FinancialTransaction {
        date: context.today.to_text(),
        description: String::from_str("Marketing campaign activation spend"),
        amount: -preview.campaign_cost,
        kind: FinancialTransactionKind::CommercialCampaign,
    };
    state.financial_ledger.push(spend);
    let revenue = FinancialTransaction {
        date: context.today.to_text(),
        description: String::from_str("Marketing campaign merchandise revenue"),
        amount: preview.gross_revenue,
        kind: FinancialTransactionKind::CommercialCampaign,
    };
    state.financial_ledger.push(revenue);
    proof {
        let n = old(state).financial_ledger@.len() as int;
        assert(state.financial_ledger@.subrange(0, n) =~= old(state).financial_ledger@);
    }
    Ok(preview)
}


/// Sponsor names a pitch may bring, chosen by the club and date.
pub open spec fn sponsor_name_text(index: int) -> Seq<char> {
    if index == 0 {
        "Northstar Logistics"@
    } else if index == 1 {
        "Harbor Bank"@
    } else if index == 2 {
        "Crest Mobile"@
    } else if index == 3 {
        "Vertex Nutrition"@
    } else if index == 4 {
        "Iron Peak Tools"@
    } else if index == 5 {
        "Brightline Energy"@
    } else if index == 6 {
        "Summit Capital"@
    } else {
        "Evergreen Foods"@
    }
}

fn sponsor_name(index: u64) -> (r: String)
    requires
        index < 8,
    ensures
        r@ == sponsor_name_text(index as int),
{
    if index == 0 {
        String::from_str("Northstar Logistics")
    } else if index == 1 {
        String::from_str("Harbor Bank")
    } else if index == 2 {
        String::from_str("Crest Mobile")
    } else if index == 3 {
        String::from_str("Vertex Nutrition")
    } else if index == 4 {
        String::from_str("Iron Peak Tools")
    } else if index == 5 {
        String::from_str("Brightline Energy")
    } else if index == 6 {
        String::from_str("Summit Capital")
    } else {
        String::from_str("Evergreen Foods")
    }
}

/// The partner hash: starting from the day of the year, each byte of the club ID
/// folds in as `acc * 31 + byte`, wrapping at 64 bits.
pub open spec fn partner_hash(seed: u64, bytes: Seq<u8>, n: int) -> u64
    decreases n,
{
    if n <= 0 {
        seed
    } else {
        partner_hash(seed, bytes, n - 1).wrapping_mul(31).wrapping_add(bytes[n - 1] as u64)
    }
}

pub open spec fn position_premium(position: Option<u32>) -> int {
    match position {
        Some(p) => if p == 1 {
            18_000
        } else if 2 <= p <= 4 {
            12_000
        } else if 5 <= p <= 8 {
            6_000
        } else {
            0
        },
        None => 0,
    }
}

/// The pitch: 40,000 + reputation × 120 plus premiums for position, pressure, an
/// over-budget wage bill and debt, clamped to 40,000..=180,000 weekly for 12 weeks.
pub open spec fn spec_pitch_amount(state: FinanceState, context: Context, s: Snapshot) -> int {
    let pressure = match s.overall_status {
        Health::Stable => 0int,
        Health::Watch => 5_000,
        Health::Warning => 15_000,
        Health::Critical => 25_000,
    };
    clamp_int(
        40_000 + state.reputation * 120 + position_premium(context.current_position) + pressure + (
        if s.currently_over_budget {
            15_000int
        } else {
            0
        }) + (if s.currently_in_debt { 20_000int } else { 0 }),
        40_000,
        180_000,
    )
}

/// A sponsor that still pays blocks a new pitch.
pub open spec fn has_active_sponsor(state: FinanceState) -> bool {
    state.sponsorship matches Some(sp) && sp.remaining_weeks > 0 && sp.base_value > 0
}

pub open spec fn pitch_allowed(state: FinanceState, context: Context, s: Snapshot) -> bool {
    spec_pressured(s) && !context.pending_sponsor_offer && !context.sponsor_pitch_attempted_today
        && !has_active_sponsor(state)
}

/// The sponsor pitch offered to a club, or its refusal.
pub open spec fn sponsor_pitch_result(state: FinanceState, balance: i64, context: Context, r: Result<SponsorPitch, String>) -> bool {
    &&& (r.is_ok() <==> (spec_snapshot(state, balance as int, context) matches Some(s) && pitch_allowed(
        state,
        context,
        s,
    )))
    &&& (r matches Ok(p) ==> {
        let s = spec_snapshot(state, balance as int, context)->0;
        let seed = crate::dates::calendar_ordinal(context.today.day_number()) as u64;
        &&& p.weekly_amount == spec_pitch_amount(state, context, s)
        &&& p.duration_weeks == 12
        &&& p.message_id@ == "sponsor_pitch_"@ + date_text(context.today.day_number())
        &&& p.sponsor_name@ == sponsor_name_text(
            (partner_hash(
                seed,
                vstd::utf8::encode_utf8(context.club_id@),
                vstd::utf8::encode_utf8(context.club_id@).len() as int,
            ) % 8) as int,
        )
    })
}

pub fn preview_sponsor_pitch(state: &FinanceState, balance: i64, context: &Context) -> (r: Result<SponsorPitch, String>)
    ensures
        sponsor_pitch_result(*state, balance, *context, r),
{
    let projection = snapshot(state, balance, context)?;
    if !pressured(&projection) {
        return Err("be.error.finance.sponsorPitchUnavailable".to_owned());
    }
    if context.pending_sponsor_offer {
        return Err("be.error.finance.sponsorPitchPendingOffer".to_owned());
    }
    if context.sponsor_pitch_attempted_today {
        return Err("be.error.finance.sponsorPitchAlreadyAttemptedToday".to_owned());
    }
    match &state.sponsorship {
        Some(sponsor) => {
            if sponsor.remaining_weeks > 0 && sponsor.base_value > 0 {
                return Err("be.error.finance.sponsorPitchActiveSponsor".to_owned());
            }
        },
        None => {},
    }
    let bytes = context.club_id.as_str().as_bytes();
    let seed: u64 = context.today.ordinal() as u64;
    let mut partner: u64 = seed;
    for i in 0..bytes.len()
        invariant
            bytes@ == vstd::utf8::encode_utf8(context.club_id@),
            partner == partner_hash(seed, bytes@, i as int),
    {
        partner = partner.wrapping_mul(31).wrapping_add(bytes[i] as u64);
    }
    let position: i64 = match context.current_position {
        Some(p) => if p == 1 {
            18_000
        } else if 2 <= p && p <= 4 {
            12_000
        } else if 5 <= p && p <= 8 {
            6_000
        } else {
            0
        },
        None => 0,
    };
    let pressure: i64 = match projection.overall_status {
        Health::Stable => 0,
        Health::Watch => 5_000,
        Health::Warning => 15_000,
        Health::Critical => 25_000,
    };
    let raw: i64 = 40_000 + state.reputation as i64 * 120 + position + pressure + if projection.currently_over_budget {
        15_000
    } else {
        0
    } + if projection.currently_in_debt {
        20_000
    } else {
        0
    };
    let amount: i64 = if raw < 40_000 {
        40_000
    } else if raw > 180_000 {
        180_000
    } else {
        raw
    };
    let mut message_id = String::from_str("sponsor_pitch_");
    let date = context.today.to_text();
    message_id.append(date.as_str());
    Ok(SponsorPitch {
        message_id,
        sponsor_name: sponsor_name(partner % 8),
        weekly_amount: amount,
        duration_weeks: 12,
    })
}

/// A sponsorship accepted from a pending offer: twelve weeks at the weekly amount
/// with a quarter-amount bonus for a three-match unbeaten run. Nothing is paid now.
pub fn accepted_sponsorship(name: String, amount: u64) -> (r: Result<Sponsorship, String>)
    ensures
        r.is_ok() <==> amount <= i64::MAX,
        r matches Ok(s) ==> {
            &&& s.sponsor_name == name
            &&& s.base_value == amount
            &&& s.remaining_weeks == 12
            &&& s.bonus_criteria@ == seq![
                SponsorshipBonusCriterion::UnbeatenRun {
                    required_matches: 3,
                    bonus_amount: (amount / 4) as i64,
                },
            ]
        },
{
    if amount > i64::MAX as u64 {
        return Err("Sponsor amount overflow".to_owned());
    }
    let amount = amount as i64;
    let mut bonus_criteria: Vec<SponsorshipBonusCriterion> = Vec::new();
    bonus_criteria.push(SponsorshipBonusCriterion::UnbeatenRun { required_matches: 3, bonus_amount: amount / 4 });
    Ok(Sponsorship { sponsor_name: name, base_value: amount, remaining_weeks: 12, bonus_criteria })
}


/// Matchday takings drawn for a week with recent home matches.
#[derive(Debug, Clone, PartialEq, Eq)]
pub struct MatchdayTakings {
    pub attendance_percent: u32,
    pub average_ticket: u32,
    pub income: i64,
}

/// Accounts after wages and sponsorship, before the week's matchday takings.
#[derive(Debug, Clone, PartialEq, Eq)]
pub struct StagedSettlement {
    pub balance_before: i64,
    pub wages: i64,
    pub sponsorship_income: i64,
    pub cash: i64,
    pub season_income: i64,
    pub season_expenses: i64,
}

/// The sponsorship after one week: a week fewer, dropped when none remain.
pub open spec fn sponsorship_after_week(s: Option<Sponsorship>) -> Option<Sponsorship> {
    match s {
        None => None,
        Some(sp) => {
            let left = if sp.remaining_weeks > 0 { sp.remaining_weeks - 1 } else { 0 };
            if left == 0 {
                None
            } else {
                Some(Sponsorship { remaining_weeks: left as u32, ..sp })
            }
        },
    }
}

/// The first half of the Monday settlement: pay wages and collect sponsorship
/// (never negative). `Some(None)` on other weekdays; `None` when refused.
pub open spec fn spec_stage(state: FinanceState, balance: int, context: Context, wages: int) -> Option<
    Option<StagedSettlement>,
> {
    if !crate::dates::is_monday(context.today.day_number()) {
        Some(None)
    } else if wages < 0 || spec_snapshot(state, balance, context) is None {
        None
    } else {
        let cash0 = balance - wages;
        let expenses = state.season_expenses + wages;
        match spec_sponsor_income(state, context.current_position) {
            None => None,
            Some(raw) => {
                let sponsorship = max_int(raw, 0);
                let cash1 = cash0 + sponsorship;
                let income = state.season_income + sponsorship;
                if !fits_i64(cash0) || !fits_i64(expenses) || !fits_i64(cash1) || !fits_i64(income) {
                    None
                } else {
                    Some(Some(StagedSettlement {
                        balance_before: balance as i64,
                        wages: wages as i64,
                        sponsorship_income: sponsorship as i64,
                        cash: cash1 as i64,
                        season_income: income as i64,
                        season_expenses: expenses as i64,
                    }))
                }
            },
        }
    }
}

/// First half of the Monday settlement; the caller then draws matchday takings
/// (only when there were recent home matches) and finishes it.
pub fn stage_weekly_settlement(state: &FinanceState, balance: i64, context: &Context, actual_weekly_wages: i64) -> (r: Result<Option<StagedSettlement>, String>)
    ensures
        r.is_ok() <==> spec_stage(*state, balance as int, *context, actual_weekly_wages as int) is Some,
        r matches Ok(v) ==> spec_stage(*state, balance as int, *context, actual_weekly_wages as int) == Some(v),
{
    if !context.today.is_monday() {
        return Ok(None);
    }
    if actual_weekly_wages < 0 {
        return Err("Invalid actual payroll".to_owned());
    }
    snapshot(state, balance, context)?;
    let cash0 = self::sub(balance, actual_weekly_wages)?;
    let expenses = self::add(state.season_expenses, actual_weekly_wages)?;
    let raw = sponsor_income(state, context)?;
    let sponsorship: i64 = if raw > 0 { raw } else { 0 };
    let cash1 = self::add(cash0, sponsorship)?;
    let income = self::add(state.season_income, sponsorship)?;
    Ok(Some(StagedSettlement {
        balance_before: balance,
        wages: actual_weekly_wages,
        sponsorship_income: sponsorship,
        cash: cash1,
        season_income: income,
        season_expenses: expenses,
    }))
}

/// The finances once the week is settled with its matchday income.
pub open spec fn settled_state(state: FinanceState, staged: StagedSettlement, matchday: int) -> FinanceState {
    FinanceState {
        season_income: (staged.season_income + matchday) as i64,
        season_expenses: staged.season_expenses,
        sponsorship: sponsorship_after_week(state.sponsorship),
        ..state
    }
}

pub open spec fn takings_income(takings: Option<MatchdayTakings>) -> int {
    match takings {
        Some(t) => t.income as int,
        None => 0,
    }
}

proof fn lemma_aged_sponsor_income(state: FinanceState, position: Option<u32>)
    ensures
        spec_sponsor_income(
            FinanceState { sponsorship: sponsorship_after_week(state.sponsorship), ..state },
            position,
        ) == (match sponsorship_after_week(state.sponsorship) {
            None => Some(0int),
            Some(_) => spec_sponsor_income(state, position),
        }),
{
}

/// The draws a week's matchday takings use: an attendance of 60..=92 percent,
/// then an average ticket of 15..=25.
pub open spec fn takings_draws_ok(d: (u32, u32)) -> bool {
    60 <= d.0 <= 92 && 15 <= d.1 <= 25
}

/// First half of the Monday settlement together with the takings draws: off a
/// Monday nothing is staged and nothing drawn; on a Monday the week is staged
/// and, only when there were recent home matches, attendance and ticket are
/// drawn (in that order) from `rng`. Whenever nothing is drawn `rng` is left
/// as it was; on an error nothing is drawn.
pub fn stage_weekly_with_draws(
    state: &FinanceState,
    balance: i64,
    context: &Context,
    actual_weekly_wages: i64,
    rng: &mut rand::rngs::StdRng,
) -> (r: Result<Option<(StagedSettlement, Option<(u32, u32)>)>, String>)
    ensures
        r.is_ok() <==> spec_stage(*state, balance as int, *context, actual_weekly_wages as int) is Some,
        r matches Ok(None) ==> spec_stage(*state, balance as int, *context, actual_weekly_wages as int) == Some(
            None::<StagedSettlement>,
        ),
        r matches Ok(Some((staged, draws))) ==> {
            &&& spec_stage(*state, balance as int, *context, actual_weekly_wages as int) == Some(Some(staged))
            &&& (draws is Some <==> context.recent_home_matches > 0)
            &&& (draws matches Some(d) ==> takings_draws_ok(d))
        },
        !(r matches Ok(Some((_, Some(_))))) ==> *final(rng) == *old(rng),
{
    let staged = match stage_weekly_settlement(state, balance, context, actual_weekly_wages) {
        Err(e) => return Err(e),
        Ok(None) => return Ok(None),
        Ok(Some(s)) => s,
    };
    if context.recent_home_matches > 0 {
        let attendance = random_u32_inclusive(rng, 60, 92);
        let ticket = random_u32_inclusive(rng, 15, 25);
        Ok(Some((staged, Some((attendance, ticket)))))
    } else {
        Ok(Some((staged, None)))
    }
}

/// Second half of the Monday settlement: add the matchday income, age the
/// sponsorship, publish the settlement with its warning and penalty, and commit.
pub fn finish_weekly_settlement(
    state: &mut FinanceState,
    balance: &mut i64,
    staged: &StagedSettlement,
    context: &Context,
    takings: Option<MatchdayTakings>,
) -> (r: Result<Settlement, String>)
    requires
        spec_stage(*old(state), *old(balance) as int, *context, staged.wages as int) == Some(
            Some(*staged),
        ),
        takings matches Some(t) ==> t.income >= 0,
    ensures
        r.is_err() ==> *final(state) == *old(state) && *final(balance) == *old(balance),
        r.is_ok() <==> (fits_i64(staged.cash + takings_income(takings)) && fits_i64(
            staged.season_income + takings_income(takings),
        )),
        r matches Ok(settlement) ==> {
            let next = settled_state(*old(state), *staged, takings_income(takings));
            let cash = staged.cash + takings_income(takings);
            let projection = spec_snapshot(next, cash, *context)->0;
            &&& spec_snapshot(next, cash, *context) is Some
            &&& *final(state) == next
            &&& *final(balance) == cash
            &&& settlement == (Settlement {
                wages: staged.wages,
                upkeep: 0,
                sponsorship_income: staged.sponsorship_income,
                matchday_income: takings_income(takings) as i64,
                attendance_percent: match takings {
                    Some(t) => Some(t.attendance_percent),
                    None => None,
                },
                average_ticket: match takings {
                    Some(t) => Some(t.average_ticket),
                    None => None,
                },
                balance_before: staged.balance_before,
                balance_after: cash as i64,
                warning: spec_warning(next, cash, projection),
                satisfaction_penalty: spec_satisfaction_penalty(projection) as u8,
            })
        },
{
    let matchday: i64 = match &takings {
        Some(t) => t.income,
        None => 0,
    };
    let cash = self::add(staged.cash, matchday)?;
    let income = self::add(staged.season_income, matchday)?;
    proof {
        let ghost old_state = *old(state);
        let ghost next = settled_state(old_state, *staged, matchday as int);
        lemma_aged_sponsor_income(old_state, context.current_position);
        let ghost m = estimated_matchday(old_state.stadium_capacity as int, context.recent_home_matches as int);
        assert(m >= 0) by (nonlinear_arith)
            requires
                m == old_state.stadium_capacity * 76 * 20 / 100 * context.recent_home_matches,
                context.recent_home_matches >= 0,
        ;
        assert(spec_snapshot(next, cash as int, *context) is Some);
    }
    state.season_expenses = staged.season_expenses;
    state.season_income = income;
    let aged: Option<Sponsorship> = match state.sponsorship.take() {
        None => None,
        Some(sp) => {
            let left: u32 = if sp.remaining_weeks > 0 { sp.remaining_weeks - 1 } else { 0 };
            if left == 0 {
                None
            } else {
                Some(Sponsorship { remaining_weeks: left, ..sp })
            }
        },
    };
    state.sponsorship = aged;
    *balance = cash;
    let projection = match snapshot(state, cash, context) {
        Ok(p) => p,
        Err(e) => {
            proof {
                assert(false);
            }
            return Err(e);
        },
    };
    let warning = warning(state, cash, &projection);
    let penalty = satisfaction_penalty(&projection);
    let (attendance_percent, average_ticket) = match &takings {
        Some(t) => (Some(t.attendance_percent), Some(t.average_ticket)),
        None => (None, None),
    };
    Ok(Settlement {
        wages: staged.wages,
        upkeep: 0,
        sponsorship_income: staged.sponsorship_income,
        matchday_income: matchday,
        attendance_percent,
        average_ticket,
        balance_before: staged.balance_before,
        balance_after: cash,
        warning,
        satisfaction_penalty: penalty,
    })
}

/// A club's request to its finance department.
#[derive(Debug, Clone, Copy, PartialEq, Eq, Structural)]
pub enum EconomyCommand {
    RequestBoardSupport,
    RequestMarketingCampaign,
    RequestSponsorPitch,
}

#[derive(Debug, Clone, PartialEq, Eq)]
pub enum EconomyOutcome {
    BoardSupport(BoardSupport),
    MarketingCampaign(MarketingCampaign),
    SponsorPitch(SponsorPitch),
}

pub open spec fn board_answer(r: Result<EconomyOutcome, String>) -> Result<BoardSupport, String> {
    match r {
        Ok(EconomyOutcome::BoardSupport(b)) => Ok(b),
        Ok(_) => Err(arbitrary()),
        Err(e) => Err(e),
    }
}

pub open spec fn marketing_answer(r: Result<EconomyOutcome, String>) -> Result<MarketingCampaign, String> {
    match r {
        Ok(EconomyOutcome::MarketingCampaign(m)) => Ok(m),
        Ok(_) => Err(arbitrary()),
        Err(e) => Err(e),
    }
}

pub open spec fn pitch_answer(r: Result<EconomyOutcome, String>) -> Result<SponsorPitch, String> {
    match r {
        Ok(EconomyOutcome::SponsorPitch(p)) => Ok(p),
        Ok(_) => Err(arbitrary()),
        Err(e) => Err(e),
    }
}

/// Carry out a club's finance request on its account and balance. Board
/// support also adds its satisfaction penalty to the club's running `penalty`
/// (saturating); a sponsor pitch only proposes, so nothing changes until the
/// club accepts it. The caller delivers the campaign or pitch message. A
/// refused request changes nothing.
pub fn execute_economy(
    command: EconomyCommand,
    account: &mut FinanceState,
    balance: &mut i64,
    penalty: &mut u8,
    context: &Context,
) -> (r: Result<EconomyOutcome, String>)
    ensures
        r.is_err() ==> *final(account) == *old(account) && *final(balance) == *old(balance) && *final(penalty)
            == *old(penalty),
        match command {
            EconomyCommand::RequestBoardSupport => {
                &&& (r.is_ok() ==> (r matches Ok(EconomyOutcome::BoardSupport(_))))
                &&& board_support_effect(
                    *old(account),
                    *old(balance),
                    *context,
                    board_answer(r),
                    *final(account),
                    *final(balance),
                )
                &&& (r matches Ok(EconomyOutcome::BoardSupport(b)) ==> *final(penalty) == (if old(penalty)
                    + b.satisfaction_penalty > 255 {
                    255
                } else {
                    old(penalty) + b.satisfaction_penalty
                }))
            },
            EconomyCommand::RequestMarketingCampaign => {
                &&& (r.is_ok() ==> (r matches Ok(EconomyOutcome::MarketingCampaign(_))))
                &&& marketing_effect(
                    *old(account),
                    *old(balance),
                    *context,
                    marketing_answer(r),
                    *final(account),
                    *final(balance),
                )
                &&& *final(penalty) == *old(penalty)
            },
            EconomyCommand::RequestSponsorPitch => {
                &&& (r.is_ok() ==> (r matches Ok(EconomyOutcome::SponsorPitch(_))))
                &&& sponsor_pitch_result(*old(account), *old(balance), *context, pitch_answer(r))
                &&& *final(account) == *old(account)
                &&& *final(balance) == *old(balance)
                &&& *final(penalty) == *old(penalty)
            },
        },
{
    match command {
        EconomyCommand::RequestBoardSupport => {
            let b = request_board_support(account, balance, context)?;
            *penalty = penalty.saturating_add(b.satisfaction_penalty);
            Ok(EconomyOutcome::BoardSupport(b))
        },
        EconomyCommand::RequestMarketingCampaign => {
            let m = request_marketing_campaign(account, balance, context)?;
            Ok(EconomyOutcome::MarketingCampaign(m))
        },
        EconomyCommand::RequestSponsorPitch => {
            let p = preview_sponsor_pitch(account, *balance, context)?;
            Ok(EconomyOutcome::SponsorPitch(p))
        },
    }
}



/// The ordinal suffix the payout description uses for a final position:
/// "st", "nd" and "rd" for 1, 2 and 3, "th" otherwise.
pub open spec fn position_suffix(position: int) -> Seq<char> {
    if position == 1 {
        "st"@
    } else if position == 2 {
        "nd"@
    } else if position == 3 {
        "rd"@
    } else {
        "th"@
    }
}

/// The ledger description of a season payout.
pub open spec fn payout_description(season: int, position: int) -> Seq<char> {
    "be.msg.seasonPayout.ledgerDescription?season="@ + decimal_text(season as nat) + "&position="@
        + decimal_text(position as nat) + "&suffix="@ + position_suffix(position)
}

/// The account after a season's prize money: the amount added to the season
/// income, a prize-money ledger entry dated `date`, and the form guide
/// cleared. The transfer budget is reset by the caller.
pub open spec fn paid_out(
    before: FinanceState,
    after: FinanceState,
    date: Date,
    season: u32,
    position: u32,
    amount: i64,
) -> bool {
    &&& after.season_income == before.season_income + amount
    &&& after.financial_ledger@.len() == before.financial_ledger@.len() + 1
    &&& after.financial_ledger@.take(before.financial_ledger@.len() as int) == before.financial_ledger@
    &&& ({
        let e = after.financial_ledger@.last();
        &&& e.date@ == date_text(date.day_number())
        &&& e.description@ == payout_description(season as int, position as int)
        &&& e.amount == amount
        &&& e.kind == FinancialTransactionKind::PrizeMoney
    })
    &&& after.form@.len() == 0
    &&& after.wage_budget == before.wage_budget
    &&& after.transfer_budget == before.transfer_budget
    &&& after.season_expenses == before.season_expenses
    &&& after.sponsorship == before.sponsorship
    &&& after.reputation == before.reputation
    &&& after.stadium_capacity == before.stadium_capacity
}

/// Post a club's prize money for the closing season. Fails, changing
/// nothing, when the season income would overflow.
pub fn season_payout(account: &mut FinanceState, date: Date, season: u32, position: u32, amount: i64) -> (r: Result<
    (),
    String,
>)
    ensures
        r.is_ok() <==> fits_i64(old(account).season_income + amount),
        r.is_err() ==> *final(account) == *old(account),
        r matches Err(e) ==> e@ == "Season income overflow"@,
        r.is_ok() ==> paid_out(*old(account), *final(account), date, season, position, amount),
{
    let income = match account.season_income.checked_add(amount) {
        Some(v) => v,
        None => return Err(String::from_str("Season income overflow")),
    };
    let mut description = String::from_str("be.msg.seasonPayout.ledgerDescription?season=");
    append_decimal(&mut description, season as u64);
    description.append("&position=");
    append_decimal(&mut description, position as u64);
    description.append("&suffix=");
    let suffix = if position == 1 {
        "st"
    } else if position == 2 {
        "nd"
    } else if position == 3 {
        "rd"
    } else {
        "th"
    };
    description.append(suffix);
    proof {
        reveal_strlit("st");
        reveal_strlit("nd");
        reveal_strlit("rd");
        reveal_strlit("th");
        assert(suffix@ == position_suffix(position as int));
    }
    let ghost ledger_before = account.financial_ledger@;
    account.season_income = income;
    account.financial_ledger.push(
        FinancialTransaction {
            date: date.to_text(),
            description,
            amount,
            kind: FinancialTransactionKind::PrizeMoney,
        },
    );
    account.form = Vec::new();
    proof {
        assert(account.financial_ledger@.take(ledger_before.len() as int) =~= ledger_before);
    }
    Ok(())
}

} // verus!
