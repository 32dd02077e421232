//! Facility upgrades: the finance-health gate, level caps (training 6, scouting 3,
//! medical uncapped), costs, and preview/confirm with refresh on stale previews.
use vstd::prelude::*;
use crate::economy::{clamp_int, max_int, trunc_div};

verus! {

/// A club's facility levels.
#[derive(Debug, Clone, Copy, PartialEq, Eq, Structural)]
pub struct Facilities {
    pub training: u8,
    pub medical: u8,
    pub scouting: u8,
}

impl Default for Facilities {
    /// A new club starts with every facility at level one.
    fn default() -> (r: Self)
        ensures
            r == (Facilities { training: 1, medical: 1, scouting: 1 }),
    {
        Facilities { training: 1, medical: 1, scouting: 1 }
    }
}

#[derive(Debug, Clone, Copy, PartialEq, Eq, Structural)]
pub enum FacilityType {
    Training,
    Medical,
    Scouting,
}

/// The finance figures the upgrade gate reads.
#[derive(Debug, Clone, Copy, PartialEq, Eq, Structural)]
pub struct Finance {
    pub balance: i64,
    pub season_expenses: i64,
    pub wage_bill: i64,
    pub wage_budget: i64,
    pub projected_weekly_net: i64,
}

#[derive(Debug, Clone, Copy, PartialEq, Eq, Structural)]
pub enum Health {
    Stable,
    Watch,
    Warning,
    Critical,
}

/// A reviewed upgrade and the state it was reviewed against.
#[derive(Debug, Clone, Copy, PartialEq, Eq, Structural)]
pub struct UpgradePreview {
    pub facility: FacilityType,
    pub level_before: u8,
    pub level_after: u8,
    pub cost: i64,
    pub balance_after: i64,
    pub season_expenses_after: i64,
    pub expected_facilities: Facilities,
    pub expected_finance: Finance,
}

#[derive(Debug, Clone, Copy, PartialEq, Eq, Structural)]
pub enum UpgradeConfirmation {
    Applied,
    RefreshRequired(UpgradePreview),
}

/// Health from wage usage and runway: critical above 110% usage, in debt, or at
/// most 4 weeks; warning above 100% or at most 8 weeks; watch from 85% or at most 12.
pub open spec fn spec_finance_health(f: Finance) -> Health {
    let usage = clamp_int(f.wage_bill * 100 / max_int(f.wage_budget as int, 1), 0, u32::MAX as int);
    let has_runway = f.projected_weekly_net < 0;
    let runway = if has_runway {
        max_int(trunc_div(f.balance as int, -f.projected_weekly_net), 0)
    } else {
        0
    };
    if usage > 110 || f.balance < 0 || (has_runway && runway <= 4) {
        Health::Critical
    } else if usage > 100 || (has_runway && runway <= 8) {
        Health::Warning
    } else if usage >= 85 || (has_runway && runway <= 12) {
        Health::Watch
    } else {
        Health::Stable
    }
}

pub fn finance_health(finance: &Finance) -> (r: Health)
    ensures
        r == spec_finance_health(*finance),
{
    let budget: i64 = if finance.wage_budget > 1 { finance.wage_budget } else { 1 };
    let usage: i128 = if finance.wage_bill <= 0 {
        0
    } else {
        (finance.wage_bill as i128) * 100 / (budget as i128)
    };
    let has_runway = finance.projected_weekly_net < 0;
    let runway: i128 = if has_runway {
        let outflow: i128 = -(finance.projected_weekly_net as i128);
        let weeks: i128 = if finance.balance >= 0 {
            (finance.balance as i128) / outflow
        } else {
            -((-(finance.balance as i128)) / outflow)
        };
        if weeks > 0 { weeks } else { 0 }
    } else {
        0
    };
    assert(finance.wage_bill <= 0 ==> (finance.wage_bill as int) * 100 / (budget as int) <= 0) by (nonlinear_arith)
        requires
            budget >= 1,
    ;
    if usage > 110 || finance.balance < 0 || (has_runway && runway <= 4) {
        Health::Critical
    } else if usage > 100 || (has_runway && runway <= 8) {
        Health::Warning
    } else if usage >= 85 || (has_runway && runway <= 12) {
        Health::Watch
    } else {
        Health::Stable
    }
}

pub open spec fn spec_level(f: Facilities, t: FacilityType) -> int {
    match t {
        FacilityType::Training => f.training as int,
        FacilityType::Medical => f.medical as int,
        FacilityType::Scouting => f.scouting as int,
    }
}

pub fn level(facilities: &Facilities, facility: &FacilityType) -> (r: u8)
    ensures
        r == spec_level(*facilities, *facility),
{
    match facility {
        FacilityType::Training => facilities.training,
        FacilityType::Medical => facilities.medical,
        FacilityType::Scouting => facilities.scouting,
    }
}

/// 250,000 per current level; training and scouting count level 0 as 1.
pub open spec fn spec_upgrade_cost(f: Facilities, t: FacilityType) -> int {
    let current = spec_level(f, t);
    (if t == FacilityType::Medical { current } else { max_int(current, 1) }) * 250_000
}

pub fn next_upgrade_cost(facilities: &Facilities, facility: &FacilityType) -> (r: i64)
    ensures
        r == spec_upgrade_cost(*facilities, *facility),
{
    let current = level(facilities, facility);
    let base: u8 = match facility {
        FacilityType::Medical => current,
        _ => if current > 1 { current } else { 1 },
    };
    base as i64 * 250_000
}

/// Scouting saves one day per level above one, up to level three, never below one day.
pub open spec fn spec_scouting_days(base_days: int, level: int) -> int {
    let saved = clamp_int(level, 1, 3) - 1;
    max_int(max_int(base_days - saved, 0), 1)
}

pub fn scouting_assignment_days(base_days: u32, level: u8) -> (r: u32)
    ensures
        r == spec_scouting_days(base_days as int, level as int),
{
    let clamped: u8 = if level < 1 { 1 } else if level > 3 { 3 } else { level };
    let saved: u32 = (clamped - 1) as u32;
    let days: u32 = if base_days > saved { base_days - saved } else { 0 };
    if days > 1 { days } else { 1 }
}

/// Medical recovery factor in tenths: 10% per medical level above one.
pub open spec fn spec_medical_recovery_tenths(f: Facilities) -> int {
    10 + max_int(f.medical - 1, 0)
}

pub fn medical_recovery_tenths(facilities: &Facilities) -> (r: u32)
    ensures
        r == spec_medical_recovery_tenths(*facilities),
{
    10 + (if facilities.medical > 1 { facilities.medical - 1 } else { 0 }) as u32
}

/// Level cap of a facility, if any.
pub open spec fn level_cap(t: FacilityType) -> Option<int> {
    match t {
        FacilityType::Training => Some(6),
        FacilityType::Scouting => Some(3),
        FacilityType::Medical => None,
    }
}

pub open spec fn review_refused(f: Facilities, t: FacilityType, finance: Finance) -> bool {
    ||| (level_cap(t) matches Some(max) && spec_level(f, t) >= max)
    ||| finance.wage_bill > finance.wage_budget
    ||| spec_finance_health(finance) == Health::Warning
    ||| spec_finance_health(finance) == Health::Critical
    ||| finance.balance < spec_upgrade_cost(f, t)
}

/// The preview of an upgrade that passes every gate.
pub open spec fn spec_preview(f: Facilities, t: FacilityType, finance: Finance) -> UpgradePreview {
    let before = spec_level(f, t);
    let cost = spec_upgrade_cost(f, t);
    UpgradePreview {
        facility: t,
        level_before: before as u8,
        level_after: (if level_cap(t) is Some {
            max_int(before, 1) + 1
        } else {
            if before < 255 { before + 1 } else { 255 }
        }) as u8,
        cost: cost as i64,
        balance_after: (finance.balance - cost) as i64,
        season_expenses_after: (finance.season_expenses + cost) as i64,
        expected_facilities: f,
        expected_finance: finance,
    }
}

/// Review an upgrade: cap, over-budget wage bill, warning or critical health, and
/// insufficient cash are refused, in that order.
pub fn review_upgrade(facilities: &Facilities, facility: FacilityType, finance: &Finance) -> (r: Result<UpgradePreview, String>)
    ensures
        r.is_ok() <==> (!review_refused(*facilities, facility, *finance) && finance.season_expenses
            + spec_upgrade_cost(*facilities, facility) <= i64::MAX),
        r matches Ok(p) ==> p == spec_preview(*facilities, facility, *finance),
{
    let before = level(facilities, &facility);
    let capped: bool = match facility {
        FacilityType::Training => before >= 6,
        FacilityType::Scouting => before >= 3,
        FacilityType::Medical => false,
    };
    if capped {
        return Err("be.error.facilityUpgradeMaxLevel".to_owned());
    }
    if finance.wage_bill > finance.wage_budget {
        return Err("be.error.finance.facilityUpgradeOverBudget".to_owned());
    }
    match finance_health(finance) {
        Health::Warning | Health::Critical => {
            return Err("be.error.finance.facilityUpgradeCritical".to_owned());
        },
        _ => {},
    }
    let cost = next_upgrade_cost(facilities, &facility);
    if finance.balance < cost {
        return Err(insufficient_funds(cost));
    }
    let balance_after = finance.balance - cost;
    let season_expenses_after = match finance.season_expenses.checked_add(cost) {
        Some(v) => v,
        None => return Err("Facility expenses overflow".to_owned()),
    };
    let has_cap = match facility {
        FacilityType::Medical => false,
        _ => true,
    };
    let level_after: u8 = if has_cap {
        (if before > 1 { before } else { 1 }) + 1
    } else if before < 255 {
        before + 1
    } else {
        255
    };
    Ok(UpgradePreview {
        facility,
        level_before: before,
        level_after,
        cost,
        balance_after,
        season_expenses_after,
        expected_facilities: *facilities,
        expected_finance: *finance,
    })
}

/// `be.error.finance.facilityUpgradeInsufficientFunds?amount={cost}`.
fn insufficient_funds(cost: i64) -> (r: String)
    requires
        cost >= 0,
    ensures
        r@ == "be.error.finance.facilityUpgradeInsufficientFunds?amount="@ + crate::text::decimal_text(cost as nat),
{
    let mut text = String::from_str("be.error.finance.facilityUpgradeInsufficientFunds?amount=");
    crate::text::append_decimal(&mut text, cost as u64);
    text
}

/// Facilities after applying a preview's new level.
pub open spec fn upgraded(f: Facilities, p: UpgradePreview) -> Facilities {
    match p.facility {
        FacilityType::Training => Facilities { training: p.level_after, ..f },
        FacilityType::Medical => Facilities { medical: p.level_after, ..f },
        FacilityType::Scouting => Facilities { scouting: p.level_after, ..f },
    }
}

pub open spec fn review_succeeds(f: Facilities, t: FacilityType, finance: Finance) -> bool {
    !review_refused(f, t, finance) && finance.season_expenses + spec_upgrade_cost(f, t) <= i64::MAX
}

/// The outcome of confirming a preview against the current state (`None`: refused).
pub open spec fn spec_confirm(f: Facilities, finance: Finance, p: UpgradePreview) -> Option<UpgradeConfirmation> {
    if !review_succeeds(f, p.facility, finance) {
        None
    } else if spec_preview(f, p.facility, finance) != p {
        Some(UpgradeConfirmation::RefreshRequired(spec_preview(f, p.facility, finance)))
    } else {
        Some(UpgradeConfirmation::Applied)
    }
}

/// Confirm a preview: a fresh review that differs returns it for a refresh and
/// changes nothing; an identical one applies the level and the cost.
pub fn confirm_upgrade(facilities: &mut Facilities, finance: &mut Finance, preview: &UpgradePreview) -> (r: Result<UpgradeConfirmation, String>)
    ensures
        r.is_ok() <==> spec_confirm(*old(facilities), *old(finance), *preview) is Some,
        r matches Ok(c) ==> spec_confirm(*old(facilities), *old(finance), *preview) == Some(c),
        r matches Ok(UpgradeConfirmation::Applied) ==> {
            &&& *final(facilities) == upgraded(*old(facilities), *preview)
            &&& *final(finance) == (Finance {
                balance: preview.balance_after,
                season_expenses: preview.season_expenses_after,
                ..*old(finance)
            })
        },
        !(r matches Ok(UpgradeConfirmation::Applied)) ==> *final(facilities) == *old(facilities)
            && *final(finance) == *old(finance),
{
    let current = review_upgrade(facilities, preview.facility, finance)?;
    if current != *preview {
        return Ok(UpgradeConfirmation::RefreshRequired(current));
    }
    match preview.facility {
        FacilityType::Training => facilities.training = current.level_after,
        FacilityType::Medical => facilities.medical = current.level_after,
        FacilityType::Scouting => facilities.scouting = current.level_after,
    }
    finance.balance = current.balance_after;
    finance.season_expenses = current.season_expenses_after;
    Ok(UpgradeConfirmation::Applied)
}

/// Confirming the preview that a review just returned, against the same
/// facilities and finances, applies it; the upgrade then spends exactly the
/// previewed cost and raises the level by one (medical saturates at 255).
pub proof fn lemma_fresh_preview_applies(f: Facilities, t: FacilityType, finance: Finance)
    requires
        review_succeeds(f, t, finance),
    ensures
        spec_confirm(f, finance, spec_preview(f, t, finance)) == Some(UpgradeConfirmation::Applied),
        spec_preview(f, t, finance).balance_after == finance.balance - spec_upgrade_cost(f, t),
        spec_level(upgraded(f, spec_preview(f, t, finance)), t) == (if t == FacilityType::Medical
            && spec_level(f, t) == 255 {
            255
        } else {
            max_int(spec_level(f, t), if t == FacilityType::Medical { 0 } else { 1 }) + 1
        }),
{
}

} // verus!
