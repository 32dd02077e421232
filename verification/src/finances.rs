//! Weekly board pressure from a club's wage usage and cash runway.
use vstd::prelude::*;

verus! {

/// Penalty contributed by wage usage: more than 110% is critical, more than 100% a warning.
pub open spec fn wage_pressure(wage_usage_percent: int) -> int {
    if wage_usage_percent > 110 {
        4
    } else if wage_usage_percent > 100 {
        2
    } else {
        0
    }
}

/// Penalty contributed by the cash runway: debt is always critical; with a negative
/// projection, the whole number of weeks the cash lasts decides (at most 4: critical,
/// at most 8: warning).
pub open spec fn runway_pressure(balance: int, projected_weekly_net: int) -> int {
    if balance < 0 {
        4
    } else if projected_weekly_net < 0 {
        let weeks = balance / (-projected_weekly_net);
        if weeks <= 4 {
            4
        } else if weeks <= 8 {
            2
        } else {
            0
        }
    } else {
        0
    }
}

/// The satisfaction subtraction: the worse of the two pressures, never their sum.
pub open spec fn finance_penalty(balance: int, wage_usage_percent: int, projected_weekly_net: int) -> int {
    let w = wage_pressure(wage_usage_percent);
    let r = runway_pressure(balance, projected_weekly_net);
    if w >= r { w } else { r }
}

/// Weekly satisfaction subtraction for a club's finances (0, 2 or 4).
pub fn weekly_finance_penalty(balance: i64, wage_usage_percent: u32, projected_weekly_net: i64) -> (penalty: u8)
    ensures
        penalty == finance_penalty(balance as int, wage_usage_percent as int, projected_weekly_net as int),
{
    let wage_penalty: u8 = if wage_usage_percent > 110 {
        4
    } else if wage_usage_percent > 100 {
        2
    } else {
        0
    };
    let runway_penalty: u8 = if balance < 0 {
        4
    } else if projected_weekly_net < 0 {
        let cash: u64 = balance as u64;
        let outflow: u64 = if projected_weekly_net == i64::MIN {
            9223372036854775808u64
        } else {
            (-projected_weekly_net) as u64
        };
        let weeks: u64 = cash / outflow;
        if weeks <= 4 {
            4
        } else if weeks <= 8 {
            2
        } else {
            0
        }
    } else {
        0
    };
    if wage_penalty >= runway_penalty {
        wage_penalty
    } else {
        runway_penalty
    }
}

} // verus!
