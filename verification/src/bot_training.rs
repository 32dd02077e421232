//! The training a computer-run club chooses for a day: a pure policy whose
//! choices go through the same commands as any manager's. The intensity follows
//! the squad's average condition and eases under fixture congestion; the focus
//! follows a weekly cycle set by the club's style of play.
use vstd::prelude::*;

verus! {

/// A club's style of play.
#[derive(Debug, Clone, Copy, PartialEq, Eq, Structural)]
pub enum PlayStyle {
    Balanced,
    Attacking,
    Defensive,
    Possession,
    HighPress,
    Counter,
}

/// What a training session works on.
#[derive(Debug, Clone, Copy, PartialEq, Eq, Structural)]
pub enum Focus {
    Physical,
    Technical,
    Tactical,
    Defending,
    Attacking,
    Recovery,
}

#[derive(Debug, Clone, Copy, PartialEq, Eq, Structural)]
pub enum Intensity {
    Low,
    Medium,
    High,
}

/// The five-day focus cycle of a style.
pub open spec fn cycle_focus(style: PlayStyle, day: int) -> Focus {
    match style {
        PlayStyle::Balanced => if day == 0 {
            Focus::Physical
        } else if day == 1 {
            Focus::Technical
        } else if day == 2 {
            Focus::Tactical
        } else if day == 3 {
            Focus::Defending
        } else {
            Focus::Attacking
        },
        PlayStyle::Attacking => if day == 0 {
            Focus::Physical
        } else if day == 1 {
            Focus::Technical
        } else {
            Focus::Attacking
        },
        PlayStyle::Defensive => if day == 0 {
            Focus::Physical
        } else if day == 1 {
            Focus::Technical
        } else {
            Focus::Defending
        },
        PlayStyle::Possession => if day == 0 {
            Focus::Physical
        } else if day == 1 {
            Focus::Technical
        } else {
            Focus::Tactical
        },
        PlayStyle::HighPress => if day <= 2 {
            Focus::Physical
        } else if day == 3 {
            Focus::Technical
        } else {
            Focus::Tactical
        },
        PlayStyle::Counter => if day == 0 {
            Focus::Physical
        } else if day <= 3 {
            Focus::Technical
        } else {
            Focus::Tactical
        },
    }
}

fn cycle(style: PlayStyle, day: u32) -> (f: Focus)
    requires
        day < 5,
    ensures
        f == cycle_focus(style, day as int),
{
    match style {
        PlayStyle::Balanced => if day == 0 {
            Focus::Physical
        } else if day == 1 {
            Focus::Technical
        } else if day == 2 {
            Focus::Tactical
        } else if day == 3 {
            Focus::Defending
        } else {
            Focus::Attacking
        },
        PlayStyle::Attacking => if day == 0 {
            Focus::Physical
        } else if day == 1 {
            Focus::Technical
        } else {
            Focus::Attacking
        },
        PlayStyle::Defensive => if day == 0 {
            Focus::Physical
        } else if day == 1 {
            Focus::Technical
        } else {
            Focus::Defending
        },
        PlayStyle::Possession => if day == 0 {
            Focus::Physical
        } else if day == 1 {
            Focus::Technical
        } else {
            Focus::Tactical
        },
        PlayStyle::HighPress => if day <= 2 {
            Focus::Physical
        } else if day == 3 {
            Focus::Technical
        } else {
            Focus::Tactical
        },
        PlayStyle::Counter => if day == 0 {
            Focus::Physical
        } else if day <= 3 {
            Focus::Technical
        } else {
            Focus::Tactical
        },
    }
}

/// The sum of the conditions.
pub open spec fn condition_sum(conditions: Seq<u8>) -> int
    decreases conditions.len(),
{
    if conditions.len() == 0 {
        0
    } else {
        condition_sum(conditions.drop_last()) + conditions.last()
    }
}

/// Whether the squad's average condition is below `t` (an empty squad counts
/// as fully fit, 100).
pub open spec fn average_below(conditions: Seq<u8>, t: int) -> bool {
    if conditions.len() == 0 {
        100 < t
    } else {
        condition_sum(conditions) < t * conditions.len()
    }
}

/// Whether the squad's average condition is at most `t`.
pub open spec fn average_at_most(conditions: Seq<u8>, t: int) -> bool {
    if conditions.len() == 0 {
        100 <= t
    } else {
        condition_sum(conditions) <= t * conditions.len()
    }
}

/// The day's training. Refused for a weekday beyond 6 or a condition above
/// 100; none on a rest day. An exhausted squad (average under 10) recovers
/// gently. Otherwise the intensity is low under 40, medium up to 70, high
/// above; congestion (a fixture within two days or two in the next seven)
/// takes high to medium and anything else to low. Low intensity means
/// recovery, medium under congestion means tactics, and otherwise the style's
/// cycle gives the focus for `weekday % 5`; physical work is never high.
pub open spec fn spec_training(
    style: PlayStyle,
    training_day: bool,
    weekday: int,
    conditions: Seq<u8>,
    days_to_next_fixture: Option<u32>,
    fixtures_in_next_seven: int,
) -> Option<Option<(Focus, Intensity)>> {
    if weekday > 6 || exists|i: int| 0 <= i < conditions.len() && conditions[i] > 100 {
        None
    } else if !training_day {
        Some(None)
    } else if average_below(conditions, 10) {
        Some(Some((Focus::Recovery, Intensity::Low)))
    } else {
        let base = if average_below(conditions, 40) {
            Intensity::Low
        } else if average_at_most(conditions, 70) {
            Intensity::Medium
        } else {
            Intensity::High
        };
        let congestion = (days_to_next_fixture matches Some(d) && d <= 2) || fixtures_in_next_seven >= 2;
        let intensity = if congestion {
            if base == Intensity::High { Intensity::Medium } else { Intensity::Low }
        } else {
            base
        };
        let focus = if intensity == Intensity::Low {
            Focus::Recovery
        } else if intensity == Intensity::Medium && congestion {
            Focus::Tactical
        } else {
            cycle_focus(style, weekday % 5)
        };
        let intensity = if focus == Focus::Physical && intensity == Intensity::High {
            Intensity::Medium
        } else {
            intensity
        };
        Some(Some((focus, intensity)))
    }
}

/// Choose the day's training. `training_day` is whether the club's schedule
/// trains on `weekday`.
pub fn choose_training(
    style: PlayStyle,
    training_day: bool,
    weekday: u32,
    available_conditions: &[u8],
    days_to_next_fixture: Option<u32>,
    fixtures_in_next_seven: usize,
) -> (r: Result<Option<(Focus, Intensity)>, String>)
    ensures
        match spec_training(
            style,
            training_day,
            weekday as int,
            available_conditions@,
            days_to_next_fixture,
            fixtures_in_next_seven as int,
        ) {
            None => r.is_err(),
            Some(c) => r == Ok::<Option<(Focus, Intensity)>, String>(c),
        },
{
    let n = available_conditions.len();
    let mut sum: u128 = 0;
    let mut i: usize = 0;
    let mut invalid = false;
    while i < n
        invariant
            n == available_conditions@.len(),
            i <= n,
            sum == condition_sum(available_conditions@.take(i as int)),
            sum <= 255 * i,
            invalid == exists|k: int| 0 <= k < i && available_conditions@[k] > 100,
        decreases n - i,
    {
        let c = available_conditions[i];
        assert(available_conditions@.take(i as int + 1).drop_last() =~= available_conditions@.take(i as int));
        if c > 100 {
            invalid = true;
        }
        sum = sum + c as u128;
        i = i + 1;
    }
    assert(available_conditions@.take(n as int) =~= available_conditions@);
    if weekday > 6 || invalid {
        return Err("Invalid training policy inputs".to_owned());
    }
    if !training_day {
        return Ok(None);
    }
    let count: u128 = n as u128;
    let exhausted = if count == 0 { false } else { sum < 10 * count };
    if exhausted {
        return Ok(Some((Focus::Recovery, Intensity::Low)));
    }
    let base = if count > 0 && sum < 40 * count {
        Intensity::Low
    } else if count > 0 && sum <= 70 * count {
        Intensity::Medium
    } else {
        Intensity::High
    };
    let congestion = match days_to_next_fixture {
        Some(d) => d <= 2,
        None => false,
    } || fixtures_in_next_seven >= 2;
    let mut intensity = if congestion {
        match base {
            Intensity::High => Intensity::Medium,
            _ => Intensity::Low,
        }
    } else {
        base
    };
    let focus = match intensity {
        Intensity::Low => Focus::Recovery,
        Intensity::Medium if congestion => Focus::Tactical,
        _ => cycle(style, weekday % 5),
    };
    if focus == Focus::Physical && intensity == Intensity::High {
        intensity = Intensity::Medium;
    }
    Ok(Some((focus, intensity)))
}

} // verus!
