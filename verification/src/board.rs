//! Board objectives, per-match satisfaction, warnings and firing, and the
//! once-per-season settlement of the four objectives.
use vstd::prelude::*;

verus! {

/// Season targets set by the board from club reputation and league size.
#[derive(Clone, Debug, PartialEq, Eq)]
pub struct ObjectiveTargets {
    pub expected_pos: u32,
    pub win_target: u32,
    pub goals_target: u32,
    pub finance_target: u32,
}

pub open spec fn max_int(a: int, b: int) -> int {
    if a >= b { a } else { b }
}

pub open spec fn min_int(a: int, b: int) -> int {
    if a <= b { a } else { b }
}

pub open spec fn clamp_int(v: int, lo: int, hi: int) -> int {
    if v < lo { lo } else if v > hi { hi } else { v }
}

/// Reputation must be at most 1000 and the league must hold 1..=128 clubs.
pub open spec fn targets_valid(reputation: int, league_size: int) -> bool {
    reputation <= 1000 && 1 <= league_size <= 128
}

pub open spec fn spec_expected_pos(reputation: int, league_size: int) -> int {
    min_int(
        if reputation >= 800 {
            1
        } else if reputation >= 650 {
            max_int(league_size / 4, 2)
        } else if reputation >= 400 {
            max_int(league_size / 2, 1)
        } else {
            max_int(league_size * 3 / 4, league_size / 2 + 1)
        },
        league_size,
    )
}

/// Number of league matchdays in a double round robin.
pub open spec fn matchdays(league_size: int) -> int {
    (league_size - 1) * 2
}

pub open spec fn win_percentage(reputation: int) -> int {
    if reputation >= 800 {
        60
    } else if reputation >= 650 {
        45
    } else if reputation >= 400 {
        30
    } else {
        10
    }
}

pub open spec fn spec_win_target(reputation: int, league_size: int) -> int {
    let m = matchdays(league_size);
    if m == 0 { 0 } else { max_int(m * win_percentage(reputation) / 100, 1) }
}

pub open spec fn spec_goals_target(reputation: int, league_size: int) -> int {
    let m = matchdays(league_size);
    if m == 0 {
        0
    } else if reputation >= 800 {
        max_int(m * 3 / 2, 20)
    } else if reputation >= 650 {
        max_int(m / 2, 15)
    } else {
        max_int(m / 5, 10)
    }
}

/// The targets the board sets for a reputation and league size.
pub open spec fn spec_targets(reputation: int, league_size: int) -> ObjectiveTargets {
    ObjectiveTargets {
        expected_pos: spec_expected_pos(reputation, league_size) as u32,
        win_target: spec_win_target(reputation, league_size) as u32,
        goals_target: spec_goals_target(reputation, league_size) as u32,
        finance_target: 100,
    }
}

fn max_u32(a: u32, b: u32) -> (r: u32)
    ensures r == max_int(a as int, b as int),
{
    if a >= b { a } else { b }
}

impl ObjectiveTargets {
    /// Targets for a club of `reputation` in a league of `league_size` clubs (the
    /// participating league, never the whole world).
    pub fn new(reputation: u32, league_size: u32) -> (r: Result<Self, String>)
        ensures
            r.is_ok() <==> targets_valid(reputation as int, league_size as int),
            r matches Ok(t) ==> t == spec_targets(reputation as int, league_size as int),
    {
        if reputation > 1000 || league_size < 1 || league_size > 128 {
            return Err("board reputation must be 0..=1000 and league size 1..=128".to_owned());
        }
        let base: u32 = if reputation >= 800 {
            1
        } else if reputation >= 650 {
            max_u32(league_size / 4, 2)
        } else if reputation >= 400 {
            max_u32(league_size / 2, 1)
        } else {
            max_u32(league_size * 3 / 4, league_size / 2 + 1)
        };
        let expected_pos: u32 = if base <= league_size { base } else { league_size };
        let matchdays: u32 = (league_size - 1) * 2;
        let win_target: u32 = if matchdays == 0 {
            0
        } else {
            let percentage: u32 = if reputation >= 800 {
                60
            } else if reputation >= 650 {
                45
            } else if reputation >= 400 {
                30
            } else {
                10
            };
            max_u32(matchdays * percentage / 100, 1)
        };
        let goals_target: u32 = if matchdays == 0 {
            0
        } else if reputation >= 800 {
            max_u32(matchdays * 3 / 2, 20)
        } else if reputation >= 650 {
            max_u32(matchdays / 2, 15)
        } else {
            max_u32(matchdays / 5, 10)
        };
        Ok(ObjectiveTargets { expected_pos, win_target, goals_target, finance_target: 100 })
    }
}

/// A manager's board record.
#[derive(Clone, Debug, PartialEq, Eq)]
pub struct BoardState {
    pub satisfaction: u8,
    /// 0: no warning, 1: warning issued, 2: final warning issued.
    pub warning_stage: u8,
    pub league_size: u32,
    pub objectives: ObjectiveTargets,
}

/// What the board decides when it reviews a manager.
#[derive(Clone, Copy, Debug, PartialEq, Eq, Structural)]
pub enum Decision {
    NoAction,
    Warning,
    FinalWarning,
    Fired,
}

/// Which season objectives were met, and the resulting satisfaction change.
#[derive(Clone, Debug, PartialEq, Eq)]
pub struct SeasonOutcome {
    pub position_met: bool,
    pub wins_met: bool,
    pub goals_met: bool,
    pub finance_met: bool,
    /// Rule delta, before clamping satisfaction to 0..=100.
    pub satisfaction_delta: i8,
}

/// Satisfaction after a signed change, kept within 0..=100.
pub open spec fn apply_delta_spec(satisfaction: int, delta: int) -> int {
    clamp_int(satisfaction + delta, 0, 100)
}

/// A league match: win +2, draw -1, loss -3.
pub open spec fn match_delta(scored: int, conceded: int) -> int {
    if scored > conceded { 2 } else if scored == conceded { -1 } else { -3 }
}

/// The board's decision for a satisfaction level and the warnings already issued.
pub open spec fn firing_decision(satisfaction: int, warning_stage: int) -> Decision {
    if satisfaction <= 10 {
        if warning_stage >= 1 { Decision::Fired } else { Decision::Warning }
    } else if satisfaction <= 18 && warning_stage < 2 {
        Decision::FinalWarning
    } else if satisfaction <= 25 && warning_stage < 1 {
        Decision::Warning
    } else {
        Decision::NoAction
    }
}

/// Warning stage recorded after a decision.
pub open spec fn stage_after(decision: Decision, warning_stage: int) -> int {
    match decision {
        Decision::Warning => 1,
        Decision::FinalWarning => 2,
        _ => warning_stage,
    }
}

pub open spec fn count_met(a: bool, b: bool, c: bool, d: bool) -> int {
    (if a { 1int } else { 0 }) + (if b { 1int } else { 0 }) + (if c { 1int } else { 0 }) + (if d {
        1int
    } else {
        0
    })
}

/// Satisfaction change for the number of objectives met.
pub open spec fn season_delta(met: int) -> int {
    if met == 4 { 15 } else if met == 3 { 5 } else if met == 1 || met == 2 { -5 } else { -15 }
}

/// The objective evaluation of a season for this board.
pub open spec fn spec_season_outcome(
    board: BoardState,
    position: int,
    wins: int,
    goals: int,
    wage_usage_percent: int,
    in_debt: bool,
) -> SeasonOutcome {
    let position_met = position <= board.objectives.expected_pos;
    let wins_met = wins >= board.objectives.win_target;
    let goals_met = goals >= board.objectives.goals_target;
    let finance_met = !in_debt && wage_usage_percent <= board.objectives.finance_target;
    SeasonOutcome {
        position_met,
        wins_met,
        goals_met,
        finance_met,
        satisfaction_delta: season_delta(count_met(position_met, wins_met, goals_met, finance_met))
            as i8,
    }
}

impl BoardState {
    /// A fresh board record with no warning.
    pub fn new(reputation: u32, league_size: u32, initial_satisfaction: u8) -> (r: Result<Self, String>)
        ensures
            r.is_ok() <==> (initial_satisfaction <= 100 && targets_valid(
                reputation as int,
                league_size as int,
            )),
            r matches Ok(b) ==> b == (BoardState {
                satisfaction: initial_satisfaction,
                warning_stage: 0,
                league_size,
                objectives: spec_targets(reputation as int, league_size as int),
            }),
    {
        if initial_satisfaction > 100 {
            return Err("board satisfaction must be 0..=100".to_owned());
        }
        let objectives = ObjectiveTargets::new(reputation, league_size)?;
        Ok(BoardState { satisfaction: initial_satisfaction, warning_stage: 0, league_size, objectives })
    }

    /// Apply once for each completed league match. Returns the rule delta, before clamping.
    pub fn after_match(&mut self, scored: u8, conceded: u8) -> (delta: i8)
        ensures
            delta == match_delta(scored as int, conceded as int),
            final(self).satisfaction == apply_delta_spec(old(self).satisfaction as int, delta as int),
            final(self).satisfaction <= 100,
            final(self).warning_stage == old(self).warning_stage,
            final(self).league_size == old(self).league_size,
            final(self).objectives == old(self).objectives,
    {
        let delta: i8 = if scored > conceded {
            2
        } else if scored == conceded {
            -1
        } else {
            -3
        };
        self.apply_delta(delta);
        delta
    }

    /// Issue each warning once; firing at 10 or below needs a prior warning.
    pub fn evaluate_firing(&mut self) -> (decision: Decision)
        ensures
            decision == firing_decision(old(self).satisfaction as int, old(self).warning_stage as int),
            final(self).warning_stage == stage_after(decision, old(self).warning_stage as int),
            final(self).satisfaction == old(self).satisfaction,
            final(self).league_size == old(self).league_size,
            final(self).objectives == old(self).objectives,
    {
        let decision = if self.satisfaction <= 10 {
            if self.warning_stage >= 1 {
                Decision::Fired
            } else {
                Decision::Warning
            }
        } else if self.satisfaction <= 18 && self.warning_stage < 2 {
            Decision::FinalWarning
        } else if self.satisfaction <= 25 && self.warning_stage < 1 {
            Decision::Warning
        } else {
            Decision::NoAction
        };
        match decision {
            Decision::Warning => self.warning_stage = 1,
            Decision::FinalWarning => self.warning_stage = 2,
            _ => {},
        }
        decision
    }

    /// Evaluate and apply the four objectives at a completed season's settlement.
    pub fn evaluate_season(
        &mut self,
        position: u32,
        wins: u32,
        goals: u32,
        wage_usage_percent: u32,
        in_debt: bool,
    ) -> (r: Result<SeasonOutcome, String>)
        ensures
            r.is_ok() <==> (1 <= position <= old(self).league_size),
            r.is_err() ==> *final(self) == *old(self),
            r matches Ok(outcome) ==> {
                &&& outcome == spec_season_outcome(
                    *old(self),
                    position as int,
                    wins as int,
                    goals as int,
                    wage_usage_percent as int,
                    in_debt,
                )
                &&& final(self).satisfaction == apply_delta_spec(
                    old(self).satisfaction as int,
                    outcome.satisfaction_delta as int,
                )
                &&& final(self).warning_stage == old(self).warning_stage
                &&& final(self).league_size == old(self).league_size
                &&& final(self).objectives == old(self).objectives
            },
    {
        if position == 0 || position > self.league_size {
            return Err("season position must be within the participating league".to_owned());
        }
        let position_met = position <= self.objectives.expected_pos;
        let wins_met = wins >= self.objectives.win_target;
        let goals_met = goals >= self.objectives.goals_target;
        let finance_met = !in_debt && wage_usage_percent <= self.objectives.finance_target;
        let mut met: u8 = 0;
        if position_met {
            met = met + 1;
        }
        if wins_met {
            met = met + 1;
        }
        if goals_met {
            met = met + 1;
        }
        if finance_met {
            met = met + 1;
        }
        let satisfaction_delta: i8 = if met == 4 {
            15
        } else if met == 3 {
            5
        } else if met == 1 || met == 2 {
            -5
        } else {
            -15
        };
        self.apply_delta(satisfaction_delta);
        Ok(SeasonOutcome { position_met, wins_met, goals_met, finance_met, satisfaction_delta })
    }

    /// New-season targets; warnings and satisfaction carry over. A failed
    /// reconfiguration leaves the record unchanged.
    pub fn reset_objectives(&mut self, reputation: u32, league_size: u32) -> (r: Result<(), String>)
        ensures
            r.is_ok() <==> targets_valid(reputation as int, league_size as int),
            r.is_err() ==> *final(self) == *old(self),
            r.is_ok() ==> *final(self) == (BoardState {
                objectives: spec_targets(reputation as int, league_size as int),
                league_size,
                ..*old(self)
            }),
    {
        let objectives = ObjectiveTargets::new(reputation, league_size)?;
        self.objectives = objectives;
        self.league_size = league_size;
        Ok(())
    }

    fn apply_delta(&mut self, delta: i8)
        ensures
            final(self).satisfaction == apply_delta_spec(old(self).satisfaction as int, delta as int),
            final(self).warning_stage == old(self).warning_stage,
            final(self).league_size == old(self).league_size,
            final(self).objectives == old(self).objectives,
    {
        let v: i16 = self.satisfaction as i16 + delta as i16;
        let c: i16 = if v < 0 { 0 } else if v > 100 { 100 } else { v };
        self.satisfaction = c as u8;
    }
}

/// A firing needs a warning first: whatever the satisfaction, a board that has
/// issued no warning answers with at most a warning, and every decision leaves
/// the warning stage at least where it was.
pub proof fn lemma_fired_only_after_warning(satisfaction: int, warning_stage: int)
    requires
        0 <= warning_stage,
    ensures
        firing_decision(satisfaction, warning_stage) == Decision::Fired ==> warning_stage >= 1,
        stage_after(firing_decision(satisfaction, warning_stage), warning_stage) >= warning_stage,
{
}

/// Satisfaction stays within 0..=100 whatever match results and season outcomes are applied.
pub proof fn lemma_satisfaction_bounded(satisfaction: int, delta: int)
    ensures
        0 <= apply_delta_spec(satisfaction, delta) <= 100,
{
}


/// A private warning the board gave a manager, and the day it was given.
#[derive(Clone, Debug, PartialEq, Eq)]
pub struct BoardWarning {
    pub decision: Decision,
    pub day: u32,
}

/// The warning stage a decision records: 1 for a warning, 2 for a final one.
pub open spec fn warning_rank(d: Decision) -> Option<int> {
    match d {
        Decision::Warning => Some(1),
        Decision::FinalWarning => Some(2),
        _ => None,
    }
}

/// Reading the first `n` warnings of a history: the stage reached and the
/// last day, or the first problem. A warning must be a warning or final
/// warning, must raise the stage, and must come after the one before and
/// before `today`.
pub open spec fn warning_history(ws: Seq<BoardWarning>, today: int, n: int) -> Result<(int, Option<int>), Seq<char>>
    decreases n,
{
    if n <= 0 {
        Ok((0, None))
    } else {
        match warning_history(ws, today, n - 1) {
            Err(e) => Err(e),
            Ok((stage, prior)) => {
                let w = ws[n - 1];
                match warning_rank(w.decision) {
                    None => Err("Invalid checkpoint private warning type"@),
                    Some(r) => if r <= stage || (prior matches Some(p) && w.day <= p) || w.day >= today {
                        Err("Invalid checkpoint warning chronology"@)
                    } else {
                        Ok((r, Some(w.day as int)))
                    },
                }
            },
        }
    }
}

/// The problem with a board's warning history, if any: one of the above, or
/// a final stage other than the board's recorded warning stage.
pub open spec fn warning_history_problem(ws: Seq<BoardWarning>, warning_stage: int, today: int) -> Option<
    Seq<char>,
> {
    match warning_history(ws, today, ws.len() as int) {
        Err(e) => Some(e),
        Ok((stage, _)) => if stage != warning_stage {
            Some("Checkpoint warning stage/history mismatch"@)
        } else {
            None
        },
    }
}

/// Check a board's private warning history against its warning stage and
/// the current day.
pub fn validate_warning_history(warnings: &Vec<BoardWarning>, warning_stage: u8, today: u32) -> (r: Result<(), String>)
    ensures
        match warning_history_problem(warnings@, warning_stage as int, today as int) {
            None => r is Ok,
            Some(msg) => r matches Err(e) && e@ == msg,
        },
{
    let mut stage: u8 = 0;
    let mut prior: Option<u32> = None;
    let mut i: usize = 0;
    while i < warnings.len()
        invariant
            i <= warnings@.len(),
            warning_history(warnings@, today as int, i as int) == Ok::<(int, Option<int>), Seq<char>>(
                (
                    stage as int,
                    match prior {
                        Some(p) => Some(p as int),
                        None => None,
                    },
                ),
            ),
        decreases warnings@.len() - i,
    {
        let w = &warnings[i];
        let rank: u8 = match w.decision {
            Decision::Warning => 1,
            Decision::FinalWarning => 2,
            _ => {
                proof {
                    lemma_history_stops(warnings@, today as int, i as int + 1);
                }
                return Err(String::from_str("Invalid checkpoint private warning type"));
            },
        };
        let late = match prior {
            Some(p) => w.day <= p,
            None => false,
        };
        if rank <= stage || late || w.day >= today {
            proof {
                lemma_history_stops(warnings@, today as int, i as int + 1);
            }
            return Err(String::from_str("Invalid checkpoint warning chronology"));
        }
        stage = rank;
        prior = Some(w.day);
        i = i + 1;
    }
    if stage != warning_stage {
        return Err(String::from_str("Checkpoint warning stage/history mismatch"));
    }
    Ok(())
}

/// Once a prefix of the history has a problem, the whole history has it.
proof fn lemma_history_stops(ws: Seq<BoardWarning>, today: int, n: int)
    requires
        0 <= n <= ws.len(),
        warning_history(ws, today, n) is Err,
    ensures
        warning_history(ws, today, ws.len() as int) == warning_history(ws, today, n),
    decreases ws.len() - n,
{
    if n < ws.len() {
        lemma_history_stops(ws, today, n + 1);
    }
}

} // verus!
