//! Player conversation responses: outcome-band weights shaped by personality,
//! trust, grievances and repetition, and the response effects on morale, trust,
//! promises, renewal talks and teammates.
use vstd::prelude::*;
use crate::text::{str_starts_with, str_eq, append_decimal, decimal_text};
use crate::market_rules::{PlayerIssue, PlayerIssueCategory};
use crate::economy::{clamp_int, trunc_div};
use crate::random::{random_below_u32, random_i8_inclusive, random_i32_inclusive};
use crate::inbox::{ActionType, EffectReceipt, InboxError, InboxMessage, MessageAction, first_action_at, find_action};
use crate::dates::{Date, day_number_in_range, ymd_text};

verus! {

#[derive(Debug, Clone, Copy, PartialEq, Eq, Structural)]
pub enum ResponseOutcomeBand {
    StrongPositive,
    MildPositive,
    Neutral,
    MildNegative,
    StrongNegative,
}

/// Relative weights of the five outcome bands.
#[derive(Debug, Clone, Copy, PartialEq, Eq, Structural)]
pub struct ResponseBandWeights {
    pub strong_positive: u32,
    pub mild_positive: u32,
    pub neutral: u32,
    pub mild_negative: u32,
    pub strong_negative: u32,
}

pub open spec fn weights_total(w: ResponseBandWeights) -> int {
    w.strong_positive + w.mild_positive + w.neutral + w.mild_negative + w.strong_negative
}

impl ResponseBandWeights {
    /// Sum of the five weights.
    pub fn total(self) -> (r: u32)
        requires
            weights_total(self) <= u32::MAX,
        ensures
            r == weights_total(self),
    {
        self.strong_positive + self.mild_positive + self.neutral + self.mild_negative
            + self.strong_negative
    }
}

/// The band whose cumulative interval holds `roll`; rolls past every weight fall
/// in the strongly negative band.
pub open spec fn spec_pick_band(w: ResponseBandWeights, roll: int) -> ResponseOutcomeBand {
    let c1 = w.strong_positive as int;
    let c2 = c1 + w.mild_positive;
    let c3 = c2 + w.neutral;
    let c4 = c3 + w.mild_negative;
    if roll < c1 {
        ResponseOutcomeBand::StrongPositive
    } else if roll < c2 {
        ResponseOutcomeBand::MildPositive
    } else if roll < c3 {
        ResponseOutcomeBand::Neutral
    } else if roll < c4 {
        ResponseOutcomeBand::MildNegative
    } else {
        ResponseOutcomeBand::StrongNegative
    }
}

/// Whether the running sums that picking a band for `roll` computes stay within
/// `u32`: each partial sum is formed only once `roll` is past the ones before.
pub open spec fn band_sums_fit(w: ResponseBandWeights, roll: int) -> bool {
    let c1 = w.strong_positive as int;
    let c2 = c1 + w.mild_positive;
    let c3 = c2 + w.neutral;
    let c4 = c3 + w.mild_negative;
    roll < c1 || (c2 <= u32::MAX && (roll < c2 || (c3 <= u32::MAX && (roll < c3 || c4 <= u32::MAX))))
}

/// The band that `roll` falls in. The strongly negative weight is never added:
/// every roll past the first four bands lands in it.
pub fn pick_response_band(weights: &ResponseBandWeights, roll: u32) -> (r: ResponseOutcomeBand)
    requires
        band_sums_fit(*weights, roll as int),
    ensures
        r == spec_pick_band(*weights, roll as int),
{
    let mut cursor = weights.strong_positive;
    if roll < cursor {
        return ResponseOutcomeBand::StrongPositive;
    }
    cursor = cursor + weights.mild_positive;
    if roll < cursor {
        return ResponseOutcomeBand::MildPositive;
    }
    cursor = cursor + weights.neutral;
    if roll < cursor {
        return ResponseOutcomeBand::Neutral;
    }
    cursor = cursor + weights.mild_negative;
    if roll < cursor {
        return ResponseOutcomeBand::MildNegative;
    }
    ResponseOutcomeBand::StrongNegative
}

/// A band's share of the rolls below the total is exactly its weight: each band
/// owns a consecutive interval of that length, and the intervals tile `0..total`.
pub proof fn lemma_band_intervals(w: ResponseBandWeights, roll: int)
    requires
        0 <= roll < weights_total(w),
    ensures
        spec_pick_band(w, roll) == ResponseOutcomeBand::StrongPositive <==> roll < w.strong_positive,
        spec_pick_band(w, roll) == ResponseOutcomeBand::MildPositive <==> (w.strong_positive <= roll
            < w.strong_positive + w.mild_positive),
        spec_pick_band(w, roll) == ResponseOutcomeBand::Neutral <==> (w.strong_positive
            + w.mild_positive <= roll < w.strong_positive + w.mild_positive + w.neutral),
        spec_pick_band(w, roll) == ResponseOutcomeBand::MildNegative <==> (w.strong_positive
            + w.mild_positive + w.neutral <= roll < w.strong_positive + w.mild_positive + w.neutral
            + w.mild_negative),
        spec_pick_band(w, roll) == ResponseOutcomeBand::StrongNegative <==> (w.strong_positive
            + w.mild_positive + w.neutral + w.mild_negative <= roll),
{
}

/// Conversation families, told apart by the message-ID prefix.
#[derive(Debug, Clone, Copy, PartialEq, Eq, Structural)]
pub enum Family {
    MoraleTalk,
    BenchComplaint,
    HappyPlayer,
    ContractConcern,
    Other,
}

pub open spec fn has_prefix(s: Seq<char>, p: Seq<char>) -> bool {
    p.len() <= s.len() && s.subrange(0, p.len() as int) == p
}

pub open spec fn spec_family(message_id: Seq<char>) -> Family {
    if has_prefix(message_id, "morale_talk_"@) {
        Family::MoraleTalk
    } else if has_prefix(message_id, "bench_complaint_"@) {
        Family::BenchComplaint
    } else if has_prefix(message_id, "happy_player_"@) {
        Family::HappyPlayer
    } else if has_prefix(message_id, "contract_concern_"@) {
        Family::ContractConcern
    } else {
        Family::Other
    }
}

pub fn family(message_id: &str) -> (r: Family)
    ensures
        r == spec_family(message_id@),
{
    if str_starts_with(message_id, "morale_talk_") {
        Family::MoraleTalk
    } else if str_starts_with(message_id, "bench_complaint_") {
        Family::BenchComplaint
    } else if str_starts_with(message_id, "happy_player_") {
        Family::HappyPlayer
    } else if str_starts_with(message_id, "contract_concern_") {
        Family::ContractConcern
    } else {
        Family::Other
    }
}

pub open spec fn family_text(f: Family) -> Seq<char> {
    match f {
        Family::MoraleTalk => "morale_talk"@,
        Family::BenchComplaint => "bench_complaint"@,
        Family::HappyPlayer => "happy_player"@,
        Family::ContractConcern => "contract_concern"@,
        Family::Other => "player_event"@,
    }
}

/// The memory key of a response: `family:option`.
pub open spec fn spec_treatment_key(message_id: Seq<char>, option_id: Seq<char>) -> Seq<char> {
    family_text(spec_family(message_id)) + ":"@ + option_id
}

pub fn treatment_key(message_id: &str, option_id: &str) -> (r: String)
    ensures
        r@ == spec_treatment_key(message_id@, option_id@),
{
    let mut key = match family(message_id) {
        Family::MoraleTalk => String::from_str("morale_talk"),
        Family::BenchComplaint => String::from_str("bench_complaint"),
        Family::HappyPlayer => String::from_str("happy_player"),
        Family::ContractConcern => String::from_str("contract_concern"),
        Family::Other => String::from_str("player_event"),
    };
    key.append(":");
    key.append(option_id);
    key
}

/// Trust change a response carries before repetition is taken into account.
pub open spec fn spec_base_trust_delta(message_id: Seq<char>, option_id: Seq<char>) -> int {
    match spec_family(message_id) {
        Family::MoraleTalk => if option_id == "encourage"@ {
            4
        } else if option_id == "promise_time"@ {
            8
        } else if option_id == "work_harder"@ {
            -3
        } else {
            0
        },
        Family::BenchComplaint => if option_id == "explain"@ {
            3
        } else if option_id == "promise_chance"@ {
            6
        } else if option_id == "prove_yourself"@ {
            -2
        } else {
            0
        },
        Family::HappyPlayer => if option_id == "praise_back"@ {
            2
        } else if option_id == "higher_expectations"@ {
            -1
        } else {
            0
        },
        Family::ContractConcern => if option_id == "reassure"@ {
            5
        } else if option_id == "noncommittal"@ {
            -4
        } else if option_id == "no_renewal"@ {
            -8
        } else {
            0
        },
        Family::Other => 0,
    }
}

pub fn base_trust_delta(message_id: &str, option_id: &str) -> (r: i16)
    ensures
        r == spec_base_trust_delta(message_id@, option_id@),
{
    match family(message_id) {
        Family::MoraleTalk => if crate::text::str_eq(option_id, "encourage") {
            4
        } else if crate::text::str_eq(option_id, "promise_time") {
            8
        } else if crate::text::str_eq(option_id, "work_harder") {
            -3
        } else {
            0
        },
        Family::BenchComplaint => if crate::text::str_eq(option_id, "explain") {
            3
        } else if crate::text::str_eq(option_id, "promise_chance") {
            6
        } else if crate::text::str_eq(option_id, "prove_yourself") {
            -2
        } else {
            0
        },
        Family::HappyPlayer => if crate::text::str_eq(option_id, "praise_back") {
            2
        } else if crate::text::str_eq(option_id, "higher_expectations") {
            -1
        } else {
            0
        },
        Family::ContractConcern => if crate::text::str_eq(option_id, "reassure") {
            5
        } else if crate::text::str_eq(option_id, "noncommittal") {
            -4
        } else if crate::text::str_eq(option_id, "no_renewal") {
            -8
        } else {
            0
        },
        Family::Other => 0,
    }
}

/// Whether answering a message of this ID starts the talk cooldown.
pub fn should_apply_talk_cooldown(message_id: &str) -> (r: bool)
    ensures
        r == (spec_family(message_id@) != Family::Other),
{
    match family(message_id) {
        Family::Other => false,
        _ => true,
    }
}


/// How often the same response was used recently.
#[derive(Debug, Clone, PartialEq, Eq)]
pub struct RecentTreatmentMemory {
    pub action_key: String,
    pub times_recently_used: u8,
}

#[derive(Debug, Clone, Copy, PartialEq, Eq, Structural)]
pub enum PlayerPromiseKind {
    PlayingTime,
}

#[derive(Debug, Clone, Copy, PartialEq, Eq, Structural)]
pub struct PlayerPromise {
    pub kind: PlayerPromiseKind,
    pub matches_remaining: u8,
}

#[derive(Debug, Clone, Copy, PartialEq, Eq, Structural)]
pub enum RenewalSessionStatus {
    /// No renewal talks yet.
    Idle,
    Open,
    Stalled,
    Blocked,
    Agreed,
}

#[derive(Debug, Clone, Copy, PartialEq, Eq, Structural)]
pub enum RenewalSessionOutcome {
    Stalled,
    BlockedByManager,
    RejectedByPlayer,
    AcceptedByManager,
}

#[derive(Debug, Clone, PartialEq, Eq)]
pub enum ContractExitIntent {
    LetExpire { set_on: String, reason: Option<String> },
}

/// The state of renewal talks with a player.
#[derive(Debug, Clone, PartialEq, Eq)]
pub struct ContractRenewalState {
    pub status: RenewalSessionStatus,
    pub manager_blocked_until: Option<String>,
    pub last_outcome: Option<RenewalSessionOutcome>,
    pub exit_intent: Option<ContractExitIntent>,
    /// The last manager attempt at renewal talks, `%Y-%m-%d`.
    pub last_attempt_date: Option<String>,
    /// Rounds of the current negotiation.
    pub conversation_round: u8,
}

/// The player attributes a conversation reads and changes.
#[derive(Debug, Clone, PartialEq, Eq)]
pub struct ConversationPlayer {
    pub id: String,
    pub team_id: Option<String>,
    pub morale: u8,
    pub composure: u8,
    pub leadership: u8,
    pub aggression: u8,
    pub manager_trust: u8,
    pub unresolved_issue: Option<PlayerIssue>,
    pub recent_treatment: Option<RecentTreatmentMemory>,
    pub pending_promise: Option<PlayerPromise>,
    pub talk_cooldown_until: Option<String>,
    pub renewal_state: Option<ContractRenewalState>,
}

/// Personality factor in -20..=20: composure plus leadership minus aggression, over six.
pub open spec fn spec_personality(composure: int, leadership: int, aggression: int) -> int {
    clamp_int(trunc_div(composure + leadership - aggression, 6), -20, 20)
}

fn tdiv(a: i32, b: i32) -> (r: i32)
    requires
        b > 0,
        a > i32::MIN,
    ensures
        r == trunc_div(a as int, b as int),
{
    if a >= 0 { a / b } else { -((-a) / b) }
}

pub fn personality_factor(player: &ConversationPlayer) -> (r: i8)
    ensures
        r == spec_personality(player.composure as int, player.leadership as int, player.aggression as int),
{
    let raw: i32 = player.composure as i32 + player.leadership as i32 - player.aggression as i32;
    let q = tdiv(raw, 6);
    (if q < -20 { -20 } else if q > 20 { 20 } else { q }) as i8
}

pub open spec fn adjusted(w: int, delta: int) -> int {
    if w + delta < 0 { 0 } else { w + delta }
}

fn adjust_weight(weight: &mut u32, delta: i32)
    requires
        *old(weight) <= 1000,
        -1000 <= delta <= 1000,
    ensures
        *final(weight) == adjusted(*old(weight) as int, delta as int),
{
    let v: i32 = *weight as i32 + delta;
    *weight = if v < 0 { 0 } else { v as u32 };
}

pub open spec fn base_weights(option_id: Seq<char>) -> ResponseBandWeights {
    if option_id == "encourage"@ {
        ResponseBandWeights { strong_positive: 2, mild_positive: 5, neutral: 2, mild_negative: 1, strong_negative: 0 }
    } else if option_id == "promise_time"@ {
        ResponseBandWeights { strong_positive: 5, mild_positive: 4, neutral: 1, mild_negative: 0, strong_negative: 0 }
    } else if option_id == "work_harder"@ {
        ResponseBandWeights { strong_positive: 1, mild_positive: 2, neutral: 2, mild_negative: 3, strong_negative: 2 }
    } else {
        neutral_weights()
    }
}

pub open spec fn neutral_weights() -> ResponseBandWeights {
    ResponseBandWeights { strong_positive: 0, mild_positive: 0, neutral: 1, mild_negative: 0, strong_negative: 0 }
}

/// Weights after the option's personality and trust adjustments.
pub open spec fn option_adjusted(w: ResponseBandWeights, option_id: Seq<char>, pf: int, trust: int) -> ResponseBandWeights {
    if option_id == "encourage"@ {
        ResponseBandWeights {
            mild_positive: adjusted(w.mild_positive as int, trunc_div(pf, 8) + trunc_div(trust - 50, 25)) as u32,
            mild_negative: adjusted(w.mild_negative as int, trunc_div(-pf, 12) - trunc_div(trust - 50, 30)) as u32,
            ..w
        }
    } else if option_id == "promise_time"@ {
        ResponseBandWeights {
            strong_positive: adjusted(w.strong_positive as int, trunc_div(trust - 50, 20)) as u32,
            neutral: adjusted(w.neutral as int, trunc_div(-(trust - 50), 30)) as u32,
            ..w
        }
    } else if option_id == "work_harder"@ {
        ResponseBandWeights {
            strong_negative: adjusted(w.strong_negative as int, trunc_div(-pf, 6) + trunc_div(50 - trust, 20)) as u32,
            mild_negative: adjusted(w.mild_negative as int, trunc_div(-pf, 8) + trunc_div(50 - trust, 25)) as u32,
            mild_positive: adjusted(w.mild_positive as int, trunc_div(pf, 8) + trunc_div(trust - 50, 25)) as u32,
            strong_positive: adjusted(w.strong_positive as int, trunc_div(pf, 10) + trunc_div(trust - 50, 30)) as u32,
            ..w
        }
    } else {
        w
    }
}

/// Weights after a grievance: from severity 50 the positive bands shrink and
/// neutral grows; from 75 both negative bands grow too.
pub open spec fn issue_adjusted(w: ResponseBandWeights, issue: Option<PlayerIssue>) -> ResponseBandWeights {
    match issue {
        None => w,
        Some(i) => {
            let sev = i.severity as int;
            let w1 = if sev >= 50 {
                ResponseBandWeights {
                    strong_positive: adjusted(w.strong_positive as int, -((sev - 40) / 15)) as u32,
                    mild_positive: adjusted(w.mild_positive as int, -((sev - 40) / 12)) as u32,
                    neutral: adjusted(w.neutral as int, 1) as u32,
                    ..w
                }
            } else {
                w
            };
            if sev >= 75 {
                ResponseBandWeights {
                    mild_negative: adjusted(w1.mild_negative as int, 1) as u32,
                    strong_negative: adjusted(w1.strong_negative as int, 1) as u32,
                    ..w1
                }
            } else {
                w1
            }
        },
    }
}

/// Weights after repetition: a response used `n` times recently loses `2n` from
/// each positive band and gains `n` neutral.
pub open spec fn memory_adjusted(w: ResponseBandWeights, memory: Option<RecentTreatmentMemory>, key: Seq<char>) -> ResponseBandWeights {
    match memory {
        Some(m) => if m.action_key@ == key {
            let penalty = m.times_recently_used * 2;
            ResponseBandWeights {
                strong_positive: adjusted(w.strong_positive as int, -penalty) as u32,
                mild_positive: adjusted(w.mild_positive as int, -penalty) as u32,
                neutral: adjusted(w.neutral as int, m.times_recently_used as int) as u32,
                ..w
            }
        } else {
            w
        },
        None => w,
    }
}

/// Band weights for a response; only morale talks are weighted, every other
/// conversation is certainly neutral, and all-zero weights become neutral.
pub open spec fn spec_band_weights(player: ConversationPlayer, message_id: Seq<char>, option_id: Seq<char>) -> ResponseBandWeights {
    if spec_family(message_id) != Family::MoraleTalk {
        neutral_weights()
    } else {
        let pf = spec_personality(player.composure as int, player.leadership as int, player.aggression as int);
        let w = memory_adjusted(
            issue_adjusted(
                option_adjusted(base_weights(option_id), option_id, pf, player.manager_trust as int),
                player.unresolved_issue,
            ),
            player.recent_treatment,
            spec_treatment_key(message_id, option_id),
        );
        if weights_total(w) == 0 { ResponseBandWeights { neutral: 1, ..w } } else { w }
    }
}

pub open spec fn weights_bounded(w: ResponseBandWeights, b: int) -> bool {
    w.strong_positive <= b && w.mild_positive <= b && w.neutral <= b && w.mild_negative <= b
        && w.strong_negative <= b
}

fn option_adjust(w: ResponseBandWeights, option_id: &str, pf: i32, trust: i32) -> (r: ResponseBandWeights)
    requires
        weights_bounded(w, 5),
        -20 <= pf <= 20,
        0 <= trust <= 255,
    ensures
        r == option_adjusted(w, option_id@, pf as int, trust as int),
        weights_bounded(r, 30),
{
    let mut w = w;
    if str_eq(option_id, "encourage") {
        adjust_weight(&mut w.mild_positive, tdiv(pf, 8) + tdiv(trust - 50, 25));
        adjust_weight(&mut w.mild_negative, tdiv(-pf, 12) - tdiv(trust - 50, 30));
    } else if str_eq(option_id, "promise_time") {
        adjust_weight(&mut w.strong_positive, tdiv(trust - 50, 20));
        adjust_weight(&mut w.neutral, tdiv(-(trust - 50), 30));
    } else if str_eq(option_id, "work_harder") {
        adjust_weight(&mut w.strong_negative, tdiv(-pf, 6) + tdiv(50 - trust, 20));
        adjust_weight(&mut w.mild_negative, tdiv(-pf, 8) + tdiv(50 - trust, 25));
        adjust_weight(&mut w.mild_positive, tdiv(pf, 8) + tdiv(trust - 50, 25));
        adjust_weight(&mut w.strong_positive, tdiv(pf, 10) + tdiv(trust - 50, 30));
    }
    w
}

fn issue_adjust(w: ResponseBandWeights, issue: &Option<PlayerIssue>) -> (r: ResponseBandWeights)
    requires
        weights_bounded(w, 30),
    ensures
        r == issue_adjusted(w, *issue),
        weights_bounded(r, 32),
{
    let mut w = w;
    match issue {
        Some(issue) => {
            let severity: i32 = issue.severity as i32;
            if severity >= 50 {
                adjust_weight(&mut w.strong_positive, -((severity - 40) / 15));
                adjust_weight(&mut w.mild_positive, -((severity - 40) / 12));
                adjust_weight(&mut w.neutral, 1);
            }
            if severity >= 75 {
                adjust_weight(&mut w.mild_negative, 1);
                adjust_weight(&mut w.strong_negative, 1);
            }
        },
        None => {},
    }
    w
}

fn memory_adjust(w: ResponseBandWeights, memory: &Option<RecentTreatmentMemory>, key: &str) -> (r: ResponseBandWeights)
    requires
        weights_bounded(w, 32),
    ensures
        r == memory_adjusted(w, *memory, key@),
        weights_bounded(r, 300),
{
    let mut w = w;
    match memory {
        Some(memory) => {
            if str_eq(memory.action_key.as_str(), key) {
                let penalty: i32 = memory.times_recently_used as i32 * 2;
                adjust_weight(&mut w.strong_positive, -penalty);
                adjust_weight(&mut w.mild_positive, -penalty);
                adjust_weight(&mut w.neutral, memory.times_recently_used as i32);
            }
        },
        None => {},
    }
    w
}

pub fn build_response_band_weights(player: &ConversationPlayer, message_id: &str, option_id: &str) -> (r: ResponseBandWeights)
    ensures
        r == spec_band_weights(*player, message_id@, option_id@),
        weights_total(r) > 0,
        weights_bounded(r, 300),
{
    let neutral = ResponseBandWeights { strong_positive: 0, mild_positive: 0, neutral: 1, mild_negative: 0, strong_negative: 0 };
    match family(message_id) {
        Family::MoraleTalk => {},
        _ => return neutral,
    }
    let key = treatment_key(message_id, option_id);
    let pf: i32 = personality_factor(player) as i32;
    let trust: i32 = player.manager_trust as i32;
    let base = if str_eq(option_id, "encourage") {
        ResponseBandWeights { strong_positive: 2, mild_positive: 5, neutral: 2, mild_negative: 1, strong_negative: 0 }
    } else if str_eq(option_id, "promise_time") {
        ResponseBandWeights { strong_positive: 5, mild_positive: 4, neutral: 1, mild_negative: 0, strong_negative: 0 }
    } else if str_eq(option_id, "work_harder") {
        ResponseBandWeights { strong_positive: 1, mild_positive: 2, neutral: 2, mild_negative: 3, strong_negative: 2 }
    } else {
        neutral
    };
    let w1 = option_adjust(base, option_id, pf, trust);
    let w2 = issue_adjust(w1, &player.unresolved_issue);
    let mut w = memory_adjust(w2, &player.recent_treatment, key.as_str());
    if w.strong_positive + w.mild_positive + w.neutral + w.mild_negative + w.strong_negative == 0 {
        w.neutral = 1;
    }
    w
}


/// A positive change shrinks by four per recent use of the same response, not below zero.
pub open spec fn spec_reduced(delta: int, memory: Option<RecentTreatmentMemory>, key: Seq<char>) -> int {
    match memory {
        Some(m) => if m.action_key@ != key || delta <= 0 {
            delta
        } else {
            let r = delta - m.times_recently_used * 4;
            if r < 0 { 0 } else { r }
        },
        None => delta,
    }
}

fn reduced_by_recent_treatment(delta: i8, player: &ConversationPlayer, action_key: &str) -> (r: i8)
    ensures
        r == spec_reduced(delta as int, player.recent_treatment, action_key@),
{
    match &player.recent_treatment {
        None => delta,
        Some(memory) => {
            if !str_eq(memory.action_key.as_str(), action_key) || delta <= 0 {
                return delta;
            }
            let reduced: i16 = delta as i16 - memory.times_recently_used as i16 * 4;
            if reduced < 0 { 0 } else { reduced as i8 }
        },
    }
}

/// A grievance caps a positive change: none from severity 75, half (rounded up,
/// at least one) from 50.
pub open spec fn spec_capped(delta: int, issue: Option<PlayerIssue>) -> int {
    match issue {
        None => delta,
        Some(i) => if delta <= 0 {
            delta
        } else if i.severity >= 75 {
            0
        } else if i.severity >= 50 {
            let h = (delta + 1) / 2;
            if h < 1 { 1 } else { h }
        } else {
            delta
        },
    }
}

fn capped_by_unresolved_issue(delta: i8, player: &ConversationPlayer) -> (r: i8)
    ensures
        r == spec_capped(delta as int, player.unresolved_issue),
{
    match &player.unresolved_issue {
        None => delta,
        Some(issue) => {
            if delta <= 0 {
                return delta;
            }
            if issue.severity >= 75 {
                return 0;
            }
            if issue.severity >= 50 {
                let h: i16 = (delta as i16 + 1) / 2;
                return if h < 1 { 1 } else { h as i8 };
            }
            delta
        },
    }
}

/// A positive trust change is divided by one more than the recent uses of the response.
pub open spec fn spec_trust_delta(base: int, memory: Option<RecentTreatmentMemory>, key: Seq<char>) -> int {
    match memory {
        Some(m) => if m.action_key@ != key || base <= 0 {
            base
        } else {
            base / (m.times_recently_used + 1)
        },
        None => base,
    }
}

fn trust_delta_with_memory(base_delta: i16, player: &ConversationPlayer, action_key: &str) -> (r: i16)
    requires
        -20 <= base_delta <= 20,
    ensures
        r == spec_trust_delta(base_delta as int, player.recent_treatment, action_key@),
{
    match &player.recent_treatment {
        None => base_delta,
        Some(memory) => {
            if !str_eq(memory.action_key.as_str(), action_key) || base_delta <= 0 {
                return base_delta;
            }
            base_delta / (memory.times_recently_used as i16 + 1)
        },
    }
}

/// The memory after using a response: the count grows (saturating) for the same
/// response and restarts at one for another.
pub open spec fn spec_memory_after(memory: Option<RecentTreatmentMemory>, key: Seq<char>) -> (Seq<char>, int) {
    match memory {
        Some(m) => if m.action_key@ == key {
            (key, if m.times_recently_used == 255 { 255 } else { m.times_recently_used + 1 })
        } else {
            (key, 1)
        },
        None => (key, 1),
    }
}

fn update_recent_treatment(player: &mut ConversationPlayer, action_key: &str)
    ensures
        final(player).recent_treatment matches Some(m) && (m.action_key@, m.times_recently_used as int)
            == spec_memory_after(old(player).recent_treatment, action_key@),
        *final(player) == (ConversationPlayer { recent_treatment: final(player).recent_treatment, ..*old(player) }),
{
    let next = match &player.recent_treatment {
        Some(memory) => {
            if str_eq(memory.action_key.as_str(), action_key) {
                RecentTreatmentMemory {
                    action_key: String::from_str(action_key),
                    times_recently_used: memory.times_recently_used.saturating_add(1),
                }
            } else {
                RecentTreatmentMemory { action_key: String::from_str(action_key), times_recently_used: 1 }
            }
        },
        None => RecentTreatmentMemory { action_key: String::from_str(action_key), times_recently_used: 1 },
    };
    player.recent_treatment = Some(next);
}

/// Promising playing time (in a morale talk or a bench complaint) records a
/// one-match playing-time promise.
pub open spec fn spec_implied_promise(message_id: Seq<char>, option_id: Seq<char>) -> Option<PlayerPromise> {
    if (spec_family(message_id) == Family::MoraleTalk && option_id == "promise_time"@) || (spec_family(
        message_id,
    ) == Family::BenchComplaint && option_id == "promise_chance"@) {
        Some(PlayerPromise { kind: PlayerPromiseKind::PlayingTime, matches_remaining: 1 })
    } else {
        None
    }
}

pub fn implied_promise(message_id: &str, option_id: &str) -> (r: Option<PlayerPromise>)
    ensures
        r == spec_implied_promise(message_id@, option_id@),
{
    let f = family(message_id);
    if (f == Family::MoraleTalk && str_eq(option_id, "promise_time")) || (f == Family::BenchComplaint
        && str_eq(option_id, "promise_chance")) {
        Some(PlayerPromise { kind: PlayerPromiseKind::PlayingTime, matches_remaining: 1 })
    } else {
        None
    }
}

/// `+n` for a non-negative change, `-n` for a negative one.
pub open spec fn signed_text(d: int) -> Seq<char> {
    if d >= 0 { "+"@ + decimal_text(d as nat) } else { "-"@ + decimal_text((-d) as nat) }
}

pub fn signed_delta(delta: i8) -> (r: String)
    ensures
        r@ == signed_text(delta as int),
{
    if delta >= 0 {
        let mut s = String::from_str("+");
        append_decimal(&mut s, delta as u64);
        s
    } else {
        let mut s = String::from_str("-");
        append_decimal(&mut s, (-(delta as i16)) as u64);
        s
    }
}


/// The message keys a response effect can carry.
#[derive(Debug, Clone, Copy, PartialEq, Eq, Structural)]
pub enum EffectKey {
    EncouragePositive,
    EncourageNegative,
    PromiseTime,
    WorkHarderPositive,
    WorkHarderNegative,
    ExplainPositive,
    ExplainNegative,
    PromiseChance,
    ProveYourselfPositive,
    ProveYourselfNegative,
    PraiseBack,
    StayProfessionalPositive,
    StayProfessionalNegative,
    HigherExpectationsPositive,
    HigherExpectationsNegative,
    Reassure,
    NoncommittalPositive,
    NoncommittalNegative,
    NoRenewal,
    NoRenewalWithDressingRoom,
}

pub open spec fn effect_key_text(k: EffectKey) -> Seq<char> {
    match k {
        EffectKey::EncouragePositive => "be.msg.playerEvent.effects.moraleCrisis.encourage.positive"@,
        EffectKey::EncourageNegative => "be.msg.playerEvent.effects.moraleCrisis.encourage.negative"@,
        EffectKey::PromiseTime => "be.msg.playerEvent.effects.moraleCrisis.promiseTime"@,
        EffectKey::WorkHarderPositive => "be.msg.playerEvent.effects.moraleCrisis.workHarder.positive"@,
        EffectKey::WorkHarderNegative => "be.msg.playerEvent.effects.moraleCrisis.workHarder.negative"@,
        EffectKey::ExplainPositive => "be.msg.playerEvent.effects.benchComplaint.explain.positive"@,
        EffectKey::ExplainNegative => "be.msg.playerEvent.effects.benchComplaint.explain.negative"@,
        EffectKey::PromiseChance => "be.msg.playerEvent.effects.benchComplaint.promiseChance"@,
        EffectKey::ProveYourselfPositive => "be.msg.playerEvent.effects.benchComplaint.proveYourself.positive"@,
        EffectKey::ProveYourselfNegative => "be.msg.playerEvent.effects.benchComplaint.proveYourself.negative"@,
        EffectKey::PraiseBack => "be.msg.playerEvent.effects.happyPlayer.praiseBack"@,
        EffectKey::StayProfessionalPositive => "be.msg.playerEvent.effects.happyPlayer.stayProfessional.positive"@,
        EffectKey::StayProfessionalNegative => "be.msg.playerEvent.effects.happyPlayer.stayProfessional.negative"@,
        EffectKey::HigherExpectationsPositive => "be.msg.playerEvent.effects.happyPlayer.higherExpectations.positive"@,
        EffectKey::HigherExpectationsNegative => "be.msg.playerEvent.effects.happyPlayer.higherExpectations.negative"@,
        EffectKey::Reassure => "be.msg.playerEvent.effects.contractConcern.reassure"@,
        EffectKey::NoncommittalPositive => "be.msg.playerEvent.effects.contractConcern.noncommittal.positive"@,
        EffectKey::NoncommittalNegative => "be.msg.playerEvent.effects.contractConcern.noncommittal.negative"@,
        EffectKey::NoRenewal => "be.msg.playerEvent.effects.contractConcern.noRenewal"@,
        EffectKey::NoRenewalWithDressingRoom => "be.msg.playerEvent.effects.contractConcern.noRenewalWithDressingRoom"@,
    }
}

pub fn effect_key_string(k: EffectKey) -> (r: String)
    ensures
        r@ == effect_key_text(k),
{
    match k {
        EffectKey::EncouragePositive => String::from_str("be.msg.playerEvent.effects.moraleCrisis.encourage.positive"),
        EffectKey::EncourageNegative => String::from_str("be.msg.playerEvent.effects.moraleCrisis.encourage.negative"),
        EffectKey::PromiseTime => String::from_str("be.msg.playerEvent.effects.moraleCrisis.promiseTime"),
        EffectKey::WorkHarderPositive => String::from_str("be.msg.playerEvent.effects.moraleCrisis.workHarder.positive"),
        EffectKey::WorkHarderNegative => String::from_str("be.msg.playerEvent.effects.moraleCrisis.workHarder.negative"),
        EffectKey::ExplainPositive => String::from_str("be.msg.playerEvent.effects.benchComplaint.explain.positive"),
        EffectKey::ExplainNegative => String::from_str("be.msg.playerEvent.effects.benchComplaint.explain.negative"),
        EffectKey::PromiseChance => String::from_str("be.msg.playerEvent.effects.benchComplaint.promiseChance"),
        EffectKey::ProveYourselfPositive => String::from_str("be.msg.playerEvent.effects.benchComplaint.proveYourself.positive"),
        EffectKey::ProveYourselfNegative => String::from_str("be.msg.playerEvent.effects.benchComplaint.proveYourself.negative"),
        EffectKey::PraiseBack => String::from_str("be.msg.playerEvent.effects.happyPlayer.praiseBack"),
        EffectKey::StayProfessionalPositive => String::from_str("be.msg.playerEvent.effects.happyPlayer.stayProfessional.positive"),
        EffectKey::StayProfessionalNegative => String::from_str("be.msg.playerEvent.effects.happyPlayer.stayProfessional.negative"),
        EffectKey::HigherExpectationsPositive => String::from_str("be.msg.playerEvent.effects.happyPlayer.higherExpectations.positive"),
        EffectKey::HigherExpectationsNegative => String::from_str("be.msg.playerEvent.effects.happyPlayer.higherExpectations.negative"),
        EffectKey::Reassure => String::from_str("be.msg.playerEvent.effects.contractConcern.reassure"),
        EffectKey::NoncommittalPositive => String::from_str("be.msg.playerEvent.effects.contractConcern.noncommittal.positive"),
        EffectKey::NoncommittalNegative => String::from_str("be.msg.playerEvent.effects.contractConcern.noncommittal.negative"),
        EffectKey::NoRenewal => String::from_str("be.msg.playerEvent.effects.contractConcern.noRenewal"),
        EffectKey::NoRenewalWithDressingRoom => String::from_str("be.msg.playerEvent.effects.contractConcern.noRenewalWithDressingRoom"),
    }
}

/// The supported responses of the four conversation families.
#[derive(Debug, Clone, Copy, PartialEq, Eq, Structural)]
pub enum ResponseOption {
    Encourage,
    PromiseTime,
    WorkHarder,
    Explain,
    PromiseChance,
    ProveYourself,
    PraiseBack,
    StayProfessional,
    HigherExpectations,
    Reassure,
    Noncommittal,
    NoRenewal,
}

pub open spec fn spec_option(message_id: Seq<char>, option_id: Seq<char>) -> Option<ResponseOption> {
    match spec_family(message_id) {
        Family::MoraleTalk => if option_id == "encourage"@ {
            Some(ResponseOption::Encourage)
        } else if option_id == "promise_time"@ {
            Some(ResponseOption::PromiseTime)
        } else if option_id == "work_harder"@ {
            Some(ResponseOption::WorkHarder)
        } else {
            None
        },
        Family::BenchComplaint => if option_id == "explain"@ {
            Some(ResponseOption::Explain)
        } else if option_id == "promise_chance"@ {
            Some(ResponseOption::PromiseChance)
        } else if option_id == "prove_yourself"@ {
            Some(ResponseOption::ProveYourself)
        } else {
            None
        },
        Family::HappyPlayer => if option_id == "praise_back"@ {
            Some(ResponseOption::PraiseBack)
        } else if option_id == "stay_professional"@ {
            Some(ResponseOption::StayProfessional)
        } else if option_id == "higher_expectations"@ {
            Some(ResponseOption::HigherExpectations)
        } else {
            None
        },
        Family::ContractConcern => if option_id == "reassure"@ {
            Some(ResponseOption::Reassure)
        } else if option_id == "noncommittal"@ {
            Some(ResponseOption::Noncommittal)
        } else if option_id == "no_renewal"@ {
            Some(ResponseOption::NoRenewal)
        } else {
            None
        },
        Family::Other => None,
    }
}

pub fn response_option(message_id: &str, option_id: &str) -> (r: Option<ResponseOption>)
    ensures
        r == spec_option(message_id@, option_id@),
{
    match family(message_id) {
        Family::MoraleTalk => if str_eq(option_id, "encourage") {
            Some(ResponseOption::Encourage)
        } else if str_eq(option_id, "promise_time") {
            Some(ResponseOption::PromiseTime)
        } else if str_eq(option_id, "work_harder") {
            Some(ResponseOption::WorkHarder)
        } else {
            None
        },
        Family::BenchComplaint => if str_eq(option_id, "explain") {
            Some(ResponseOption::Explain)
        } else if str_eq(option_id, "promise_chance") {
            Some(ResponseOption::PromiseChance)
        } else if str_eq(option_id, "prove_yourself") {
            Some(ResponseOption::ProveYourself)
        } else {
            None
        },
        Family::HappyPlayer => if str_eq(option_id, "praise_back") {
            Some(ResponseOption::PraiseBack)
        } else if str_eq(option_id, "stay_professional") {
            Some(ResponseOption::StayProfessional)
        } else if str_eq(option_id, "higher_expectations") {
            Some(ResponseOption::HigherExpectations)
        } else {
            None
        },
        Family::ContractConcern => if str_eq(option_id, "reassure") {
            Some(ResponseOption::Reassure)
        } else if str_eq(option_id, "noncommittal") {
            Some(ResponseOption::Noncommittal)
        } else if str_eq(option_id, "no_renewal") {
            Some(ResponseOption::NoRenewal)
        } else {
            None
        },
        Family::Other => None,
    }
}

/// Morale talks draw a band; the other responses draw a change directly.
pub open spec fn is_banded(o: ResponseOption) -> bool {
    o == ResponseOption::Encourage || o == ResponseOption::PromiseTime || o == ResponseOption::WorkHarder
}

/// The range a direct draw comes from.
pub open spec fn draw_range(o: ResponseOption) -> (int, int) {
    match o {
        ResponseOption::Explain => (-2, 6),
        ResponseOption::PromiseChance => (8, 14),
        ResponseOption::ProveYourself => (-10, 6),
        ResponseOption::PraiseBack => (2, 5),
        ResponseOption::StayProfessional => (-2, 3),
        ResponseOption::HigherExpectations => (-6, 4),
        ResponseOption::Reassure => (4, 10),
        ResponseOption::Noncommittal => (-8, 0),
        ResponseOption::NoRenewal => (-15, -8),
        _ => (0, 0),
    }
}

/// Change and key of a morale-talk band.
pub open spec fn band_outcome(o: ResponseOption, band: ResponseOutcomeBand) -> (int, EffectKey) {
    match o {
        ResponseOption::Encourage => match band {
            ResponseOutcomeBand::StrongPositive => (8, EffectKey::EncouragePositive),
            ResponseOutcomeBand::MildPositive => (4, EffectKey::EncouragePositive),
            ResponseOutcomeBand::Neutral => (0, EffectKey::EncourageNegative),
            ResponseOutcomeBand::MildNegative => (-2, EffectKey::EncourageNegative),
            ResponseOutcomeBand::StrongNegative => (-5, EffectKey::EncourageNegative),
        },
        ResponseOption::PromiseTime => match band {
            ResponseOutcomeBand::StrongPositive => (14, EffectKey::PromiseTime),
            ResponseOutcomeBand::MildPositive => (10, EffectKey::PromiseTime),
            ResponseOutcomeBand::Neutral => (4, EffectKey::PromiseTime),
            ResponseOutcomeBand::MildNegative => (-2, EffectKey::PromiseTime),
            ResponseOutcomeBand::StrongNegative => (-6, EffectKey::PromiseTime),
        },
        _ => match band {
            ResponseOutcomeBand::StrongPositive => (6, EffectKey::WorkHarderPositive),
            ResponseOutcomeBand::MildPositive => (2, EffectKey::WorkHarderPositive),
            ResponseOutcomeBand::Neutral => (0, EffectKey::WorkHarderNegative),
            ResponseOutcomeBand::MildNegative => (-5, EffectKey::WorkHarderNegative),
            ResponseOutcomeBand::StrongNegative => (-10, EffectKey::WorkHarderNegative),
        },
    }
}

/// Change and key of a direct draw: the draw plus a personality share for the
/// risky responses, keyed by its sign where the response has two outcomes.
pub open spec fn draw_outcome(o: ResponseOption, pf: int, d: int) -> (int, EffectKey) {
    match o {
        ResponseOption::Explain => {
            let v = d + trunc_div(pf, 4);
            (v, if v >= 0 { EffectKey::ExplainPositive } else { EffectKey::ExplainNegative })
        },
        ResponseOption::PromiseChance => (d, EffectKey::PromiseChance),
        ResponseOption::ProveYourself => {
            let v = d + trunc_div(pf, 3);
            (v, if v >= 0 { EffectKey::ProveYourselfPositive } else { EffectKey::ProveYourselfNegative })
        },
        ResponseOption::PraiseBack => (d, EffectKey::PraiseBack),
        ResponseOption::StayProfessional => {
            let v = d + trunc_div(pf, 6);
            (v, if v >= 0 { EffectKey::StayProfessionalPositive } else { EffectKey::StayProfessionalNegative })
        },
        ResponseOption::HigherExpectations => {
            let v = d + trunc_div(pf, 3);
            (v, if v >= 0 { EffectKey::HigherExpectationsPositive } else { EffectKey::HigherExpectationsNegative })
        },
        ResponseOption::Reassure => (d, EffectKey::Reassure),
        ResponseOption::Noncommittal => {
            let v = d + trunc_div(pf, 5);
            (v, if v >= 0 { EffectKey::NoncommittalPositive } else { EffectKey::NoncommittalNegative })
        },
        _ => (d, EffectKey::NoRenewal),
    }
}

fn div_i8(a: i8, b: i8) -> (r: i8)
    requires
        b > 0,
        -20 <= a <= 20,
    ensures
        r == trunc_div(a as int, b as int),
        -20 <= r <= 20,
{
    if a >= 0 { a / b } else { -((-a) / b) }
}

fn direct_range(option: ResponseOption) -> (r: (i8, i8))
    requires
        !is_banded(option),
    ensures
        r.0 as int == draw_range(option).0,
        r.1 as int == draw_range(option).1,
        r.0 <= r.1,
{
    match option {
        ResponseOption::Explain => (-2, 6),
        ResponseOption::PromiseChance => (8, 14),
        ResponseOption::ProveYourself => (-10, 6),
        ResponseOption::PraiseBack => (2, 5),
        ResponseOption::StayProfessional => (-2, 3),
        ResponseOption::HigherExpectations => (-6, 4),
        ResponseOption::Reassure => (4, 10),
        ResponseOption::Noncommittal => (-8, 0),
        ResponseOption::NoRenewal => (-15, -8),
        _ => (0, 0),
    }
}

fn signed_key(v: i8, positive: EffectKey, negative: EffectKey) -> (r: (i8, EffectKey))
    ensures
        r == (v, if v >= 0 { positive } else { negative }),
{
    (v, if v >= 0 { positive } else { negative })
}

fn direct_outcome(option: ResponseOption, pf: i8, d: i8) -> (r: (i8, EffectKey))
    requires
        -20 <= pf <= 20,
        draw_range(option).0 <= d <= draw_range(option).1,
        !is_banded(option),
    ensures
        draw_outcome(option, pf as int, d as int) == (r.0 as int, r.1),
{
    match option {
        ResponseOption::Explain => signed_key(
            d + div_i8(pf, 4),
            EffectKey::ExplainPositive,
            EffectKey::ExplainNegative,
        ),
        ResponseOption::PromiseChance => (d, EffectKey::PromiseChance),
        ResponseOption::ProveYourself => signed_key(
            d + div_i8(pf, 3),
            EffectKey::ProveYourselfPositive,
            EffectKey::ProveYourselfNegative,
        ),
        ResponseOption::PraiseBack => (d, EffectKey::PraiseBack),
        ResponseOption::StayProfessional => signed_key(
            d + div_i8(pf, 6),
            EffectKey::StayProfessionalPositive,
            EffectKey::StayProfessionalNegative,
        ),
        ResponseOption::HigherExpectations => signed_key(
            d + div_i8(pf, 3),
            EffectKey::HigherExpectationsPositive,
            EffectKey::HigherExpectationsNegative,
        ),
        ResponseOption::Reassure => (d, EffectKey::Reassure),
        ResponseOption::Noncommittal => signed_key(
            d + div_i8(pf, 5),
            EffectKey::NoncommittalPositive,
            EffectKey::NoncommittalNegative,
        ),
        _ => (d, EffectKey::NoRenewal),
    }
}

/// Whether `drawn` (change and key) is an outcome the rules can draw for this
/// response: a band picked by a roll below the total weight for morale talks,
/// otherwise one value of the response's range shifted by personality.
pub open spec fn possible_draw(
    option: ResponseOption,
    player: ConversationPlayer,
    message_id: Seq<char>,
    option_id: Seq<char>,
    drawn: (int, EffectKey),
) -> bool {
    if is_banded(option) {
        exists|roll: int|
            0 <= roll < weights_total(spec_band_weights(player, message_id, option_id))
                && band_outcome(option, spec_pick_band(spec_band_weights(player, message_id, option_id), roll))
                == drawn
    } else {
        exists|d: int|
            draw_range(option).0 <= d <= draw_range(option).1 && draw_outcome(
                option,
                spec_personality(player.composure as int, player.leadership as int, player.aggression as int),
                d,
            ) == drawn
    }
}

/// The rule change and key of a response, drawing from `rng` as the rules do:
/// a band roll below the total weight for morale talks, otherwise one value
/// from the response's range.
pub fn draw_response(
    rng: &mut rand::rngs::StdRng,
    option: ResponseOption,
    player: &ConversationPlayer,
    message_id: &str,
    option_id: &str,
) -> (r: (i8, EffectKey))
    requires
        spec_option(message_id@, option_id@) == Some(option),
    ensures
        possible_draw(option, *player, message_id@, option_id@, (r.0 as int, r.1)),
{
    let pf = personality_factor(player);
    match option {
        ResponseOption::Encourage | ResponseOption::PromiseTime | ResponseOption::WorkHarder => {
            let weights = build_response_band_weights(player, message_id, option_id);
            let roll = random_below_u32(rng, weights.total());
            let band = pick_response_band(&weights, roll);
            let r: (i8, EffectKey) = match option {
                ResponseOption::Encourage => match band {
                    ResponseOutcomeBand::StrongPositive => (8, EffectKey::EncouragePositive),
                    ResponseOutcomeBand::MildPositive => (4, EffectKey::EncouragePositive),
                    ResponseOutcomeBand::Neutral => (0, EffectKey::EncourageNegative),
                    ResponseOutcomeBand::MildNegative => (-2, EffectKey::EncourageNegative),
                    ResponseOutcomeBand::StrongNegative => (-5, EffectKey::EncourageNegative),
                },
                ResponseOption::PromiseTime => match band {
                    ResponseOutcomeBand::StrongPositive => (14, EffectKey::PromiseTime),
                    ResponseOutcomeBand::MildPositive => (10, EffectKey::PromiseTime),
                    ResponseOutcomeBand::Neutral => (4, EffectKey::PromiseTime),
                    ResponseOutcomeBand::MildNegative => (-2, EffectKey::PromiseTime),
                    ResponseOutcomeBand::StrongNegative => (-6, EffectKey::PromiseTime),
                },
                _ => match band {
                    ResponseOutcomeBand::StrongPositive => (6, EffectKey::WorkHarderPositive),
                    ResponseOutcomeBand::MildPositive => (2, EffectKey::WorkHarderPositive),
                    ResponseOutcomeBand::Neutral => (0, EffectKey::WorkHarderNegative),
                    ResponseOutcomeBand::MildNegative => (-5, EffectKey::WorkHarderNegative),
                    ResponseOutcomeBand::StrongNegative => (-10, EffectKey::WorkHarderNegative),
                },
            };
            assert(band_outcome(option, spec_pick_band(weights, roll as int)) == (r.0 as int, r.1));
            assert(is_banded(option));
            r
        },
        _ => {
            let (lo, hi) = direct_range(option);
            let d = random_i8_inclusive(rng, lo, hi);
            let r = direct_outcome(option, pf, d);
            assert(draw_outcome(option, pf as int, d as int) == (r.0 as int, r.1));
            r
        },
    }
}

/// Whether the action is a choice that offers `option_id`.
pub open spec fn offers_option(action: MessageAction, option_id: Seq<char>) -> bool {
    match action.action_type {
        ActionType::ChooseOption { options } => exists|i: int|
            0 <= i < options@.len() && (#[trigger] options@[i]).id@ == option_id,
        _ => false,
    }
}

/// Whether the player is on the club's books.
pub open spec fn in_club(p: ConversationPlayer, club: Seq<char>) -> bool {
    p.team_id matches Some(t) && t@ == club
}

/// Index `i` holds the first player with this ID who plays for the club.
pub open spec fn first_club_player_at(
    players: Seq<ConversationPlayer>,
    player_id: Seq<char>,
    club: Seq<char>,
    i: int,
) -> bool {
    &&& 0 <= i < players.len()
    &&& players[i].id@ == player_id && in_club(players[i], club)
    &&& forall|j: int| 0 <= j < i ==> !((#[trigger] players[j]).id@ == player_id && in_club(players[j], club))
}

/// Every rating of the morale profile is at most 100.
pub open spec fn profile_valid(p: ConversationPlayer) -> bool {
    &&& p.morale <= 100
    &&& p.manager_trust <= 100
    &&& p.composure <= 100
    &&& p.leadership <= 100
    &&& p.aggression <= 100
    &&& p.unresolved_issue matches Some(issue) ==> issue.severity <= 100
}

/// No two players share an ID.
pub open spec fn ids_unique(players: Seq<ConversationPlayer>) -> bool {
    forall|i: int, j: int| 0 <= i < j < players.len() ==> (#[trigger] players[i]).id@ != (#[trigger] players[j]).id@
}

/// How many players are on the club's books.
pub open spec fn club_count(players: Seq<ConversationPlayer>, club: Seq<char>) -> nat
    decreases players.len(),
{
    if players.len() == 0 {
        0
    } else {
        club_count(players.drop_last(), club) + if in_club(players.last(), club) {
            1nat
        } else {
            0nat
        }
    }
}

/// Why a response is refused before anything changes.
#[derive(Debug, Clone, Copy, PartialEq, Eq, Structural)]
pub enum ResponseFailure {
    Unavailable,
    AlreadyResolved,
    InvalidOption,
    InvalidProfile,
    InvalidRoster,
    Unsupported,
}

/// The outcome of the checks before a response: a refusal, or the index of the
/// player spoken to and the response chosen.
#[derive(Debug, Clone, Copy, PartialEq, Eq, Structural)]
pub enum ResponseCheck {
    Fails(ResponseFailure),
    Ready(usize, ResponseOption),
}

/// The checks, in order: the first action with the ID, that it is open, that it
/// offers the option, that the message names a player of the club, that the
/// player's profile is in range, that the roster fits and has unique IDs, and
/// that the family and option form a supported response.
pub open spec fn response_check(
    players: Seq<ConversationPlayer>,
    club: Seq<char>,
    message: InboxMessage,
    action_id: Seq<char>,
    option_id: Seq<char>,
) -> ResponseCheck {
    let actions = message.actions@;
    if !(exists|i: int| first_action_at(actions, action_id, i)) {
        ResponseCheck::Fails(ResponseFailure::Unavailable)
    } else {
        let action = actions[choose|i: int| first_action_at(actions, action_id, i)];
        if action.resolved {
            ResponseCheck::Fails(ResponseFailure::AlreadyResolved)
        } else if !offers_option(action, option_id) {
            ResponseCheck::Fails(ResponseFailure::InvalidOption)
        } else {
            match message.player_id {
                None => ResponseCheck::Fails(ResponseFailure::Unavailable),
                Some(pid) => if !(exists|k: int| first_club_player_at(players, pid@, club, k)) {
                    ResponseCheck::Fails(ResponseFailure::Unavailable)
                } else {
                    let k = choose|k: int| first_club_player_at(players, pid@, club, k);
                    if !profile_valid(players[k]) {
                        ResponseCheck::Fails(ResponseFailure::InvalidProfile)
                    } else if club_count(players, club) > 256 || !ids_unique(players) {
                        ResponseCheck::Fails(ResponseFailure::InvalidRoster)
                    } else {
                        match spec_option(message.id@, option_id) {
                            None => ResponseCheck::Fails(ResponseFailure::Unsupported),
                            Some(o) => ResponseCheck::Ready(k as usize, o),
                        }
                    }
                },
            }
        }
    }
}

proof fn lemma_first_action_unique(actions: Seq<MessageAction>, id: Seq<char>, i: int, j: int)
    requires
        first_action_at(actions, id, i),
        first_action_at(actions, id, j),
    ensures
        i == j,
{
    if i < j {
        assert(actions[i].id@ != id);
    } else if j < i {
        assert(actions[j].id@ != id);
    }
}

proof fn lemma_first_player_unique(
    players: Seq<ConversationPlayer>,
    pid: Seq<char>,
    club: Seq<char>,
    i: int,
    j: int,
)
    requires
        first_club_player_at(players, pid, club, i),
        first_club_player_at(players, pid, club, j),
    ensures
        i == j,
{
    if i < j {
        assert(!(players[i].id@ == pid && in_club(players[i], club)));
    } else if j < i {
        assert(!(players[j].id@ == pid && in_club(players[j], club)));
    }
}

fn offers(action: &MessageAction, option_id: &str) -> (r: bool)
    ensures
        r == offers_option(*action, option_id@),
{
    match &action.action_type {
        ActionType::ChooseOption { options } => {
            let mut i: usize = 0;
            while i < options.len()
                invariant
                    i <= options@.len(),
                    action.action_type == (ActionType::ChooseOption { options: *options }),
                    forall|j: int| 0 <= j < i ==> (#[trigger] options@[j]).id@ != option_id@,
                decreases options@.len() - i,
            {
                if str_eq(options[i].id.as_str(), option_id) {
                    assert((options@[i as int]).id@ == option_id@);
                    assert(action.action_type->options == *options);
                    return true;
                }
                i = i + 1;
            }
            false
        },
        _ => false,
    }
}

fn member_of(p: &ConversationPlayer, club: &str) -> (r: bool)
    ensures
        r == in_club(*p, club@),
{
    match &p.team_id {
        Some(t) => str_eq(t.as_str(), club),
        None => false,
    }
}

fn find_club_player(players: &Vec<ConversationPlayer>, pid: &str, club: &str) -> (r: Option<usize>)
    ensures
        match r {
            Some(k) => first_club_player_at(players@, pid@, club@, k as int),
            None => forall|k: int|
                0 <= k < players@.len() ==> !((#[trigger] players@[k]).id@ == pid@ && in_club(
                    players@[k],
                    club@,
                )),
        },
{
    let mut i: usize = 0;
    while i < players.len()
        invariant
            i <= players@.len(),
            forall|j: int|
                0 <= j < i ==> !((#[trigger] players@[j]).id@ == pid@ && in_club(players@[j], club@)),
        decreases players@.len() - i,
    {
        if str_eq(players[i].id.as_str(), pid) && member_of(&players[i], club) {
            return Some(i);
        }
        i = i + 1;
    }
    None
}

fn profile_ok(p: &ConversationPlayer) -> (r: bool)
    ensures
        r == profile_valid(*p),
{
    let issue_ok = match &p.unresolved_issue {
        Some(issue) => issue.severity <= 100,
        None => true,
    };
    p.morale <= 100 && p.manager_trust <= 100 && p.composure <= 100 && p.leadership <= 100
        && p.aggression <= 100 && issue_ok
}

proof fn lemma_club_count_step(players: Seq<ConversationPlayer>, club: Seq<char>, i: int)
    requires
        0 <= i < players.len(),
    ensures
        club_count(players.take(i + 1), club) == club_count(players.take(i), club) + if in_club(
            players[i],
            club,
        ) {
            1int
        } else {
            0int
        },
{
    assert(players.take(i + 1).drop_last() =~= players.take(i));
}

proof fn lemma_club_count_prefix(players: Seq<ConversationPlayer>, club: Seq<char>, i: int)
    requires
        0 <= i <= players.len(),
    ensures
        club_count(players.take(i), club) <= club_count(players, club),
        club_count(players, club) <= players.len(),
    decreases players.len() - i,
{
    if i < players.len() {
        lemma_club_count_step(players, club, i);
        lemma_club_count_prefix(players, club, i + 1);
    } else {
        assert(players.take(i) =~= players);
        lemma_club_count_bounded(players, club);
    }
}

proof fn lemma_club_count_bounded(players: Seq<ConversationPlayer>, club: Seq<char>)
    ensures
        club_count(players, club) <= players.len(),
    decreases players.len(),
{
    if players.len() > 0 {
        lemma_club_count_bounded(players.drop_last(), club);
    }
}

fn count_club(players: &Vec<ConversationPlayer>, club: &str) -> (r: usize)
    ensures
        r == club_count(players@, club@),
{
    let mut n: usize = 0;
    let mut i: usize = 0;
    while i < players.len()
        invariant
            i <= players@.len(),
            n == club_count(players@.take(i as int), club@),
            n <= i,
        decreases players@.len() - i,
    {
        proof {
            lemma_club_count_step(players@, club@, i as int);
        }
        if member_of(&players[i], club) {
            n = n + 1;
        }
        i = i + 1;
    }
    assert(players@.take(i as int) =~= players@);
    n
}

fn unique_ids(players: &Vec<ConversationPlayer>) -> (r: bool)
    ensures
        r == ids_unique(players@),
{
    let mut i: usize = 0;
    while i < players.len()
        invariant
            i <= players@.len(),
            forall|a: int, b: int|
                0 <= a < b < players@.len() && a < i ==> (#[trigger] players@[a]).id@ != (
                #[trigger] players@[b]).id@,
        decreases players@.len() - i,
    {
        let mut j: usize = i + 1;
        while j < players.len()
            invariant
                i < players@.len(),
                i + 1 <= j <= players@.len(),
                forall|a: int, b: int|
                    0 <= a < b < players@.len() && a < i ==> (#[trigger] players@[a]).id@ != (
                    #[trigger] players@[b]).id@,
                forall|b: int| i < b < j ==> players@[i as int].id@ != (#[trigger] players@[b]).id@,
            decreases players@.len() - j,
        {
            if str_eq(players[i].id.as_str(), players[j].id.as_str()) {
                assert(players@[i as int].id@ == players@[j as int].id@);
                return false;
            }
            j = j + 1;
        }
        i = i + 1;
    }
    true
}

/// The checks before a response, as `response_check` states them.
fn check_response(
    players: &Vec<ConversationPlayer>,
    club_id: &str,
    message: &InboxMessage,
    action_id: &str,
    option_id: &str,
) -> (r: Result<(usize, ResponseOption), ResponseFailure>)
    ensures
        match response_check(players@, club_id@, *message, action_id@, option_id@) {
            ResponseCheck::Fails(f) => r == Err::<(usize, ResponseOption), ResponseFailure>(f),
            ResponseCheck::Ready(k, o) => r == Ok::<(usize, ResponseOption), ResponseFailure>((k, o)),
        },
        r matches Ok((k, o)) ==> {
            &&& message.player_id is Some
            &&& first_club_player_at(players@, message.player_id->Some_0@, club_id@, k as int)
            &&& profile_valid(players@[k as int])
            &&& ids_unique(players@)
            &&& club_count(players@, club_id@) <= 256
            &&& spec_option(message.id@, option_id@) == Some(o)
        },
{
    let ai = match find_action(&message.actions, action_id) {
        None => {
            return Err(ResponseFailure::Unavailable);
        },
        Some(ai) => ai,
    };
    proof {
        let c = choose|i: int| first_action_at(message.actions@, action_id@, i);
        lemma_first_action_unique(message.actions@, action_id@, c, ai as int);
    }
    let action = &message.actions[ai];
    if action.resolved {
        return Err(ResponseFailure::AlreadyResolved);
    }
    if !offers(action, option_id) {
        return Err(ResponseFailure::InvalidOption);
    }
    let pid = match &message.player_id {
        None => {
            return Err(ResponseFailure::Unavailable);
        },
        Some(pid) => pid,
    };
    let k = match find_club_player(players, pid.as_str(), club_id) {
        None => {
            return Err(ResponseFailure::Unavailable);
        },
        Some(k) => k,
    };
    proof {
        let c = choose|j: int| first_club_player_at(players@, pid@, club_id@, j);
        lemma_first_player_unique(players@, pid@, club_id@, c, k as int);
    }
    if !profile_ok(&players[k]) {
        return Err(ResponseFailure::InvalidProfile);
    }
    if count_club(players, club_id) > 256 || !unique_ids(players) {
        return Err(ResponseFailure::InvalidRoster);
    }
    match response_option(message.id.as_str(), option_id) {
        None => Err(ResponseFailure::Unsupported),
        Some(o) => Ok((k, o)),
    }
}

/// The change a response makes to morale: the draw held to -20..=20, reduced for
/// repetition, capped by a grievance, and held to -20..=20 again.
pub open spec fn final_delta(p: ConversationPlayer, key: Seq<char>, drawn: int) -> int {
    clamp_int(
        spec_capped(spec_reduced(clamp_int(drawn, -20, 20), p.recent_treatment, key), p.unresolved_issue),
        -20,
        20,
    )
}

/// Renewal talks as they stand, or idle talks when none were held.
pub open spec fn renewal_base(s: Option<ContractRenewalState>) -> ContractRenewalState {
    match s {
        Some(s) => s,
        None => ContractRenewalState {
            status: RenewalSessionStatus::Idle,
            manager_blocked_until: None,
            last_outcome: None,
            exit_intent: None,
            last_attempt_date: None,
            conversation_round: 0,
        },
    }
}

/// Renewal talks after a response: reassurance opens them, a noncommittal answer
/// stalls them, and refusing renewal blocks them for sixty days and records that
/// the contract is to run out; other responses leave them alone.
pub open spec fn renewal_after(
    before: Option<ContractRenewalState>,
    after: Option<ContractRenewalState>,
    option: ResponseOption,
    today: Date,
) -> bool {
    let base = renewal_base(before);
    let later = today.day_number() + 60;
    match option {
        ResponseOption::Reassure => after == Some(
            ContractRenewalState {
                status: RenewalSessionStatus::Open,
                manager_blocked_until: None,
                last_outcome: Some(RenewalSessionOutcome::Stalled),
                ..base
            },
        ),
        ResponseOption::Noncommittal => after == Some(
            ContractRenewalState {
                status: RenewalSessionStatus::Stalled,
                last_outcome: Some(RenewalSessionOutcome::Stalled),
                ..base
            },
        ),
        ResponseOption::NoRenewal => {
            &&& after matches Some(s)
            &&& after->Some_0.status == RenewalSessionStatus::Blocked
            &&& after->Some_0.last_outcome == Some(RenewalSessionOutcome::BlockedByManager)
            &&& if day_number_in_range(later) {
                after->Some_0.manager_blocked_until matches Some(t) && t@ == ymd_text(later)
            } else {
                after->Some_0.manager_blocked_until is None
            }
            &&& after->Some_0.exit_intent matches Some(ContractExitIntent::LetExpire { set_on, reason })
            &&& after->Some_0.exit_intent->Some_0->LetExpire_set_on@ == ymd_text(today.day_number())
            &&& after->Some_0.exit_intent->Some_0->LetExpire_reason matches Some(x)
            &&& after->Some_0.exit_intent->Some_0->LetExpire_reason->Some_0@ == "manager_inbox_response"@
            &&& after->Some_0.last_attempt_date == base.last_attempt_date
            &&& after->Some_0.conversation_round == base.conversation_round
        },
        _ => after == before,
    }
}

/// The player spoken to, after a response whose draw was `drawn`.
pub open spec fn responded(
    p: ConversationPlayer,
    q: ConversationPlayer,
    option: ResponseOption,
    message_id: Seq<char>,
    option_id: Seq<char>,
    drawn: int,
    today: Date,
) -> bool {
    let key = spec_treatment_key(message_id, option_id);
    let promise = spec_implied_promise(message_id, option_id);
    &&& q.id == p.id
    &&& q.team_id == p.team_id
    &&& q.composure == p.composure
    &&& q.leadership == p.leadership
    &&& q.aggression == p.aggression
    &&& q.unresolved_issue == p.unresolved_issue
    &&& q.morale == clamp_int(p.morale + final_delta(p, key, drawn), 5, 100)
    &&& q.manager_trust == clamp_int(
        p.manager_trust + spec_trust_delta(spec_base_trust_delta(message_id, option_id), p.recent_treatment, key),
        0,
        100,
    )
    &&& q.recent_treatment matches Some(m) && (m.action_key@, m.times_recently_used as int)
        == spec_memory_after(p.recent_treatment, key)
    &&& q.pending_promise == if promise is Some { promise } else { p.pending_promise }
    &&& q.talk_cooldown_until matches Some(c) && c@ == ymd_text(today.day_number())
    &&& renewal_after(p.renewal_state, q.renewal_state, option, today)
}

fn clamp_i16(v: i16, lo: i16, hi: i16) -> (r: i16)
    requires
        lo <= hi,
    ensures
        r == clamp_int(v as int, lo as int, hi as int),
{
    if v < lo { lo } else if v > hi { hi } else { v }
}

/// Apply a response to the player spoken to; returns the morale change made.
fn respond(
    player: &mut ConversationPlayer,
    option: ResponseOption,
    message_id: &str,
    option_id: &str,
    drawn: i8,
    today: Date,
) -> (delta: i8)
    requires
        spec_option(message_id@, option_id@) == Some(option),
    ensures
        responded(*old(player), *final(player), option, message_id@, option_id@, drawn as int, today),
        delta == final_delta(*old(player), spec_treatment_key(message_id@, option_id@), drawn as int),
{
    let key = treatment_key(message_id, option_id);
    let today_text = today.format_ymd();
    let clamped = clamp_i16(drawn as i16, -20, 20) as i8;
    let reduced = reduced_by_recent_treatment(clamped, player, key.as_str());
    let capped = capped_by_unresolved_issue(reduced, player);
    let delta = clamp_i16(capped as i16, -20, 20) as i8;
    let trust_delta = trust_delta_with_memory(base_trust_delta(message_id, option_id), player, key.as_str());
    player.morale = clamp_i16(player.morale as i16 + delta as i16, 5, 100) as u8;
    player.manager_trust = clamp_i16(player.manager_trust as i16 + trust_delta, 0, 100) as u8;
    update_recent_treatment(player, key.as_str());
    match implied_promise(message_id, option_id) {
        Some(promise) => {
            player.pending_promise = Some(promise);
        },
        None => {},
    }
    if should_apply_talk_cooldown(message_id) {
        player.talk_cooldown_until = Some(today_text.clone());
    }
    match option {
        ResponseOption::Reassure | ResponseOption::Noncommittal | ResponseOption::NoRenewal => {
            let mut state = match player.renewal_state.take() {
                Some(state) => state,
                None => ContractRenewalState {
                    status: RenewalSessionStatus::Idle,
                    manager_blocked_until: None,
                    last_outcome: None,
                    exit_intent: None,
                    last_attempt_date: None,
                    conversation_round: 0,
                },
            };
            if option == ResponseOption::Reassure {
                state.status = RenewalSessionStatus::Open;
                state.manager_blocked_until = None;
                state.last_outcome = Some(RenewalSessionOutcome::Stalled);
            } else if option == ResponseOption::Noncommittal {
                state.status = RenewalSessionStatus::Stalled;
                state.last_outcome = Some(RenewalSessionOutcome::Stalled);
            } else {
                let blocked_until = match today.checked_add_days(60) {
                    Some(day) => Some(day.format_ymd()),
                    None => None,
                };
                state.status = RenewalSessionStatus::Blocked;
                state.manager_blocked_until = blocked_until;
                state.last_outcome = Some(RenewalSessionOutcome::BlockedByManager);
                state.exit_intent = Some(
                    ContractExitIntent::LetExpire {
                        set_on: today_text,
                        reason: Some(String::from_str("manager_inbox_response")),
                    },
                );
            }
            player.renewal_state = Some(state);
        },
        _ => {},
    }
    delta
}

/// Morale after a loss, held to 10..=100.
pub open spec fn morale_after_loss(morale: int, loss: int) -> int {
    clamp_int(morale - loss, 10, 100)
}

/// A teammate after the dressing room hears the news: one who is `hit` loses two
/// to five morale points, not below ten; anyone else is unchanged.
pub open spec fn teammate_after(p: ConversationPlayer, q: ConversationPlayer, hit: bool) -> bool {
    if hit {
        exists|loss: int|
            2 <= loss <= 5 && q == (ConversationPlayer {
                morale: #[trigger] morale_after_loss(p.morale as int, loss) as u8,
                ..p
            })
    } else {
        q == p
    }
}

proof fn lemma_club_count_prefixes(players: Seq<ConversationPlayer>, club: Seq<char>, a: int, b: int)
    requires
        0 <= a <= b <= players.len(),
    ensures
        club_count(players.take(a), club) <= club_count(players.take(b), club),
{
    assert(players.take(b).take(a) =~= players.take(a));
    lemma_club_count_prefix(players.take(b), club, a);
}

/// Refusing renewal reaches the dressing room: every other player of the club
/// loses morale. Returns how many were affected.
fn dressing_room(
    players: &mut Vec<ConversationPlayer>,
    k: usize,
    player_id: &str,
    club_id: &str,
    rng: &mut rand::rngs::StdRng,
) -> (affected: u8)
    requires
        k < old(players)@.len(),
        old(players)@[k as int].id@ == player_id@,
        in_club(old(players)@[k as int], club_id@),
        ids_unique(old(players)@),
        club_count(old(players)@, club_id@) <= 256,
    ensures
        final(players)@.len() == old(players)@.len(),
        final(players)@[k as int] == old(players)@[k as int],
        affected == club_count(old(players)@, club_id@) - 1,
        forall|j: int|
            0 <= j < old(players)@.len() && j != k ==> teammate_after(
                old(players)@[j],
                #[trigger] final(players)@[j],
                in_club(old(players)@[j], club_id@),
            ),
{
    let ghost before = players@;
    let mut affected: u8 = 0;
    let mut i: usize = 0;
    while i < players.len()
        invariant
            players@.len() == before.len(),
            i <= before.len(),
            k < before.len(),
            before[k as int].id@ == player_id@,
            in_club(before[k as int], club_id@),
            ids_unique(before),
            club_count(before, club_id@) <= 256,
            forall|j: int| 0 <= j < before.len() && (j >= i || j == k) ==> players@[j] == before[j],
            forall|j: int|
                0 <= j < i && j != k ==> teammate_after(
                    before[j],
                    #[trigger] players@[j],
                    in_club(before[j], club_id@),
                ),
            affected == club_count(before.take(i as int), club_id@) - if k < i {
                1int
            } else {
                0int
            },
        decreases before.len() - i,
    {
        proof {
            lemma_club_count_step(before, club_id@, i as int);
            lemma_club_count_prefix(before, club_id@, i as int + 1);
            if k < i {
                lemma_club_count_step(before, club_id@, k as int);
                lemma_club_count_prefixes(before, club_id@, k as int + 1, i as int);
            } else if k > i {
                lemma_club_count_step(before, club_id@, k as int);
                lemma_club_count_prefixes(before, club_id@, i as int + 1, k as int);
                lemma_club_count_prefix(before, club_id@, k as int + 1);
            }
        }
        let same = str_eq(players[i].id.as_str(), player_id);
        proof {
            if i != k {
                assert(before[i as int].id@ != before[k as int].id@);
            }
        }
        if !same && member_of(&players[i], club_id) {
            let loss = random_i32_inclusive(rng, 2, 5);
            let m: i32 = players[i].morale as i32 - loss;
            let v: u8 = if m < 10 {
                10
            } else if m > 100 {
                100
            } else {
                m as u8
            };
            players[i].morale = v;
            assert(teammate_after(before[i as int], players@[i as int], true)) by {
                assert(players@[i as int] == (ConversationPlayer {
                    morale: morale_after_loss(before[i as int].morale as int, loss as int) as u8,
                    ..before[i as int]
                }));
            }
            affected = affected + 1;
        }
        i = i + 1;
    }
    assert(before.take(i as int) =~= before);
    affected
}

/// How a refused response is reported.
pub open spec fn failure_reported(r: Result<EffectReceipt, InboxError>, f: ResponseFailure) -> bool {
    match f {
        ResponseFailure::Unavailable => r == Err::<EffectReceipt, InboxError>(InboxError::Unavailable),
        ResponseFailure::AlreadyResolved => r == Err::<EffectReceipt, InboxError>(InboxError::AlreadyResolved),
        ResponseFailure::InvalidOption => r == Err::<EffectReceipt, InboxError>(InboxError::InvalidOption),
        ResponseFailure::InvalidProfile => r matches Err(InboxError::Effect(m)) && m@
            == "Invalid source player morale profile"@,
        ResponseFailure::InvalidRoster => r matches Err(InboxError::Effect(m)) && m@
            == "Invalid source player roster"@,
        ResponseFailure::Unsupported => r == Err::<EffectReceipt, InboxError>(InboxError::UnsupportedAction),
    }
}

fn failure_error(f: ResponseFailure) -> (e: InboxError)
    ensures
        failure_reported(Err(e), f),
{
    match f {
        ResponseFailure::Unavailable => InboxError::Unavailable,
        ResponseFailure::AlreadyResolved => InboxError::AlreadyResolved,
        ResponseFailure::InvalidOption => InboxError::InvalidOption,
        ResponseFailure::InvalidProfile => InboxError::Effect(
            String::from_str("Invalid source player morale profile"),
        ),
        ResponseFailure::InvalidRoster => InboxError::Effect(String::from_str("Invalid source player roster")),
        ResponseFailure::Unsupported => InboxError::UnsupportedAction,
    }
}

/// The receipt of a response: its message key, then its parameters in key order,
/// the number of teammates affected (when any) and the signed morale change.
pub open spec fn receipt_shows(receipt: EffectReceipt, key: EffectKey, delta: int, affected: int) -> bool {
    let params = receipt.i18n_params@;
    &&& receipt.i18n_key@ == effect_key_text(key)
    &&& if affected > 0 {
        &&& params.len() == 2
        &&& params[0].0@ == "affected"@
        &&& params[0].1@ == decimal_text(affected as nat)
        &&& params[1].0@ == "delta"@
        &&& params[1].1@ == signed_text(delta)
    } else {
        &&& params.len() == 1
        &&& params[0].0@ == "delta"@
        &&& params[0].1@ == signed_text(delta)
    }
}

/// The roster and the receipt after an accepted response to the player at `k`:
/// some outcome the rules can draw was applied to that player, teammates reacted
/// to a refused renewal, and nobody else changed.
pub open spec fn response_applied(
    before: Seq<ConversationPlayer>,
    after: Seq<ConversationPlayer>,
    k: int,
    option: ResponseOption,
    club: Seq<char>,
    message_id: Seq<char>,
    option_id: Seq<char>,
    today: Date,
    r: Result<EffectReceipt, InboxError>,
) -> bool {
    let renewal_refused = option == ResponseOption::NoRenewal;
    let affected = if renewal_refused { club_count(before, club) - 1 } else { 0 };
    let key = spec_treatment_key(message_id, option_id);
    &&& after.len() == before.len()
    &&& r is Ok
    &&& exists|drawn: (int, EffectKey)|
        #![trigger possible_draw(option, before[k], message_id, option_id, drawn)]
        possible_draw(option, before[k], message_id, option_id, drawn) && responded(
            before[k],
            after[k],
            option,
            message_id,
            option_id,
            drawn.0,
            today,
        ) && receipt_shows(
            r->Ok_0,
            if renewal_refused && affected > 0 {
                EffectKey::NoRenewalWithDressingRoom
            } else {
                drawn.1
            },
            final_delta(before[k], key, drawn.0),
            affected,
        )
    &&& forall|j: int|
        0 <= j < before.len() && j != k ==> teammate_after(
            before[j],
            #[trigger] after[j],
            renewal_refused && in_club(before[j], club),
        )
}

/// Apply a manager's answer to a player conversation: check the message action
/// and option, that the player is the club's, that the morale profile and the
/// roster are sound, and that the answer is one of the four families' supported
/// responses; then draw the outcome and change the player (and, on a refused
/// renewal, the dressing room).
pub fn apply_player_response(
    players: &mut Vec<ConversationPlayer>,
    club_id: &str,
    message: &InboxMessage,
    action_id: &str,
    option_id: &str,
    today: Date,
    rng: &mut rand::rngs::StdRng,
) -> (r: Result<EffectReceipt, InboxError>)
    ensures
        match response_check(old(players)@, club_id@, *message, action_id@, option_id@) {
            ResponseCheck::Fails(f) => failure_reported(r, f) && final(players)@ == old(players)@ && *final(rng)
                == *old(rng),
            ResponseCheck::Ready(k, option) => response_applied(
                old(players)@,
                final(players)@,
                k as int,
                option,
                club_id@,
                message.id@,
                option_id@,
                today,
                r,
            ),
        },
{
    let (k, option) = match check_response(players, club_id, message, action_id, option_id) {
        Err(f) => {
            return Err(failure_error(f));
        },
        Ok(found) => found,
    };
    let ghost before = players@;
    let drawn = draw_response(rng, option, &players[k], message.id.as_str(), option_id);
    let player_id = players[k].id.clone();
    let delta = respond(&mut players[k], option, message.id.as_str(), option_id, drawn.0, today);
    assert(players@ == before.update(k as int, players@[k as int]));
    let affected: u8 = if option == ResponseOption::NoRenewal {
        let ghost mid = players@;
        assert(ids_unique(mid)) by {
            assert forall|a: int, b: int| 0 <= a < b < mid.len() implies (#[trigger] mid[a]).id@ != (#[trigger] mid[b]).id@ by {
                assert(before[a].id@ != before[b].id@);
            }
        }
        assert(club_count(mid, club_id@) == club_count(before, club_id@)) by {
            lemma_club_count_same(before, mid, club_id@);
        }
        dressing_room(players, k, player_id.as_str(), club_id, rng)
    } else {
        0
    };
    let key = if option == ResponseOption::NoRenewal && affected > 0 {
        EffectKey::NoRenewalWithDressingRoom
    } else {
        drawn.1
    };
    let mut params: Vec<(String, String)> = Vec::new();
    if affected > 0 {
        let mut count = String::new();
        append_decimal(&mut count, affected as u64);
        params.push((String::from_str("affected"), count));
    }
    params.push((String::from_str("delta"), signed_delta(delta)));
    let receipt = EffectReceipt { i18n_key: effect_key_string(key), i18n_params: params };
    assert(possible_draw(option, before[k as int], message.id@, option_id@, (drawn.0 as int, drawn.1)));
    Ok(receipt)
}

/// Club membership is the same in two rosters that agree on every player's club.
proof fn lemma_club_count_same(a: Seq<ConversationPlayer>, b: Seq<ConversationPlayer>, club: Seq<char>)
    requires
        a.len() == b.len(),
        forall|i: int| 0 <= i < a.len() ==> (#[trigger] a[i]).team_id == b[i].team_id,
    ensures
        club_count(a, club) == club_count(b, club),
    decreases a.len(),
{
    if a.len() > 0 {
        lemma_club_count_same(a.drop_last(), b.drop_last(), club);
    }
}

} // verus!
