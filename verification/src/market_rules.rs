//! Transfer-market rules: how open a player is to a move, the consequences of a
//! blocked move, loan wage shares, fee rounding, and the transfer window.
use vstd::prelude::*;
use crate::dates::{Date, parsed_date, parsed_ymd, date_text, months_later};
use crate::text::str_eq;

verus! {

#[derive(Debug, Clone, Copy, PartialEq, Eq, Structural)]
pub enum PlayerIssueCategory {
    Contract,
    /// Any other kind of grievance.
    Other,
}

/// An unresolved grievance and how severe it is (0..=100).
#[derive(Debug, Clone, Copy, PartialEq, Eq, Structural)]
pub struct PlayerIssue {
    pub category: PlayerIssueCategory,
    pub severity: u8,
}

/// The player attributes the market rules read or change.
#[derive(Debug, Clone, PartialEq, Eq)]
pub struct MarketPlayer {
    pub id: String,
    pub market_value: u64,
    pub wage: u32,
    pub morale: u8,
    pub manager_trust: u8,
    pub unresolved_issue: Option<PlayerIssue>,
    pub appearances: u32,
    pub contract_end: Option<String>,
    pub transfer_listed: bool,
    pub loan_listed: bool,
    pub ovr: u8,
    pub potential: u8,
}

/// The club attributes the market rules read.
#[derive(Debug, Clone, PartialEq, Eq)]
pub struct MarketTeam {
    pub starting_xi_ids: Vec<String>,
    pub reputation: u32,
    pub finance: i64,
}

#[derive(Debug, Clone, Copy, PartialEq, Eq, Structural)]
pub enum PlayerImportance {
    Key,
    Regular,
    Fringe,
}

/// Days from `today` to a `%Y-%m-%d` contract end, if there is one that parses.
pub open spec fn spec_contract_days(today: Date, contract_end: Option<String>) -> Option<int> {
    match contract_end {
        None => None,
        Some(text) => match parsed_ymd(text@) {
            Some(end) => Some(end - today.day_number()),
            None => None,
        },
    }
}

/// Days from `today` to a `%Y-%m-%d` contract end, if there is one that parses.
pub fn contract_days_remaining(today: Date, contract_end: &Option<String>) -> (r: Option<i64>)
    ensures
        match r {
            Some(v) => spec_contract_days(today, *contract_end) == Some(v as int),
            None => spec_contract_days(today, *contract_end) is None,
        },
{
    match contract_end {
        None => None,
        Some(text) => match Date::parse_ymd(text.as_str()) {
            Some(end) => Some(end.days_since(today)),
            None => None,
        },
    }
}

pub open spec fn in_starting_xi(player: MarketPlayer, team: MarketTeam) -> bool {
    exists|i: int| 0 <= i < team.starting_xi_ids@.len() && (#[trigger] team.starting_xi_ids@[i])@ == player.id@
}

fn starts(player: &MarketPlayer, team: &MarketTeam) -> (r: bool)
    ensures
        r == in_starting_xi(*player, *team),
{
    let ids = &team.starting_xi_ids;
    for i in 0..ids.len()
        invariant
            ids@ == team.starting_xi_ids@,
            forall|k: int| 0 <= k < i ==> (#[trigger] ids@[k])@ != player.id@,
    {
        if str_eq(ids[i].as_str(), player.id.as_str()) {
            return true;
        }
    }
    false
}

/// Key if the owner starts the player, regular from a 1.5M market value, else fringe.
pub open spec fn spec_importance(player: MarketPlayer, owner: MarketTeam) -> PlayerImportance {
    if in_starting_xi(player, owner) {
        PlayerImportance::Key
    } else if player.market_value >= 1_500_000 {
        PlayerImportance::Regular
    } else {
        PlayerImportance::Fringe
    }
}

pub fn infer_player_importance(player: &MarketPlayer, owner_team: &MarketTeam) -> (r: PlayerImportance)
    ensures
        r == spec_importance(*player, *owner_team),
{
    if starts(player, owner_team) {
        PlayerImportance::Key
    } else if player.market_value >= 1_500_000 {
        PlayerImportance::Regular
    } else {
        PlayerImportance::Fringe
    }
}

/// How open a player is to a move: low morale, few appearances, a contract
/// ending within a year, a much more reputable buyer, and being listed all add.
pub open spec fn spec_openness(today: Date, player: MarketPlayer, owner: MarketTeam, buyer: MarketTeam) -> int {
    let morale = if player.morale <= 45 { 20int } else if player.morale <= 60 { 10 } else { 0 };
    let apps = if player.appearances <= 2 { 15int } else if player.appearances <= 5 { 8 } else { 0 };
    let contract = match spec_contract_days(today, player.contract_end) {
        Some(d) => if d <= 180 { 20int } else if d <= 365 { 10 } else { 0 },
        None => 0,
    };
    let gap = buyer.reputation as i32 - owner.reputation as i32;
    let reputation = if gap >= 200 { 25int } else if gap >= 75 { 15 } else { 0 };
    let listed = if player.transfer_listed { 10int } else { 0 };
    morale + apps + contract + reputation + listed
}

/// The openness score adds up five independent factors. Measured against the
/// same player with high morale (over 60), many appearances (over 5), no
/// contract end, not listed, and a buyer no more reputable than his club,
/// which scores 0: morale of at most 45 adds 20 and of 46 to 60 adds 10; at
/// most 2 appearances add 15 and 3 to 5 add 8; a contract ending within 180
/// days adds 20 and within a year 10; a buyer at least 200 reputation points
/// above the club adds 25 and 75 to 199 above adds 15; being transfer-listed
/// adds 10.
pub proof fn lemma_openness_factors(today: Date, p: MarketPlayer, owner: MarketTeam, buyer: MarketTeam)
    requires
        p.morale > 60,
        p.appearances > 5,
        p.contract_end is None,
        !p.transfer_listed,
        buyer.reputation <= owner.reputation,
        owner.reputation <= i32::MAX,
    ensures
        spec_openness(today, p, owner, buyer) == 0,
        spec_openness(today, MarketPlayer { transfer_listed: true, ..p }, owner, buyer) == 10,
        spec_openness(today, MarketPlayer { morale: 45, ..p }, owner, buyer) == 20,
        spec_openness(today, MarketPlayer { morale: 0, ..p }, owner, buyer) == 20,
        spec_openness(today, MarketPlayer { morale: 46, ..p }, owner, buyer) == 10,
        spec_openness(today, MarketPlayer { morale: 60, ..p }, owner, buyer) == 10,
        spec_openness(today, MarketPlayer { morale: 61, ..p }, owner, buyer) == 0,
        spec_openness(today, MarketPlayer { appearances: 0, ..p }, owner, buyer) == 15,
        spec_openness(today, MarketPlayer { appearances: 2, ..p }, owner, buyer) == 15,
        spec_openness(today, MarketPlayer { appearances: 3, ..p }, owner, buyer) == 8,
        spec_openness(today, MarketPlayer { appearances: 5, ..p }, owner, buyer) == 8,
        spec_openness(today, MarketPlayer { appearances: 6, ..p }, owner, buyer) == 0,
        forall|text: String|
            parsed_ymd(text@) matches Some(end) && end - today.day_number() <= 180 ==> spec_openness(
                today,
                MarketPlayer { contract_end: Some(text), ..p },
                owner,
                buyer,
            ) == 20,
        forall|text: String|
            parsed_ymd(text@) matches Some(end) && 180 < end - today.day_number() <= 365 ==> spec_openness(
                today,
                MarketPlayer { contract_end: Some(text), ..p },
                owner,
                buyer,
            ) == 10,
        forall|text: String|
            (parsed_ymd(text@) matches Some(end) && end - today.day_number() > 365) || parsed_ymd(text@) is None
                ==> spec_openness(today, MarketPlayer { contract_end: Some(text), ..p }, owner, buyer) == 0,
        owner.reputation + 200 <= i32::MAX ==> spec_openness(
            today,
            p,
            owner,
            MarketTeam { reputation: (owner.reputation + 200) as u32, ..buyer },
        ) == 25,
        owner.reputation + 199 <= i32::MAX ==> spec_openness(
            today,
            p,
            owner,
            MarketTeam { reputation: (owner.reputation + 75) as u32, ..buyer },
        ) == 15 && spec_openness(
            today,
            p,
            owner,
            MarketTeam { reputation: (owner.reputation + 199) as u32, ..buyer },
        ) == 15 && spec_openness(
            today,
            p,
            owner,
            MarketTeam { reputation: (owner.reputation + 74) as u32, ..buyer },
        ) == 0,
{
}

/// A rejected move upsets a player only from an openness of 40: below it
/// nothing changes; from 40 his morale drops by 6 (by 10 from 60) and his
/// trust in the manager by 5, neither below 0, and he holds a contract
/// grievance of severity 60 (75 from 60).
pub proof fn lemma_blocked_move_reaction(p: MarketPlayer, score: int)
    requires
        p.morale <= 100,
        p.manager_trust <= 100,
    ensures
        score < 40 ==> spec_blocked(p, score) == p,
        score >= 40 ==> {
            let q = spec_blocked(p, score);
            let drop = if score >= 60 {
                10int
            } else {
                6
            };
            &&& q.morale == if p.morale >= drop {
                p.morale - drop
            } else {
                0
            }
            &&& q.manager_trust == if p.manager_trust >= 5 {
                p.manager_trust - 5
            } else {
                0
            }
            &&& q.unresolved_issue == Some(
                PlayerIssue {
                    category: PlayerIssueCategory::Contract,
                    severity: if score >= 60 {
                        75
                    } else {
                        60
                    },
                },
            )
            &&& q == (MarketPlayer {
                morale: q.morale,
                manager_trust: q.manager_trust,
                unresolved_issue: q.unresolved_issue,
                ..p
            })
        },
{
}

/// Being transfer-listed adds exactly 10 to a player's openness, whatever else
/// holds.
pub proof fn lemma_openness_listed(today: Date, p: MarketPlayer, owner: MarketTeam, buyer: MarketTeam)
    ensures
        spec_openness(today, MarketPlayer { transfer_listed: true, ..p }, owner, buyer) == spec_openness(
            today,
            MarketPlayer { transfer_listed: false, ..p },
            owner,
            buyer,
        ) + 10,
{
}

pub fn player_move_openness_score(today: Date, player: &MarketPlayer, owner_team: &MarketTeam, buyer_team: &MarketTeam) -> (r: i32)
    ensures
        r == spec_openness(today, *player, *owner_team, *buyer_team),
{
    let mut score: i32 = 0;
    if player.morale <= 45 {
        score = score + 20;
    } else if player.morale <= 60 {
        score = score + 10;
    }
    if player.appearances <= 2 {
        score = score + 15;
    } else if player.appearances <= 5 {
        score = score + 8;
    }
    match contract_days_remaining(today, &player.contract_end) {
        Some(d) => {
            if d <= 180 {
                score = score + 20;
            } else if d <= 365 {
                score = score + 10;
            }
        },
        None => {},
    }
    let gap: i64 = (buyer_team.reputation as i32) as i64 - (owner_team.reputation as i32) as i64;
    if gap >= 200 {
        score = score + 25;
    } else if gap >= 75 {
        score = score + 15;
    }
    if player.transfer_listed {
        score = score + 10;
    }
    score
}

pub open spec fn clamp_int(v: int, lo: int, hi: int) -> int {
    if v < lo { lo } else if v > hi { hi } else { v }
}

/// A player open to a move (score 40 or more) who is blocked loses morale
/// (10 from 60 up, else 6) and 5 trust, and gains a contract grievance (75 or 60).
pub open spec fn spec_blocked(player: MarketPlayer, score: int) -> MarketPlayer {
    if score < 40 {
        player
    } else {
        MarketPlayer {
            morale: clamp_int(player.morale - (if score >= 60 { 10int } else { 6 }), 0, 100) as u8,
            manager_trust: clamp_int(player.manager_trust - 5, 0, 100) as u8,
            unresolved_issue: Some(PlayerIssue {
                category: PlayerIssueCategory::Contract,
                severity: if score >= 60 { 75 } else { 60 },
            }),
            ..player
        }
    }
}

pub fn apply_blocked_move_consequences(player: &mut MarketPlayer, openness_score: i32)
    ensures
        *final(player) == spec_blocked(*old(player), openness_score as int),
{
    if openness_score < 40 {
        return;
    }
    let drop: i16 = if openness_score >= 60 { 10 } else { 6 };
    let morale: i16 = player.morale as i16 - drop;
    player.morale = if morale < 0 { 0 } else if morale > 100 { 100 } else { morale as u8 };
    let trust: i16 = player.manager_trust as i16 - 5;
    player.manager_trust = if trust < 0 { 0 } else if trust > 100 { 100 } else { trust as u8 };
    player.unresolved_issue = Some(PlayerIssue {
        category: PlayerIssueCategory::Contract,
        severity: if openness_score >= 60 { 75 } else { 60 },
    });
}

pub open spec fn sat_add_u8(a: int, b: int) -> int {
    if a + b > 255 { 255 } else { a + b }
}

/// The smallest wage share a lender accepts: 90% for a starter; 50% for a rarely
/// used or still-developing player; 75% from overall 72; else 60%.
pub open spec fn spec_min_loan_share(player: MarketPlayer, owner: MarketTeam) -> int {
    if in_starting_xi(player, owner) {
        90
    } else if player.appearances <= 5 || player.potential >= sat_add_u8(player.ovr as int, 8) {
        50
    } else if player.ovr >= 72 {
        75
    } else {
        60
    }
}

pub fn minimum_loan_wage_contribution_pct(player: &MarketPlayer, owner_team: &MarketTeam) -> (r: u8)
    ensures
        r == spec_min_loan_share(*player, *owner_team),
{
    if starts(player, owner_team) {
        return 90;
    }
    if player.appearances <= 5 || player.potential >= player.ovr.saturating_add(8) {
        50
    } else if player.ovr >= 72 {
        75
    } else {
        60
    }
}

/// The highest wage share a borrower accepts: the offered share plus a premium for
/// prospects and quality, a rich borrower, and a modest wage, capped at 100.
pub open spec fn spec_borrower_ceiling(player: MarketPlayer, borrower: MarketTeam, offered: int) -> int {
    let premium = if player.potential >= sat_add_u8(player.ovr as int, 10) {
        30int
    } else if player.ovr >= 72 {
        24
    } else if player.potential >= sat_add_u8(player.ovr as int, 6) {
        20
    } else {
        14
    };
    let rich = if borrower.finance >= 5_000_000 { 8int } else { 0 };
    let cheap = if player.wage <= 750_000 { 6int } else { 0 };
    clamp_int(offered + premium + rich + cheap, offered, 100)
}

pub fn loan_borrower_wage_ceiling(player: &MarketPlayer, borrower_team: &MarketTeam, offered_wage_contribution_pct: u8) -> (r: u8)
    requires
        offered_wage_contribution_pct <= 100,
    ensures
        r == spec_borrower_ceiling(*player, *borrower_team, offered_wage_contribution_pct as int),
{
    let mut ceiling: i16 = offered_wage_contribution_pct as i16;
    if player.potential >= player.ovr.saturating_add(10) {
        ceiling = ceiling + 30;
    } else if player.ovr >= 72 {
        ceiling = ceiling + 24;
    } else if player.potential >= player.ovr.saturating_add(6) {
        ceiling = ceiling + 20;
    } else {
        ceiling = ceiling + 14;
    }
    if borrower_team.finance >= 5_000_000 {
        ceiling = ceiling + 8;
    }
    if player.wage <= 750_000 {
        ceiling = ceiling + 6;
    }
    let lo: i16 = offered_wage_contribution_pct as i16;
    let c: i16 = if ceiling < lo { lo } else if ceiling > 100 { 100 } else { ceiling };
    c as u8
}

/// Fees round up to a multiple of 50,000 (saturating at the top of `u64`).
pub open spec fn spec_round_fee(value: int) -> int {
    let units = (value + 49_999) / 50_000;
    if units * 50_000 > u64::MAX { u64::MAX as int } else { units * 50_000 }
}

pub fn round_transfer_fee(value: u64) -> (r: u64)
    ensures
        r == spec_round_fee(value as int),
{
    let units: u64 = value / 50_000 + if value % 50_000 == 0 { 0 } else { 1 };
    match units.checked_mul(50_000) {
        Some(v) => v,
        None => u64::MAX,
    }
}


#[derive(Debug, Clone, Copy, PartialEq, Eq, Structural)]
pub enum TransferWindowStatus {
    Closed,
    Open,
    DeadlineDay,
}

/// Where the transfer window stands on a day.
#[derive(Debug, Clone, PartialEq, Eq)]
pub struct TransferWindowContext {
    pub status: TransferWindowStatus,
    pub opens_on: Option<String>,
    pub closes_on: Option<String>,
    pub days_until_opens: Option<i64>,
    pub days_remaining: Option<i64>,
}

impl Default for TransferWindowContext {
    /// No season calendar: closed, with no dates.
    fn default() -> (r: Self)
        ensures
            r.status == TransferWindowStatus::Closed,
            r.opens_on is None,
            r.closes_on is None,
            r.days_until_opens is None,
            r.days_remaining is None,
    {
        TransferWindowContext {
            status: TransferWindowStatus::Closed,
            opens_on: None,
            closes_on: None,
            days_until_opens: None,
            days_remaining: None,
        }
    }
}

/// The window around an anchor: 30 days either side of the season start.
pub open spec fn window_of(anchor: int) -> (int, int) {
    (anchor - 30, anchor + 30)
}

/// The anchor after `k` yearly advances, as long as each advance is representable.
pub open spec fn anchor_after(start: int, k: nat) -> Option<int>
    decreases k,
{
    if k == 0 {
        Some(start)
    } else {
        match anchor_after(start, (k - 1) as nat) {
            Some(a) => months_later(a, 12),
            None => None,
        }
    }
}

/// The window's status and counters on `today`, given the window dates.
pub open spec fn window_report(today: int, opens: int, closes: int, ctx: TransferWindowContext) -> bool {
    &&& ctx.opens_on matches Some(o) && o@ == date_text(opens)
    &&& ctx.closes_on matches Some(c) && c@ == date_text(closes)
    &&& if today < opens {
        &&& ctx.status == TransferWindowStatus::Closed
        &&& ctx.days_until_opens == Some((opens - today) as i64)
        &&& ctx.days_remaining is None
    } else {
        &&& ctx.status == (if closes - today == 0 {
            TransferWindowStatus::DeadlineDay
        } else {
            TransferWindowStatus::Open
        })
        &&& ctx.days_until_opens is None
        &&& ctx.days_remaining == Some((closes - today) as i64)
    }
}

/// Every earlier yearly window (before the `k`-th advance) closed before `today`.
pub open spec fn earlier_windows_closed(start: int, k: nat, today: int) -> bool {
    forall|j: nat|
        j < k ==> (#[trigger] anchor_after(start, j)) is Some && anchor_after(start, j)->0 + 30 < today
}

/// The transfer window for `today`: the yearly window (30 days before to 30 days
/// after the season start, advanced a year at a time) that has not yet closed.
/// Without a season start the window is closed and undated.
pub fn window(today: Date, season_start: Option<Date>) -> (r: Result<TransferWindowContext, String>)
    ensures
        season_start is None ==> (r matches Ok(ctx) && ctx.status == TransferWindowStatus::Closed
            && ctx.opens_on is None && ctx.closes_on is None),
        season_start is Some && r is Ok ==> exists|k: nat|
            #![trigger anchor_after(season_start->0.day_number(), k)]
            anchor_after(season_start->0.day_number(), k) is Some && earlier_windows_closed(
                season_start->0.day_number(),
                k,
                today.day_number(),
            ) && today.day_number() <= anchor_after(season_start->0.day_number(), k)->0 + 30
                && window_report(
                today.day_number(),
                anchor_after(season_start->0.day_number(), k)->0 - 30,
                anchor_after(season_start->0.day_number(), k)->0 + 30,
                r->Ok_0,
            ),
{
    let mut anchor = match season_start {
        None => return Ok(TransferWindowContext::default()),
        Some(d) => d,
    };
    let ghost start = anchor.day_number();
    let ghost mut k: nat = 0;
    let mut opens = anchor;
    let mut closes = anchor;
    loop
        invariant_except_break
            season_start is Some,
            season_start->0.day_number() == start,
            anchor_after(start, k) == Some(anchor.day_number()),
            earlier_windows_closed(start, k, today.day_number()),
        ensures
            season_start->0.day_number() == start,
            anchor_after(start, k) == Some(anchor.day_number()),
            earlier_windows_closed(start, k, today.day_number()),
            opens.day_number() == anchor.day_number() - 30,
            closes.day_number() == anchor.day_number() + 30,
            today.day_number() <= closes.day_number(),
        decreases (if today.day_number() > anchor.day_number() { today.day_number() - anchor.day_number() } else { 0 }),
    {
        opens = match anchor.checked_sub_days(30) {
            Some(d) => d,
            None => return Err("Transfer window date underflow".to_owned()),
        };
        closes = match anchor.checked_add_days(30) {
            Some(d) => d,
            None => return Err("Transfer window date overflow".to_owned()),
        };
        if !closes.is_before(today) {
            break;
        }
        let next = match anchor.checked_add_months(12) {
            Some(d) => d,
            None => return Err("Transfer window year overflow".to_owned()),
        };
        proof {
            assert(anchor_after(start, k + 1) == months_later(anchor.day_number(), 12));
            assert forall|j: nat| j < k + 1 implies (#[trigger] anchor_after(start, j)) is Some
                && anchor_after(start, j)->0 + 30 < today.day_number() by {
                if j < k {
                } else {
                    assert(j == k);
                }
            }
            k = k + 1;
        }
        assert(next.day_number() > anchor.day_number());
        assert(today.day_number() - anchor.day_number() > 30);
        anchor = next;
    }
    let (status, until, remaining) = if today.is_before(opens) {
        (TransferWindowStatus::Closed, Some(opens.days_since(today)), None)
    } else {
        let remaining = closes.days_since(today);
        (
            if remaining == 0 {
                TransferWindowStatus::DeadlineDay
            } else {
                TransferWindowStatus::Open
            },
            None,
            Some(remaining),
        )
    };
    let result = TransferWindowContext {
        status,
        opens_on: Some(opens.to_text()),
        closes_on: Some(closes.to_text()),
        days_until_opens: until,
        days_remaining: remaining,
    };
    assert(window_report(today.day_number(), anchor.day_number() - 30, anchor.day_number() + 30, result));
    Ok(result)
}


/// A move registers today while the window is open, otherwise on the announced
/// opening day if that is still ahead; otherwise the window is closed to it.
pub open spec fn spec_registration(today: Date, w: TransferWindowContext) -> Option<int> {
    if w.status == TransferWindowStatus::Open || w.status == TransferWindowStatus::DeadlineDay {
        Some(today.day_number())
    } else {
        match w.opens_on {
            Some(text) => match parsed_date(text@) {
                Some(d) => if d > today.day_number() { Some(d) } else { None },
                None => None,
            },
            None => None,
        }
    }
}

pub fn registration_date(today: Date, window: &TransferWindowContext) -> (r: Result<Date, String>)
    ensures
        r.is_ok() <==> spec_registration(today, *window) is Some,
        r matches Ok(d) ==> spec_registration(today, *window) == Some(d.day_number()),
{
    match window.status {
        TransferWindowStatus::Open | TransferWindowStatus::DeadlineDay => return Ok(today),
        _ => {},
    }
    match &window.opens_on {
        Some(text) => match Date::parse(text.as_str()) {
            Some(d) => if today.is_before(d) {
                Ok(d)
            } else {
                Err("be.error.transfers.transferWindowClosed".to_owned())
            },
            None => Err("be.error.transfers.transferWindowClosed".to_owned()),
        },
        None => Err("be.error.transfers.transferWindowClosed".to_owned()),
    }
}

/// A loan lasts 30..=370 days and must end before the player's contract does; an
/// unparseable contract end rejects the loan.
pub open spec fn loan_dates_valid(contract_end: Option<String>, start: Date, end: Date) -> bool {
    let days = end.day_number() - start.day_number();
    &&& 30 <= days <= 370
    &&& match contract_end {
        None => true,
        Some(text) => parsed_date(text@) matches Some(d) && end.day_number() < d,
    }
}

pub fn validate_loan_dates(player: &MarketPlayer, start: Date, end: Date) -> (r: Result<(), String>)
    ensures
        r.is_ok() <==> loan_dates_valid(player.contract_end, start, end),
{
    let days = end.days_since(start);
    let contract_conflict = match &player.contract_end {
        None => false,
        Some(text) => match Date::parse(text.as_str()) {
            Some(d) => !end.is_before(d),
            None => true,
        },
    };
    if days < 30 || days > 370 || contract_conflict {
        return Err("be.error.transfers.invalidLoanEndDate".to_owned());
    }
    Ok(())
}

/// A seller's answer to a bid.
#[derive(Debug, Clone, Copy, PartialEq, Eq, Structural)]
pub enum BidRecommendation {
    Accept,
    Counter { fee: u64 },
    Reject { fee: u64 },
}

/// What a seller remembers of the previous bid in the same negotiation.
#[derive(Debug, Clone, Copy, PartialEq, Eq, Structural)]
pub struct PreviousBid {
    pub negotiation_round: u32,
    pub suggested_counter_fee: Option<u64>,
    pub fee: u64,
}

/// Where a negotiation stands when a bid arrives: its round, whether the bid
/// respects the seller's last counter (within 5%), and whether the buyer has
/// stalled (raised by at most 50,000).
#[derive(Debug, Clone, Copy, PartialEq, Eq, Structural)]
pub struct BidStance {
    pub round: u32,
    pub respected: bool,
    pub stalled: bool,
}

pub open spec fn saturate_u64(v: int) -> int {
    if v > u64::MAX { u64::MAX as int } else { v }
}

/// The stance at bid `fee`: a first bid is round one; a later one is one round
/// past the previous (at least round two), respects a counter when it reaches
/// 95% of it, and stalls when it exceeds the previous bid by at most 50,000.
pub open spec fn spec_bid_stance(fee: int, previous: Option<PreviousBid>) -> BidStance {
    match previous {
        None => BidStance { round: 1, respected: false, stalled: false },
        Some(p) => BidStance {
            round: (if p.negotiation_round <= 1 {
                2
            } else if p.negotiation_round == u32::MAX {
                u32::MAX as int
            } else {
                p.negotiation_round + 1
            }) as u32,
            respected: match p.suggested_counter_fee {
                Some(counter) => fee >= saturate_u64(counter * 95) / 100,
                None => false,
            },
            stalled: fee <= saturate_u64(p.fee + 50_000),
        },
    }
}

pub fn bid_stance(fee: u64, previous: Option<PreviousBid>) -> (s: BidStance)
    ensures
        s == spec_bid_stance(fee as int, previous),
{
    match previous {
        None => BidStance { round: 1, respected: false, stalled: false },
        Some(p) => {
            let base: u32 = if p.negotiation_round < 1 { 1 } else { p.negotiation_round };
            let round = base.saturating_add(1);
            let respected = match p.suggested_counter_fee {
                Some(counter) => {
                    let scaled: u64 = if counter > u64::MAX / 95 { u64::MAX } else { counter * 95 };
                    fee >= scaled / 100
                },
                None => false,
            };
            let stalled = fee <= p.fee.saturating_add(50_000);
            BidStance { round, respected, stalled }
        },
    }
}

/// The answer to `fee` given the seller's threshold (after any concession) and
/// floor: accept from the threshold, counter with the threshold rounded to a
/// transfer fee from the floor, reject with that counter-fee below the floor.
pub open spec fn spec_settle_bid(fee: int, threshold: int, floor: int) -> BidRecommendation {
    if fee >= threshold {
        BidRecommendation::Accept
    } else if fee >= floor {
        BidRecommendation::Counter { fee: spec_round_fee(threshold) as u64 }
    } else {
        BidRecommendation::Reject { fee: spec_round_fee(threshold) as u64 }
    }
}

pub fn settle_bid(fee: u64, threshold: u64, floor: u64) -> (r: BidRecommendation)
    ensures
        r == spec_settle_bid(fee as int, threshold as int, floor as int),
{
    if fee >= threshold {
        BidRecommendation::Accept
    } else if fee >= floor {
        BidRecommendation::Counter { fee: round_transfer_fee(threshold) }
    } else {
        BidRecommendation::Reject { fee: round_transfer_fee(threshold) }
    }
}


} // verus!
