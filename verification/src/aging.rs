//! Seasonal ageing: veterans lose pace, younger players grow technically, and
//! older players may retire. Each player's yearly draws come from a hash of the
//! player ID, the season and a purpose label, not from a shared generator.
use vstd::prelude::*;
use std::collections::hash_map::DefaultHasher;
use std::hash::{Hash, Hasher};
use crate::dates::{Date, calendar_ordinal, calendar_year, parsed_ymd};

verus! {

/// `Hash::hash` of a `str` into the hasher.
#[verifier::external_body]
fn hash_text(hasher: &mut DefaultHasher, text: &str) {
    text.hash(hasher)
}

/// `Hash::hash` of a `u32` into the hasher.
#[verifier::external_body]
fn hash_u32(hasher: &mut DefaultHasher, value: u32) {
    value.hash(hasher)
}

/// The lowest and highest attribute rating.
pub const MIN_ATTRIBUTE: u8 = 1;

pub const MAX_ATTRIBUTE: u8 = 99;

/// The attributes ageing reads and changes. `low_average_rating` holds when the
/// season's average match rating is at most 6.4, `high_average_rating` when it
/// is at least 7.4.
#[derive(Debug, Clone, PartialEq, Eq)]
pub struct AgingPlayer {
    pub id: String,
    pub date_of_birth: String,
    pub pace: u8,
    pub passing: u8,
    pub vision: u8,
    pub decisions: u8,
    pub composure: u8,
    pub ovr: u8,
    pub contract_end: Option<String>,
    pub team_id: Option<String>,
    pub appearances: u32,
    pub low_average_rating: bool,
    pub high_average_rating: bool,
    pub retired: bool,
    pub transfer_listed: bool,
    pub loan_listed: bool,
    pub transfer_offers: Vec<String>,
}

/// Age in whole years on `today`, comparing days of the year (so a birthday
/// on a leap day shifts with the calendar); 30 when the birth date does not parse.
pub open spec fn age_on(date_of_birth: Seq<char>, today: Date) -> int {
    match parsed_ymd(date_of_birth) {
        None => 30,
        Some(born) => calendar_year(today.day_number()) - calendar_year(born) - if calendar_ordinal(
            today.day_number(),
        ) < calendar_ordinal(born) {
            1int
        } else {
            0int
        },
    }
}

/// The draw from a player ID, a season and a label: the hash of the three,
/// reduced below `u32::MAX`. Which value comes out is left open: std leaves
/// `DefaultHasher`'s algorithm unspecified across releases, and `Hash` feeds
/// integers in the machine's byte order, so only the range is stated.
fn seeded_value(player_id: &str, season: u32, salt: &str) -> (r: u32)
    ensures
        r < u32::MAX,
{
    let mut hasher = DefaultHasher::new();
    hash_text(&mut hasher, player_id);
    hash_u32(&mut hasher, season);
    hash_text(&mut hasher, salt);
    (hasher.finish() % (u32::MAX as u64)) as u32
}

/// Age in whole years on `today`; 30 when the birth date does not parse.
pub fn player_age_on(today: Date, date_of_birth: &str) -> (r: i32)
    ensures
        r == age_on(date_of_birth@, today),
{
    match Date::parse_ymd(date_of_birth) {
        None => 30,
        Some(born) => {
            let earlier: bool = today.ordinal() < born.ordinal();
            today.year() - born.year() - if earlier {
                1
            } else {
                0
            }
        },
    }
}

/// The pace a veteran loses for a season's draw: none before 30, otherwise one
/// point plus the draw modulo three.
pub open spec fn spec_pace_loss(age: int, draw: int) -> int {
    if age < 30 {
        0
    } else {
        1 + draw % 3
    }
}

/// Pace loss for a given draw.
pub fn pace_loss_on_draw(age: i32, draw: u32) -> (r: u8)
    ensures
        r == spec_pace_loss(age as int, draw as int),
{
    if age < 30 {
        0
    } else {
        1 + (draw % 3) as u8
    }
}

/// Pace a player loses this season: one to three points from age 30, none before.
/// The draw is the player's hash for the season, which is left open.
pub fn veteran_pace_loss(player_id: &str, age: i32, season: u32) -> (r: u8)
    ensures
        exists|draw: u32| draw < u32::MAX && r == spec_pace_loss(age as int, draw as int),
        age < 30 ==> r == 0,
        age >= 30 ==> 1 <= r <= 3,
{
    if age < 30 {
        return pace_loss_on_draw(age, 0);
    }
    let draw = seeded_value(player_id, season, "pace-loss");
    pace_loss_on_draw(age, draw)
}

/// Technical growth for a season's draw: none after 32, otherwise the draw's parity.
pub open spec fn spec_growth(age: int, draw: int) -> int {
    if age > 32 {
        0
    } else {
        draw % 2
    }
}

/// Technical growth for a given draw.
pub fn growth_on_draw(age: i32, draw: u32) -> (r: u8)
    ensures
        r == spec_growth(age as int, draw as int),
{
    if age > 32 {
        0
    } else {
        (draw % 2) as u8
    }
}

/// Technical growth this season: zero or one point up to age 32, none after.
/// Up to 32 the point is the parity of the player's hash draw for the season,
/// which is left open as that draw is.
pub fn technical_growth(player_id: &str, age: i32, season: u32) -> (r: u8)
    ensures
        exists|draw: u32| draw < u32::MAX && r == spec_growth(age as int, draw as int),
        age > 32 ==> r == 0,
        r <= 1,
{
    if age > 32 {
        return growth_on_draw(age, 0);
    }
    let draw = seeded_value(player_id, season, "technical-growth");
    growth_on_draw(age, draw)
}

/// `value + delta`, capped at the highest rating.
pub open spec fn raised(value: int, delta: int) -> int {
    if value + delta > MAX_ATTRIBUTE {
        MAX_ATTRIBUTE as int
    } else {
        value + delta
    }
}

/// `value - delta`, floored at the lowest rating.
pub open spec fn lowered(value: int, delta: int) -> int {
    if value - delta < MIN_ATTRIBUTE {
        MIN_ATTRIBUTE as int
    } else {
        value - delta
    }
}

pub fn increase_attribute(value: &mut u8, delta: u8)
    ensures
        *final(value) == raised(*old(value) as int, delta as int),
{
    let sum: u8 = value.saturating_add(delta);
    *value = if sum < MAX_ATTRIBUTE {
        sum
    } else {
        MAX_ATTRIBUTE
    };
}

pub fn decrease_attribute(value: &mut u8, delta: u8)
    ensures
        *final(value) == lowered(*old(value) as int, delta as int),
{
    let difference: u8 = value.saturating_sub(delta);
    *value = if difference > MIN_ATTRIBUTE {
        difference
    } else {
        MIN_ATTRIBUTE
    };
}

/// Whether the contract end date parses and falls before `today`.
pub open spec fn contract_expired(contract_end: Option<String>, today: Date) -> bool {
    contract_end matches Some(end) && (parsed_ymd(end@) matches Some(n) && n < today.day_number())
}

fn has_expired_contract(player: &AgingPlayer, today: Date) -> (r: bool)
    ensures
        r == contract_expired(player.contract_end, today),
{
    match &player.contract_end {
        None => false,
        Some(end) => match Date::parse_ymd(end.as_str()) {
            None => false,
            Some(end_date) => end_date.is_before(today),
        },
    }
}

/// `a - b`, not below zero.
pub open spec fn sat_sub(a: int, b: int) -> int {
    if a > b {
        a - b
    } else {
        0
    }
}

/// Retirement chance in percent: none before 33 or once retired; a base that
/// rises with age (12, 24, 42, 60, 78, then certain); more without a running
/// contract, without a club, with under ten appearances or a low average rating;
/// less with a high average rating or an overall of 80 or more; at most 100.
pub open spec fn spec_retirement_chance(p: AgingPlayer, age: int, today: Date) -> int {
    if p.retired || age < 33 {
        0
    } else {
        let base = if age == 33 {
            12int
        } else if age == 34 {
            24
        } else if age == 35 {
            42
        } else if age == 36 {
            60
        } else if age == 37 {
            78
        } else {
            100
        };
        let c1 = base + if p.contract_end is None || contract_expired(p.contract_end, today) {
            18int
        } else {
            0
        };
        let c2 = c1 + if p.team_id is None {
            10int
        } else {
            0
        };
        let c3 = c2 + if p.appearances < 10 {
            8int
        } else {
            0
        };
        let c4 = c3 + if p.low_average_rating {
            8int
        } else {
            0
        };
        let c5 = if p.high_average_rating {
            sat_sub(c4, 10)
        } else {
            c4
        };
        let c6 = if p.ovr >= 80 {
            sat_sub(c5, 15)
        } else {
            c5
        };
        if c6 > 100 {
            100
        } else {
            c6
        }
    }
}

/// Retirement chances by age for a player with nothing that moves them: a
/// running contract, a club, at least ten appearances, no low or high average
/// rating and an overall under 80. None before 33; 12, 24, 42, 60 and 78 percent
/// at 33 to 37; certain from 38. Below 38 retirement is never certain.
pub proof fn lemma_base_retirement_chances(p: AgingPlayer, age: int, today: Date)
    requires
        !p.retired,
        p.contract_end is Some,
        !contract_expired(p.contract_end, today),
        p.team_id is Some,
        p.appearances >= 10,
        !p.low_average_rating,
        !p.high_average_rating,
        p.ovr < 80,
    ensures
        age < 33 ==> spec_retirement_chance(p, age, today) == 0,
        age == 33 ==> spec_retirement_chance(p, age, today) == 12,
        age == 34 ==> spec_retirement_chance(p, age, today) == 24,
        age == 35 ==> spec_retirement_chance(p, age, today) == 42,
        age == 36 ==> spec_retirement_chance(p, age, today) == 60,
        age == 37 ==> spec_retirement_chance(p, age, today) == 78,
        age >= 38 ==> spec_retirement_chance(p, age, today) == 100,
        age < 38 ==> spec_retirement_chance(p, age, today) < 100,
{
}

/// Each thing that moves the chance does so by a fixed step while the chance
/// stays between 0 and 100: no running contract adds 18, no club 10, fewer
/// than ten appearances 8, a low average rating 8; a high average rating
/// takes 10 off and an overall of 80 or more takes 15 off.
pub proof fn lemma_retirement_modifiers(p: AgingPlayer, age: int, today: Date)
    requires
        !p.retired,
        33 <= age <= 35,
        p.contract_end is Some,
        !contract_expired(p.contract_end, today),
        p.team_id is Some,
        p.appearances >= 10,
        !p.low_average_rating,
        !p.high_average_rating,
        p.ovr < 80,
    ensures
        spec_retirement_chance(AgingPlayer { contract_end: None, ..p }, age, today) == spec_retirement_chance(
            p,
            age,
            today,
        ) + 18,
        spec_retirement_chance(AgingPlayer { team_id: None, ..p }, age, today) == spec_retirement_chance(p, age, today)
            + 10,
        spec_retirement_chance(AgingPlayer { appearances: 9, ..p }, age, today) == spec_retirement_chance(
            p,
            age,
            today,
        ) + 8,
        spec_retirement_chance(AgingPlayer { low_average_rating: true, ..p }, age, today) == spec_retirement_chance(
            p,
            age,
            today,
        ) + 8,
        spec_retirement_chance(AgingPlayer { high_average_rating: true, ..p }, age, today) == spec_retirement_chance(
            p,
            age,
            today,
        ) - 10,
        spec_retirement_chance(AgingPlayer { ovr: 80, ..p }, age, today) == if spec_retirement_chance(p, age, today)
            >= 15 {
            spec_retirement_chance(p, age, today) - 15
        } else {
            0
        },
        spec_retirement_chance(AgingPlayer { retired: true, ..p }, age, today) == 0,
{
}

/// A retirement chance is a percentage: between 0 and 100 for any player.
pub proof fn lemma_retirement_chance_is_percent(p: AgingPlayer, age: int, today: Date)
    ensures
        0 <= spec_retirement_chance(p, age, today) <= 100,
{
}

pub fn retirement_chance(player: &AgingPlayer, age: i32, today: Date) -> (r: u32)
    ensures
        r == spec_retirement_chance(*player, age as int, today),
{
    if player.retired || age < 33 {
        return 0;
    }
    let mut chance: u32 = if age == 33 {
        12
    } else if age == 34 {
        24
    } else if age == 35 {
        42
    } else if age == 36 {
        60
    } else if age == 37 {
        78
    } else {
        100
    };
    if player.contract_end.is_none() || has_expired_contract(player, today) {
        chance = chance + 18;
    }
    if player.team_id.is_none() {
        chance = chance + 10;
    }
    if player.appearances < 10 {
        chance = chance + 8;
    }
    if player.low_average_rating {
        chance = chance + 8;
    }
    if player.high_average_rating {
        chance = chance.saturating_sub(10);
    }
    if player.ovr >= 80 {
        chance = chance.saturating_sub(15);
    }
    if chance > 100 {
        100
    } else {
        chance
    }
}

/// Whether a draw retires a player with the given chance (in percent): the
/// draw modulo 100 must fall below the chance, so never at chance zero.
pub open spec fn spec_retires(chance: int, draw: int) -> bool {
    chance != 0 && draw % 100 < chance
}

/// Retirement for a given chance and draw.
pub fn retires_on_draw(chance: u32, draw: u32) -> (r: bool)
    ensures
        r == spec_retires(chance as int, draw as int),
{
    chance != 0 && draw % 100 < chance
}

/// Whether the player retires this season: a draw below 100 under the chance.
/// Never at chance zero, always at 100. The draw is the player's hash for the
/// season, which is left open.
pub fn should_retire(player: &AgingPlayer, age: i32, today: Date, season: u32) -> (r: bool)
    ensures
        exists|draw: u32|
            draw < u32::MAX && r == spec_retires(spec_retirement_chance(*player, age as int, today), draw as int),
        spec_retirement_chance(*player, age as int, today) == 0 ==> !r,
        spec_retirement_chance(*player, age as int, today) >= 100 ==> r,
{
    let chance = retirement_chance(player, age, today);
    if chance == 0 {
        return retires_on_draw(chance, 0);
    }
    let draw = seeded_value(player.id.as_str(), season, "retirement-roll");
    retires_on_draw(chance, draw)
}

/// A retired player: no club, no contract, off the lists, no pending offers.
pub open spec fn retired_from(before: AgingPlayer, after: AgingPlayer) -> bool {
    after == AgingPlayer {
        retired: true,
        team_id: None,
        contract_end: None,
        transfer_listed: false,
        loan_listed: false,
        transfer_offers: after.transfer_offers,
        ..before
    } && after.transfer_offers@.len() == 0
}

pub fn retire_player(player: &mut AgingPlayer)
    ensures
        retired_from(*old(player), *final(player)),
{
    player.retired = true;
    player.team_id = None;
    player.contract_end = None;
    player.transfer_listed = false;
    player.loan_listed = false;
    player.transfer_offers.clear();
}

/// The attribute curve of one season: pace falls by `loss`, and passing,
/// vision, decisions and composure rise by `growth`, within 1..=99 where they
/// change.
pub open spec fn curved(before: AgingPlayer, after: AgingPlayer, loss: int, growth: int) -> bool {
    after == AgingPlayer {
        pace: if loss > 0 {
            lowered(before.pace as int, loss) as u8
        } else {
            before.pace
        },
        passing: if growth > 0 {
            raised(before.passing as int, growth) as u8
        } else {
            before.passing
        },
        vision: if growth > 0 {
            raised(before.vision as int, growth) as u8
        } else {
            before.vision
        },
        decisions: if growth > 0 {
            raised(before.decisions as int, growth) as u8
        } else {
            before.decisions
        },
        composure: if growth > 0 {
            raised(before.composure as int, growth) as u8
        } else {
            before.composure
        },
        ..before
    }
}

fn apply_attribute_curve(player: &mut AgingPlayer, age: i32, season: u32)
    ensures
        exists|loss: int, growth: int|
            (if age < 30 {
                loss == 0
            } else {
                1 <= loss <= 3
            }) && (if age > 32 {
                growth == 0
            } else {
                0 <= growth <= 1
            }) && #[trigger] curved(*old(player), *final(player), loss, growth),
{
    let ghost before = *player;
    let pace_loss = veteran_pace_loss(player.id.as_str(), age, season);
    if pace_loss > 0 {
        decrease_attribute(&mut player.pace, pace_loss);
    }
    let growth = technical_growth(player.id.as_str(), age, season);
    if growth > 0 {
        increase_attribute(&mut player.passing, growth);
        increase_attribute(&mut player.vision, growth);
        increase_attribute(&mut player.decisions, growth);
        increase_attribute(&mut player.composure, growth);
    }
    assert(curved(before, *player, pace_loss as int, growth as int));
}

/// One season of ageing for one active player, as `age_players` applies it:
/// the attribute curve, then retirement (never at chance zero, always at 100).
pub open spec fn aged(before: AgingPlayer, after: AgingPlayer, today: Date) -> bool {
    let age = age_on(before.date_of_birth@, today);
    let chance = spec_retirement_chance(before, age, today);
    exists|loss: int, growth: int, curve: AgingPlayer|
        (if age < 30 {
            loss == 0
        } else {
            1 <= loss <= 3
        }) && (if age > 32 {
            growth == 0
        } else {
            0 <= growth <= 1
        }) && #[trigger] curved(before, curve, loss, growth) && (if chance == 0 {
            after == curve
        } else if chance >= 100 {
            retired_from(curve, after)
        } else {
            after == curve || retired_from(curve, after)
        })
}

/// A player who retired this season from the club in `d.1`; `d.0` is their ID.
pub open spec fn departed(before: AgingPlayer, after: AgingPlayer, d: (String, String)) -> bool {
    &&& !before.retired
    &&& after.retired
    &&& d.0@ == before.id@
    &&& before.team_id matches Some(t) && d.1@ == t@
}

/// The retirement of this player from a club is listed among `departures`.
pub open spec fn departure_listed(before: AgingPlayer, after: AgingPlayer, departures: Seq<(String, String)>) -> bool {
    exists|k: int| 0 <= k < departures.len() && departed(before, after, departures[k])
}

/// Some player among the first `bound` retired this season from the club in `d`.
pub open spec fn departure_recorded(
    before: Seq<AgingPlayer>,
    after: Seq<AgingPlayer>,
    bound: int,
    d: (String, String),
) -> bool {
    exists|j: int| 0 <= j < bound && departed(before[j], after[j], d)
}

/// Age every active player by one season on `today`. Retired players are left
/// alone. Returns, for each player who retired from a club, the player and club
/// IDs, so that the club's references to the player can be removed.
pub fn age_players(players: &mut Vec<AgingPlayer>, today: Date, season: u32) -> (departures: Vec<(String, String)>)
    ensures
        final(players)@.len() == old(players)@.len(),
        forall|i: int|
            0 <= i < old(players)@.len() ==> if old(players)@[i].retired {
                #[trigger] final(players)@[i] == old(players)@[i]
            } else {
                aged(old(players)@[i], final(players)@[i], today)
            },
        forall|k: int|
            0 <= k < departures@.len() ==> departure_recorded(
                old(players)@,
                final(players)@,
                old(players)@.len() as int,
                #[trigger] departures@[k],
            ),
        forall|i: int|
            0 <= i < old(players)@.len() && !old(players)@[i].retired && #[trigger] final(players)@[i].retired
                && old(players)@[i].team_id is Some ==> departure_listed(
                old(players)@[i],
                final(players)@[i],
                departures@,
            ),
{
    let ghost before = players@;
    let mut departures: Vec<(String, String)> = Vec::new();
    let mut i: usize = 0;
    while i < players.len()
        invariant
            i <= players@.len(),
            players@.len() == before.len(),
            forall|j: int| i <= j < before.len() ==> #[trigger] players@[j] == before[j],
            forall|j: int|
                0 <= j < i ==> if before[j].retired {
                    #[trigger] players@[j] == before[j]
                } else {
                    aged(before[j], players@[j], today)
                },
            forall|k: int|
                0 <= k < departures@.len() ==> departure_recorded(before, players@, i as int, #[trigger] departures@[k]),
            forall|j: int|
                0 <= j < i && !before[j].retired && #[trigger] players@[j].retired && before[j].team_id is Some
                    ==> departure_listed(before[j], players@[j], departures@),
        decreases before.len() - i,
    {
        let ghost prev = players@;
        let ghost prev_departures = departures@;
        if !players[i].retired {
            let age = player_age_on(today, players[i].date_of_birth.as_str());
            apply_attribute_curve(&mut players[i], age, season);
            let ghost curve = players@[i as int];
            let retire = should_retire(&players[i], age, today, season);
            if retire {
                match &players[i].team_id {
                    Some(team) => {
                        let ghost dlen = departures@.len();
                        departures.push((players[i].id.clone(), team.clone()));
                    },
                    None => {},
                }
                retire_player(&mut players[i]);
            }
            proof {
                assert(spec_retirement_chance(curve, age as int, today) == spec_retirement_chance(
                    before[i as int],
                    age as int,
                    today,
                ));
                assert(aged(before[i as int], players@[i as int], today));
                assert forall|j: int| 0 <= j < before.len() && j != i implies #[trigger] players@[j] == prev[j] by {}
            }
        }
        let ghost at = i as int;
        i = i + 1;
        proof {
            assert forall|k: int| 0 <= k < departures@.len() implies departure_recorded(
                before,
                players@,
                i as int,
                #[trigger] departures@[k],
            ) by {
                if k < prev_departures.len() {
                    assert(departures@[k] == prev_departures[k]);
                    assert(departure_recorded(before, prev, at, prev_departures[k]));
                    let j = choose|j: int| 0 <= j < at && departed(before[j], prev[j], prev_departures[k]);
                    assert(players@[j] == prev[j]);
                    assert(departed(before[j], players@[j], departures@[k]));
                } else {
                    assert(departed(before[at], players@[at], departures@[k]));
                }
            }
            assert forall|j: int|
                0 <= j < i && !before[j].retired && #[trigger] players@[j].retired && before[j].team_id is Some
                    implies departure_listed(before[j], players@[j], departures@) by {
                if j < at {
                    assert(players@[j] == prev[j]);
                    assert(departure_listed(before[j], prev[j], prev_departures));
                    let k = choose|k: int| 0 <= k < prev_departures.len() && departed(before[j], prev[j], prev_departures[k]);
                    assert(departures@[k] == prev_departures[k]);
                } else {
                    assert(departed(before[at], players@[at], departures@[prev_departures.len() as int]));
                }
            }
        }
    }
    departures
}

} // verus!
