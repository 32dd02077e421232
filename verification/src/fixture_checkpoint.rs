//! The fixture part of a saved game: the current and archived fixtures, the
//! finished matches and the league table. Every fixture has a nonblank ID and
//! two different registered clubs; every finished match names its fixture
//! once and was played before today with known players and two full starting
//! line-ups; every past fixture has finished. On the game's own league
//! calendar no club plays twice on a day, fixture IDs are unique and the
//! table is what the finished current fixtures add up to. With a competition
//! state, an archived fixture may repeat unchanged, finished matches must
//! agree with the results the state records, matches completed before its
//! epoch count as finished, and the table is the primary league's.
use vstd::prelude::*;
use crate::dates::{Date, date_text};
use crate::football::{Fixture, Standing};
use crate::text::{is_blank, is_blank_spec, text_at_most, text_le};

verus! {

/// A finished match as the checkpoint keeps it. `possession_valid` says
/// whether the report's home possession is a finite share between 0 and 100.
#[derive(Debug, Clone, PartialEq, Eq)]
pub struct MatchRecord {
    pub fixture_id: String,
    pub day: u32,
    pub home: String,
    pub away: String,
    pub home_goals: u8,
    pub away_goals: u8,
    pub possession_valid: bool,
    pub stat_player_ids: Vec<String>,
    pub home_starting_xi: Vec<String>,
    pub away_starting_xi: Vec<String>,
}

/// A fixture of the competition state, as the fixture check reads it: its
/// `%Y-%m-%d` date, clubs, recorded result and whether it is completed.
#[derive(Debug, Clone, PartialEq, Eq)]
pub struct SourceFixture {
    pub id: String,
    pub date: String,
    pub home: String,
    pub away: String,
    pub result: Option<(u8, u8)>,
    pub completed: bool,
}

/// What the fixture check reads from the competition state of a game that
/// runs one: the primary league's table rows (`None` when the primary
/// competition is missing), every competition fixture (current competitions
/// first, then archived ones) and the epoch date.
#[derive(Debug, Clone, PartialEq, Eq)]
pub struct CompetitionSources {
    pub primary_standings: Option<Vec<Standing>>,
    pub fixtures: Vec<SourceFixture>,
    pub epoch: Date,
}

pub open spec fn names(ids: Seq<String>, name: Seq<char>) -> bool {
    exists|k: int| 0 <= k < ids.len() && (#[trigger] ids[k])@ == name
}

pub open spec fn distinct_ids(fs: Seq<Fixture>) -> bool {
    forall|a: int, b: int| 0 <= a < b < fs.len() ==> (#[trigger] fs[a]).id@ != (#[trigger] fs[b]).id@
}

/// `b` puts one of `a`'s clubs on the pitch on `a`'s day.
pub open spec fn shares_slot(a: Fixture, b: Fixture) -> bool {
    a.day == b.day && (b.home@ == a.home@ || b.home@ == a.away@ || b.away@ == a.home@ || b.away@ == a.away@)
}

/// Fixture `k` has a blank ID, a club against itself, an unregistered club,
/// or, on the game's own league calendar, a club that already plays on its day.
pub open spec fn calendar_broken(all: Seq<Fixture>, k: int, clubs: Seq<String>, league: bool) -> bool {
    let f = all[k];
    ||| is_blank_spec(f.id@)
    ||| f.home@ == f.away@
    ||| !names(clubs, f.home@)
    ||| !names(clubs, f.away@)
    ||| league && exists|j: int| 0 <= j < k && #[trigger] shares_slot(all[j], f)
}

/// Two fixtures schedule the same match with the same seed.
pub open spec fn same_shape(a: Fixture, b: Fixture) -> bool {
    a.day == b.day && a.home@ == b.home@ && a.away@ == b.away@ && a.seed == b.seed
}

/// An earlier fixture has the same ID: on the game's own league calendar
/// that is a conflict; a competition calendar may repeat a fixture across
/// archives, but only unchanged.
pub open spec fn identity_conflict(all: Seq<Fixture>, k: int, league: bool) -> bool {
    exists|j: int| 0 <= j < k && (#[trigger] all[j]).id@ == all[k].id@ && (league || !same_shape(all[j], all[k]))
}

/// What is wrong with fixture `k` of `all`, given the fixtures before it.
pub open spec fn fixture_fault(all: Seq<Fixture>, k: int, clubs: Seq<String>, league: bool) -> Option<Seq<char>> {
    if calendar_broken(all, k, clubs, league) {
        Some("Invalid checkpoint fixture calendar"@)
    } else if identity_conflict(all, k, league) {
        Some("Conflicting checkpoint fixture identity"@)
    } else {
        None
    }
}

/// The first fault among the first `n` fixtures.
pub open spec fn first_fixture_fault(all: Seq<Fixture>, n: int, clubs: Seq<String>, league: bool) -> Option<
    Seq<char>,
>
    decreases n,
{
    if n <= 0 {
        None
    } else {
        match first_fixture_fault(all, n - 1, clubs, league) {
            Some(e) => Some(e),
            None => fixture_fault(all, n - 1, clubs, league),
        }
    }
}

/// The recorded result of source fixture `k` conflicts with an earlier
/// recorded result under the same ID.
pub open spec fn source_conflict(src: Seq<SourceFixture>, k: int) -> bool {
    src[k].result is Some && exists|j: int|
        0 <= j < k && (#[trigger] src[j]).id@ == src[k].id@ && src[j].result is Some && !(src[j].date@
            == src[k].date@ && src[j].home@ == src[k].home@ && src[j].away@ == src[k].away@ && src[j].result
            == src[k].result)
}

pub open spec fn source_conflicts(src: Seq<SourceFixture>) -> bool {
    exists|k: int| 0 <= k < src.len() && #[trigger] source_conflict(src, k)
}

/// The competition state records this match's result: under its fixture ID,
/// with the same clubs and score.
pub open spec fn source_agrees(src: Seq<SourceFixture>, r: MatchRecord) -> bool {
    &&& exists|j: int| 0 <= j < src.len() && (#[trigger] src[j]).id@ == r.fixture_id@ && src[j].result is Some
    &&& forall|j: int|
        0 <= j < src.len() && (#[trigger] src[j]).id@ == r.fixture_id@ && src[j].result is Some ==> src[j].home@
            == r.home@ && src[j].away@ == r.away@ && src[j].result == Some((r.home_goals, r.away_goals))
}

pub open spec fn distinct_names(s: Seq<String>) -> bool {
    forall|a: int, b: int| 0 <= a < b < s.len() ==> (#[trigger] s[a])@ != (#[trigger] s[b])@
}

pub open spec fn all_known(ids: Seq<String>, players: Seq<String>) -> bool {
    forall|a: int| 0 <= a < ids.len() ==> names(players, (#[trigger] ids[a])@)
}

/// The fixture a record names schedules the same day and clubs.
pub open spec fn scheduled_as(all: Seq<Fixture>, r: MatchRecord) -> bool {
    forall|i: int|
        0 <= i < all.len() && (#[trigger] all[i]).id@ == r.fixture_id@ ==> all[i].day == r.day && all[i].home@
            == r.home@ && all[i].away@ == r.away@
}

/// What is wrong with finished match `k`, given the ones before it.
pub open spec fn record_fault(
    all: Seq<Fixture>,
    results: Seq<MatchRecord>,
    k: int,
    today: u32,
    players: Seq<String>,
    src: Option<Seq<SourceFixture>>,
) -> Option<Seq<char>> {
    let r = results[k];
    if !(exists|i: int| 0 <= i < all.len() && (#[trigger] all[i]).id@ == r.fixture_id@) {
        Some("Checkpoint result has no fixture"@)
    } else if (exists|j: int| 0 <= j < k && (#[trigger] results[j]).fixture_id@ == r.fixture_id@) || r.day >= today
        || !scheduled_as(all, r) || !r.possession_valid || !all_known(r.stat_player_ids@, players) {
        Some("Invalid checkpoint result references"@)
    } else if src is Some && !source_agrees(src->0, r) {
        Some("Runtime report disagrees with source fixture result"@)
    } else if r.home_starting_xi@.len() != 11 || r.away_starting_xi@.len() != 11 || !distinct_names(
        r.home_starting_xi@ + r.away_starting_xi@,
    ) || !all_known(r.home_starting_xi@ + r.away_starting_xi@, players) {
        Some("Invalid checkpoint historical starting lineups"@)
    } else {
        None
    }
}

/// A table row after a match the club finished `scored`–`conceded`, or
/// `None` when a count would leave `u32`.
pub open spec fn credited_row(row: Standing, scored: int, conceded: int) -> Option<Standing> {
    let played = row.played + 1;
    let goals_for = row.goals_for + scored;
    let goals_against = row.goals_against + conceded;
    if played > u32::MAX || goals_for > u32::MAX || goals_against > u32::MAX {
        None
    } else if scored > conceded {
        if row.won + 1 > u32::MAX || row.points + 3 > u32::MAX {
            None
        } else {
            Some(
                Standing {
                    played: played as u32,
                    goals_for: goals_for as u32,
                    goals_against: goals_against as u32,
                    won: (row.won + 1) as u32,
                    points: (row.points + 3) as u32,
                    ..row
                },
            )
        }
    } else if scored == conceded {
        if row.drawn + 1 > u32::MAX || row.points + 1 > u32::MAX {
            None
        } else {
            Some(
                Standing {
                    played: played as u32,
                    goals_for: goals_for as u32,
                    goals_against: goals_against as u32,
                    drawn: (row.drawn + 1) as u32,
                    points: (row.points + 1) as u32,
                    ..row
                },
            )
        }
    } else if row.lost + 1 > u32::MAX {
        None
    } else {
        Some(
            Standing {
                played: played as u32,
                goals_for: goals_for as u32,
                goals_against: goals_against as u32,
                lost: (row.lost + 1) as u32,
                ..row
            },
        )
    }
}

/// `i` is the first row of `club`.
pub open spec fn first_row(t: Seq<Standing>, club: Seq<char>, i: int) -> bool {
    0 <= i < t.len() && t[i].club_id@ == club && forall|j: int| 0 <= j < i ==> (#[trigger] t[j]).club_id@ != club
}

/// The table after crediting `club` with a `scored`–`conceded` match.
pub open spec fn credit(t: Seq<Standing>, club: Seq<char>, scored: int, conceded: int) -> Result<Seq<Standing>, Seq<char>> {
    if !(exists|i: int| first_row(t, club, i)) {
        Err("Checkpoint standing missing club"@)
    } else {
        let i = choose|i: int| first_row(t, club, i);
        match credited_row(t[i], scored, conceded) {
            Some(row) => Ok(t.update(i, row)),
            None => Err("Checkpoint standings overflow"@),
        }
    }
}

pub open spec fn is_current(current: Seq<Fixture>, id: Seq<char>) -> bool {
    exists|i: int| 0 <= i < current.len() && (#[trigger] current[i]).id@ == id
}

/// The finished matches checked in order, each current one credited to both
/// clubs' rows on the game's own league calendar (a competition state keeps
/// its own table): the table so far, or the first error.
pub open spec fn table_after(
    all: Seq<Fixture>,
    current: Seq<Fixture>,
    results: Seq<MatchRecord>,
    today: u32,
    players: Seq<String>,
    rows: Seq<Standing>,
    src: Option<Seq<SourceFixture>>,
) -> Result<Seq<Standing>, Seq<char>>
    decreases results.len(),
{
    if results.len() == 0 {
        Ok(rows)
    } else {
        match table_after(all, current, results.drop_last(), today, players, rows, src) {
            Err(e) => Err(e),
            Ok(t) => {
                let r = results.last();
                match record_fault(all, results, results.len() - 1, today, players, src) {
                    Some(e) => Err(e),
                    None => if src is Some || !is_current(current, r.fixture_id@) {
                        Ok(t)
                    } else {
                        match credit(t, r.home@, r.home_goals as int, r.away_goals as int) {
                            Err(e) => Err(e),
                            Ok(t2) => credit(t2, r.away@, r.away_goals as int, r.home_goals as int),
                        }
                    },
                }
            },
        }
    }
}

/// An empty row for every club, in order.
pub open spec fn empty_rows(clubs: Seq<String>) -> Seq<Standing> {
    Seq::new(
        clubs.len(),
        |i: int|
            Standing {
                club_id: clubs[i],
                played: 0,
                won: 0,
                drawn: 0,
                lost: 0,
                goals_for: 0,
                goals_against: 0,
                points: 0,
            },
    )
}

pub open spec fn same_row(a: Standing, b: Standing) -> bool {
    a.club_id@ == b.club_id@ && a.played == b.played && a.won == b.won && a.drawn == b.drawn && a.lost == b.lost
        && a.goals_for == b.goals_for && a.goals_against == b.goals_against && a.points == b.points
}

pub open spec fn same_rows(a: Seq<Standing>, b: Seq<Standing>) -> bool {
    a.len() == b.len() && forall|i: int| 0 <= i < a.len() ==> same_row(#[trigger] a[i], b[i])
}

/// A completed source fixture dated no later than the epoch, comparing the
/// date texts.
pub open spec fn imported(src: Seq<SourceFixture>, epoch_text: Seq<char>, id: Seq<char>) -> bool {
    exists|j: int|
        0 <= j < src.len() && (#[trigger] src[j]).id@ == id && src[j].completed && text_le(src[j].date@, epoch_text)
}

/// Every fixture before today has finished, here or before the competition
/// state's epoch.
pub open spec fn covered(
    all: Seq<Fixture>,
    results: Seq<MatchRecord>,
    today: u32,
    src: Seq<SourceFixture>,
    epoch_text: Seq<char>,
) -> bool {
    forall|i: int|
        0 <= i < all.len() && (#[trigger] all[i]).day < today ==> (exists|k: int|
            0 <= k < results.len() && (#[trigger] results[k]).fixture_id@ == all[i].id@) || imported(
            src,
            epoch_text,
            all[i].id@,
        )
}

pub open spec fn last_row(t: Seq<Standing>, key: Seq<char>, i: int) -> bool {
    0 <= i < t.len() && t[i].club_id@ == key && forall|j: int| i < j < t.len() ==> (#[trigger] t[j]).club_id@ != key
}

/// Row `j` of the checkpoint's table is the last primary row of its club.
pub open spec fn row_matches(primary: Seq<Standing>, standings: Seq<Standing>, j: int) -> bool {
    &&& exists|i: int| last_row(primary, standings[j].club_id@, i)
    &&& forall|i: int| last_row(primary, standings[j].club_id@, i) ==> same_row(primary[i], standings[j])
}

/// The table the primary league's rows make, keyed by club with the last row
/// of a club counting, is the checkpoint's table (whose clubs are distinct).
pub open spec fn same_table(primary: Seq<Standing>, standings: Seq<Standing>) -> bool {
    &&& forall|a: int, b: int|
        0 <= a < b < standings.len() ==> (#[trigger] standings[a]).club_id@ != (#[trigger] standings[b]).club_id@
    &&& forall|j: int| 0 <= j < standings.len() ==> #[trigger] row_matches(primary, standings, j)
    &&& forall|i: int| 0 <= i < primary.len() ==> club_listed(standings, (#[trigger] primary[i]).club_id@)
}

pub open spec fn club_listed(t: Seq<Standing>, key: Seq<char>) -> bool {
    exists|j: int| 0 <= j < t.len() && (#[trigger] t[j]).club_id@ == key
}

pub open spec fn source_fixtures(sources: Option<CompetitionSources>) -> Option<Seq<SourceFixture>> {
    match sources {
        Some(c) => Some(c.fixtures@),
        None => None,
    }
}

/// Why the checkpoint's fixtures are refused, or `None` when they pass.
/// `clubs` and `standings` list the registered clubs and the table rows in
/// club-ID order; `players` are the known player IDs; `today` is the
/// session's current day; `sources` is what the competition state holds when
/// the game runs one.
pub open spec fn fixture_checkpoint_fault(
    current: Seq<Fixture>,
    archived: Seq<Fixture>,
    clubs: Seq<String>,
    results: Seq<MatchRecord>,
    standings: Seq<Standing>,
    today: u32,
    players: Seq<String>,
    sources: Option<CompetitionSources>,
) -> Option<Seq<char>> {
    let all = current + archived;
    let league = sources is None;
    let src = source_fixtures(sources);
    if !distinct_ids(current) {
        Some("Duplicate current checkpoint fixture"@)
    } else if first_fixture_fault(all, all.len() as int, clubs, league) is Some {
        first_fixture_fault(all, all.len() as int, clubs, league)
    } else if !league && sources->0.primary_standings is None {
        Some("Missing primary competition"@)
    } else if !league && source_conflicts(src->0) {
        Some("Conflicting archived source fixture result"@)
    } else {
        match table_after(all, current, results, today, players, empty_rows(clubs), src) {
            Err(e) => Some(e),
            Ok(t) => {
                let table_ok = if league {
                    same_rows(t, standings)
                } else {
                    same_table(sources->0.primary_standings->0@, standings)
                };
                let covered_ok = if league {
                    covered(all, results, today, Seq::empty(), Seq::empty())
                } else {
                    covered(all, results, today, src->0, date_text(sources->0.epoch.day_number()))
                };
                if !table_ok || !covered_ok {
                    Some("Checkpoint standings or completed-fixture coverage mismatch"@)
                } else {
                    None
                }
            },
        }
    }
}

fn copy_fixture(f: &Fixture) -> (r: Fixture)
    ensures
        r == *f,
{
    Fixture { id: f.id.clone(), day: f.day, home: f.home.clone(), away: f.away.clone(), seed: f.seed }
}

fn joined(a: &Vec<Fixture>, b: &Vec<Fixture>) -> (r: Vec<Fixture>)
    ensures
        r@ == a@ + b@,
{
    let mut out: Vec<Fixture> = Vec::new();
    let mut i: usize = 0;
    while i < a.len()
        invariant
            i <= a@.len(),
            out@ == a@.take(i as int),
        decreases a@.len() - i,
    {
        out.push(copy_fixture(&a[i]));
        i = i + 1;
        assert(out@ =~= a@.take(i as int));
    }
    let mut j: usize = 0;
    while j < b.len()
        invariant
            i == a@.len(),
            j <= b@.len(),
            out@ == a@.take(i as int) + b@.take(j as int),
        decreases b@.len() - j,
    {
        out.push(copy_fixture(&b[j]));
        j = j + 1;
        assert(out@ =~= a@.take(i as int) + b@.take(j as int));
    }
    assert(a@.take(a@.len() as int) =~= a@);
    assert(b@.take(b@.len() as int) =~= b@);
    out
}

fn listed_name(ids: &Vec<String>, name: &String) -> (r: bool)
    ensures
        r == names(ids@, name@),
{
    let mut k: usize = 0;
    while k < ids.len()
        invariant
            k <= ids@.len(),
            forall|j: int| 0 <= j < k ==> (#[trigger] ids@[j])@ != name@,
        decreases ids@.len() - k,
    {
        if ids[k] == *name {
            return true;
        }
        k = k + 1;
    }
    false
}

fn current_ids_distinct(fs: &Vec<Fixture>) -> (r: bool)
    ensures
        r == distinct_ids(fs@),
{
    let mut b: usize = 0;
    while b < fs.len()
        invariant
            b <= fs@.len(),
            forall|x: int, y: int| 0 <= x < y < b ==> (#[trigger] fs@[x]).id@ != (#[trigger] fs@[y]).id@,
        decreases fs@.len() - b,
    {
        let mut a: usize = 0;
        while a < b
            invariant
                a <= b < fs@.len(),
                forall|x: int| 0 <= x < a ==> (#[trigger] fs@[x]).id@ != fs@[b as int].id@,
            decreases b - a,
        {
            if fs[a].id == fs[b].id {
                return false;
            }
            a = a + 1;
        }
        b = b + 1;
    }
    true
}

fn all_listed(ids: &Vec<String>, players: &Vec<String>) -> (r: bool)
    ensures
        r == all_known(ids@, players@),
{
    let mut a: usize = 0;
    while a < ids.len()
        invariant
            a <= ids@.len(),
            forall|x: int| 0 <= x < a ==> names(players@, (#[trigger] ids@[x])@),
        decreases ids@.len() - a,
    {
        if !listed_name(players, &ids[a]) {
            return false;
        }
        a = a + 1;
    }
    true
}

fn lineups_distinct(home: &Vec<String>, away: &Vec<String>) -> (r: bool)
    ensures
        r == distinct_names(home@ + away@),
{
    let mut all: Vec<String> = Vec::new();
    let mut h: usize = 0;
    while h < home.len()
        invariant
            h <= home@.len(),
            all@ == home@.take(h as int),
        decreases home@.len() - h,
    {
        all.push(home[h].clone());
        h = h + 1;
        assert(all@ =~= home@.take(h as int));
    }
    let mut k: usize = 0;
    while k < away.len()
        invariant
            h == home@.len(),
            k <= away@.len(),
            all@ == home@.take(h as int) + away@.take(k as int),
        decreases away@.len() - k,
    {
        all.push(away[k].clone());
        k = k + 1;
        assert(all@ =~= home@.take(h as int) + away@.take(k as int));
    }
    assert(home@.take(home@.len() as int) =~= home@);
    assert(away@.take(away@.len() as int) =~= away@);
    let mut b: usize = 0;
    while b < all.len()
        invariant
            b <= all@.len(),
            all@ == home@ + away@,
            forall|x: int, y: int| 0 <= x < y < b ==> (#[trigger] all@[x])@ != (#[trigger] all@[y])@,
        decreases all@.len() - b,
    {
        let mut a: usize = 0;
        while a < b
            invariant
                a <= b < all@.len(),
                all@ == home@ + away@,
                forall|x: int| 0 <= x < a ==> (#[trigger] all@[x])@ != all@[b as int]@,
            decreases b - a,
        {
            if all[a] == all[b] {
                assert(all@[a as int]@ == all@[b as int]@);
                return false;
            }
            a = a + 1;
        }
        b = b + 1;
    }
    true
}

fn same_slot(a: &Fixture, b: &Fixture) -> (r: bool)
    ensures
        r == shares_slot(*a, *b),
{
    a.day == b.day && (b.home == a.home || b.home == a.away || b.away == a.home || b.away == a.away)
}

fn fixture_check(all: &Vec<Fixture>, k: usize, clubs: &Vec<String>, league: bool) -> (r: Result<(), String>)
    requires
        k < all@.len(),
    ensures
        match fixture_fault(all@, k as int, clubs@, league) {
            None => r is Ok,
            Some(m) => r matches Err(e) && e@ == m,
        },
{
    let f = &all[k];
    let mut bad = is_blank(f.id.as_str()) || f.home == f.away || !listed_name(clubs, &f.home) || !listed_name(
        clubs,
        &f.away,
    );
    let mut j: usize = 0;
    while league && j < k && !bad
        invariant
            j <= k < all@.len(),
            *f == all@[k as int],
            !bad ==> forall|x: int| 0 <= x < j ==> !shares_slot(#[trigger] all@[x], all@[k as int]),
            bad ==> calendar_broken(all@, k as int, clubs@, league),
            (is_blank_spec(all@[k as int].id@) || all@[k as int].home@ == all@[k as int].away@ || !names(
                clubs@,
                all@[k as int].home@,
            ) || !names(clubs@, all@[k as int].away@)) ==> bad,
        decreases k - j,
    {
        if same_slot(&all[j], f) {
            bad = true;
        }
        j = j + 1;
    }
    if bad {
        return Err(String::from_str("Invalid checkpoint fixture calendar"));
    }
    proof {
        if league {
            assert(j == k);
            assert(!(exists|x: int| 0 <= x < k as int && #[trigger] shares_slot(all@[x], all@[k as int])));
        }
    }
    let mut j: usize = 0;
    while j < k
        invariant
            j <= k < all@.len(),
            *f == all@[k as int],
            !calendar_broken(all@, k as int, clubs@, league),
            forall|x: int|
                0 <= x < j ==> !((#[trigger] all@[x]).id@ == all@[k as int].id@ && (league || !same_shape(
                    all@[x],
                    all@[k as int],
                ))),
        decreases k - j,
    {
        let g = &all[j];
        if g.id == f.id && (league || !(g.day == f.day && g.home == f.home && g.away == f.away && g.seed == f.seed)) {
            return Err(String::from_str("Conflicting checkpoint fixture identity"));
        }
        j = j + 1;
    }
    Ok(())
}

fn record_check(
    all: &Vec<Fixture>,
    results: &Vec<MatchRecord>,
    k: usize,
    today: u32,
    players: &Vec<String>,
    sources: &Option<CompetitionSources>,
) -> (r: Result<(), String>)
    requires
        k < results@.len(),
    ensures
        match record_fault(all@, results@, k as int, today, players@, source_fixtures(*sources)) {
            None => r is Ok,
            Some(m) => r matches Err(e) && e@ == m,
        },
{
    let r = &results[k];
    let mut found = false;
    let mut agrees = true;
    let mut i: usize = 0;
    while i < all.len()
        invariant
            i <= all@.len(),
            found == exists|x: int| 0 <= x < i && (#[trigger] all@[x]).id@ == r.fixture_id@,
            agrees == forall|x: int|
                0 <= x < i && (#[trigger] all@[x]).id@ == r.fixture_id@ ==> all@[x].day == r.day && all@[x].home@
                    == r.home@ && all@[x].away@ == r.away@,
        decreases all@.len() - i,
    {
        if all[i].id == r.fixture_id {
            found = true;
            if !(all[i].day == r.day && all[i].home == r.home && all[i].away == r.away) {
                agrees = false;
            }
        }
        i = i + 1;
    }
    if !found {
        return Err(String::from_str("Checkpoint result has no fixture"));
    }
    let mut repeated = false;
    let mut j: usize = 0;
    while j < k
        invariant
            j <= k < results@.len(),
            repeated == exists|x: int| 0 <= x < j && (#[trigger] results@[x]).fixture_id@ == r.fixture_id@,
        decreases k - j,
    {
        if results[j].fixture_id == r.fixture_id {
            repeated = true;
        }
        j = j + 1;
    }
    if repeated || r.day >= today || !agrees || !r.possession_valid || !all_listed(&r.stat_player_ids, players) {
        return Err(String::from_str("Invalid checkpoint result references"));
    }
    if let Some(c) = sources {
        if !source_agreement(&c.fixtures, r) {
            return Err(String::from_str("Runtime report disagrees with source fixture result"));
        }
    }
    if r.home_starting_xi.len() != 11 || r.away_starting_xi.len() != 11 || !lineups_distinct(
        &r.home_starting_xi,
        &r.away_starting_xi,
    ) {
        return Err(String::from_str("Invalid checkpoint historical starting lineups"));
    }
    if !lineups_known(&r.home_starting_xi, &r.away_starting_xi, players) {
        return Err(String::from_str("Invalid checkpoint historical starting lineups"));
    }
    Ok(())
}

fn lineups_known(home: &Vec<String>, away: &Vec<String>, players: &Vec<String>) -> (r: bool)
    ensures
        r == all_known(home@ + away@, players@),
{
    let mut a: usize = 0;
    while a < home.len()
        invariant
            a <= home@.len(),
            forall|x: int| 0 <= x < a ==> names(players@, (#[trigger] (home@ + away@)[x])@),
        decreases home@.len() - a,
    {
        assert((home@ + away@)[a as int] == home@[a as int]);
        if !listed_name(players, &home[a]) {
            return false;
        }
        a = a + 1;
    }
    let mut b: usize = 0;
    while b < away.len()
        invariant
            a == home@.len(),
            b <= away@.len(),
            forall|x: int| 0 <= x < a + b ==> names(players@, (#[trigger] (home@ + away@)[x])@),
        decreases away@.len() - b,
    {
        assert((home@ + away@)[a + b] == away@[b as int]);
        if !listed_name(players, &away[b]) {
            return false;
        }
        b = b + 1;
    }
    true
}

fn source_agreement(src: &Vec<SourceFixture>, r: &MatchRecord) -> (ok: bool)
    ensures
        ok == source_agrees(src@, *r),
{
    let mut found = false;
    let mut agrees = true;
    let mut j: usize = 0;
    while j < src.len()
        invariant
            j <= src@.len(),
            found == exists|x: int| 0 <= x < j && (#[trigger] src@[x]).id@ == r.fixture_id@ && src@[x].result is Some,
            agrees == forall|x: int|
                0 <= x < j && (#[trigger] src@[x]).id@ == r.fixture_id@ && src@[x].result is Some ==> src@[x].home@
                    == r.home@ && src@[x].away@ == r.away@ && src@[x].result == Some((r.home_goals, r.away_goals)),
        decreases src@.len() - j,
    {
        let f = &src[j];
        if f.id == r.fixture_id {
            match f.result {
                Some((h, a)) => {
                    found = true;
                    if !(f.home == r.home && f.away == r.away && h == r.home_goals && a == r.away_goals) {
                        agrees = false;
                    }
                },
                None => {},
            }
        }
        j = j + 1;
    }
    found && agrees
}

fn same_result(a: Option<(u8, u8)>, b: Option<(u8, u8)>) -> (r: bool)
    ensures
        r == (a == b),
{
    match (a, b) {
        (Some((x, y)), Some((z, w))) => x == z && y == w,
        (None, None) => true,
        _ => false,
    }
}

fn source_conflict_found(src: &Vec<SourceFixture>) -> (r: bool)
    ensures
        r == source_conflicts(src@),
{
    let mut k: usize = 0;
    while k < src.len()
        invariant
            k <= src@.len(),
            forall|x: int| 0 <= x < k ==> !#[trigger] source_conflict(src@, x),
        decreases src@.len() - k,
    {
        if src[k].result.is_some() {
            let mut j: usize = 0;
            while j < k
                invariant
                    j <= k < src@.len(),
                    src@[k as int].result is Some,
                    forall|x: int|
                        0 <= x < j ==> !((#[trigger] src@[x]).id@ == src@[k as int].id@ && src@[x].result is Some && !(
                        src@[x].date@ == src@[k as int].date@ && src@[x].home@ == src@[k as int].home@ && src@[x].away@
                            == src@[k as int].away@ && src@[x].result == src@[k as int].result)),
                decreases k - j,
            {
                let a = &src[j];
                let b = &src[k];
                if a.id == b.id && a.result.is_some() && !(a.date == b.date && a.home == b.home && a.away == b.away
                    && same_result(a.result, b.result)) {
                    proof {
                        assert(source_conflict(src@, k as int));
                    }
                    return true;
                }
                j = j + 1;
            }
        }
        k = k + 1;
    }
    false
}

fn last_row_of(t: &Vec<Standing>, key: &String) -> (r: Option<usize>)
    ensures
        r matches Some(i) ==> last_row(t@, key@, i as int),
        r is None ==> forall|i: int| 0 <= i < t@.len() ==> (#[trigger] t@[i]).club_id@ != key@,
{
    let mut i: usize = t.len();
    while i > 0
        invariant
            i <= t@.len(),
            forall|j: int| i <= j < t@.len() ==> (#[trigger] t@[j]).club_id@ != key@,
        decreases i,
    {
        i = i - 1;
        if t[i].club_id == *key {
            return Some(i);
        }
    }
    None
}

fn tables_agree(primary: &Vec<Standing>, standings: &Vec<Standing>) -> (r: bool)
    ensures
        r == same_table(primary@, standings@),
{
    let mut b: usize = 0;
    while b < standings.len()
        invariant
            b <= standings@.len(),
            forall|x: int, y: int|
                0 <= x < y < b ==> (#[trigger] standings@[x]).club_id@ != (#[trigger] standings@[y]).club_id@,
        decreases standings@.len() - b,
    {
        let mut a: usize = 0;
        while a < b
            invariant
                a <= b < standings@.len(),
                forall|x: int| 0 <= x < a ==> (#[trigger] standings@[x]).club_id@ != standings@[b as int].club_id@,
            decreases b - a,
        {
            if standings[a].club_id == standings[b].club_id {
                assert(standings@[a as int].club_id@ == standings@[b as int].club_id@);
                return false;
            }
            a = a + 1;
        }
        b = b + 1;
    }
    let mut j: usize = 0;
    while j < standings.len()
        invariant
            j <= standings@.len(),
            forall|x: int, y: int|
                0 <= x < y < standings@.len() ==> (#[trigger] standings@[x]).club_id@
                    != (#[trigger] standings@[y]).club_id@,
            forall|x: int| 0 <= x < j ==> #[trigger] row_matches(primary@, standings@, x),
        decreases standings@.len() - j,
    {
        let i = match last_row_of(primary, &standings[j].club_id) {
            Some(i) => i,
            None => {
                proof {
                    assert(!(exists|i: int| last_row(primary@, standings@[j as int].club_id@, i)));
                    assert(!row_matches(primary@, standings@, j as int));
                }
                return false;
            },
        };
        proof {
            assert forall|q: int| last_row(primary@, standings@[j as int].club_id@, q) implies q == i as int by {
                if q < i {
                    assert(primary@[i as int].club_id@ != standings@[j as int].club_id@);
                } else if q > i {
                    assert(primary@[q].club_id@ != standings@[j as int].club_id@);
                }
            };
        }
        let x = &primary[i];
        let y = &standings[j];
        if !(x.club_id == y.club_id && x.played == y.played && x.won == y.won && x.drawn == y.drawn && x.lost
            == y.lost && x.goals_for == y.goals_for && x.goals_against == y.goals_against && x.points
            == y.points) {
            proof {
                assert(last_row(primary@, standings@[j as int].club_id@, i as int));
                assert(!same_row(primary@[i as int], standings@[j as int]));
                assert(!row_matches(primary@, standings@, j as int));
            }
            return false;
        }
        proof {
            assert(last_row(primary@, standings@[j as int].club_id@, i as int));
            assert(row_matches(primary@, standings@, j as int));
        }
        j = j + 1;
    }
    let mut i: usize = 0;
    while i < primary.len()
        invariant
            i <= primary@.len(),
            forall|x: int, y: int|
                0 <= x < y < standings@.len() ==> (#[trigger] standings@[x]).club_id@
                    != (#[trigger] standings@[y]).club_id@,
            forall|x: int| 0 <= x < standings@.len() ==> #[trigger] row_matches(primary@, standings@, x),
            forall|x: int| 0 <= x < i ==> club_listed(standings@, (#[trigger] primary@[x]).club_id@),
        decreases primary@.len() - i,
    {
        let mut found = false;
        let mut j: usize = 0;
        while j < standings.len()
            invariant
                i < primary@.len(),
                j <= standings@.len(),
                found == exists|y: int|
                    0 <= y < j && (#[trigger] standings@[y]).club_id@ == primary@[i as int].club_id@,
            decreases standings@.len() - j,
        {
            if standings[j].club_id == primary[i].club_id {
                found = true;
            }
            j = j + 1;
        }
        if !found {
            proof {
                assert(!club_listed(standings@, primary@[i as int].club_id@));
            }
            return false;
        }
        i = i + 1;
    }
    true
}

fn credit_row(row: &Standing, scored: u8, conceded: u8) -> (r: Option<Standing>)
    ensures
        r == credited_row(*row, scored as int, conceded as int),
{
    let played = match row.played.checked_add(1) {
        Some(v) => v,
        None => return None,
    };
    let goals_for = match row.goals_for.checked_add(scored as u32) {
        Some(v) => v,
        None => return None,
    };
    let goals_against = match row.goals_against.checked_add(conceded as u32) {
        Some(v) => v,
        None => return None,
    };
    let club_id = row.club_id.clone();
    if scored > conceded {
        if row.won == u32::MAX || row.points > u32::MAX - 3 {
            return None;
        }
        Some(
            Standing {
                club_id,
                played,
                won: row.won + 1,
                drawn: row.drawn,
                lost: row.lost,
                goals_for,
                goals_against,
                points: row.points + 3,
            },
        )
    } else if scored == conceded {
        if row.drawn == u32::MAX || row.points == u32::MAX {
            return None;
        }
        Some(
            Standing {
                club_id,
                played,
                won: row.won,
                drawn: row.drawn + 1,
                lost: row.lost,
                goals_for,
                goals_against,
                points: row.points + 1,
            },
        )
    } else {
        if row.lost == u32::MAX {
            return None;
        }
        Some(
            Standing {
                club_id,
                played,
                won: row.won,
                drawn: row.drawn,
                lost: row.lost + 1,
                goals_for,
                goals_against,
                points: row.points,
            },
        )
    }
}

fn credit_club(t: &mut Vec<Standing>, club: &String, scored: u8, conceded: u8) -> (r: Result<(), String>)
    ensures
        match credit(old(t)@, club@, scored as int, conceded as int) {
            Ok(n) => r is Ok && final(t)@ == n,
            Err(m) => r matches Err(e) && e@ == m,
        },
{
    let mut i: usize = 0;
    while i < t.len()
        invariant
            i <= t@.len(),
            t@ == old(t)@,
            forall|x: int| 0 <= x < i ==> (#[trigger] t@[x]).club_id@ != club@,
        decreases t@.len() - i,
    {
        if t[i].club_id == *club {
            proof {
                assert(first_row(t@, club@, i as int));
                assert forall|y: int| first_row(t@, club@, y) implies y == i as int by {
                    if y < i {
                        assert(t@[y].club_id@ != club@);
                    } else if y > i {
                        assert(t@[i as int].club_id@ != club@);
                    }
                };
            }
            let row = match credit_row(&t[i], scored, conceded) {
                Some(row) => row,
                None => return Err(String::from_str("Checkpoint standings overflow")),
            };
            t.set(i, row);
            return Ok(());
        }
        i = i + 1;
    }
    Err(String::from_str("Checkpoint standing missing club"))
}

fn rows_agree(a: &Vec<Standing>, b: &Vec<Standing>) -> (r: bool)
    ensures
        r == same_rows(a@, b@),
{
    if a.len() != b.len() {
        return false;
    }
    let mut i: usize = 0;
    while i < a.len()
        invariant
            i <= a@.len(),
            a@.len() == b@.len(),
            forall|x: int| 0 <= x < i ==> same_row(#[trigger] a@[x], b@[x]),
        decreases a@.len() - i,
    {
        let x = &a[i];
        let y = &b[i];
        if !(x.club_id == y.club_id && x.played == y.played && x.won == y.won && x.drawn == y.drawn && x.lost
            == y.lost && x.goals_for == y.goals_for && x.goals_against == y.goals_against && x.points
            == y.points) {
            return false;
        }
        i = i + 1;
    }
    true
}

fn imported_fixture(src: &Vec<SourceFixture>, epoch_text: &String, id: &String) -> (r: bool)
    ensures
        r == imported(src@, epoch_text@, id@),
{
    let mut j: usize = 0;
    while j < src.len()
        invariant
            j <= src@.len(),
            forall|x: int|
                0 <= x < j ==> !((#[trigger] src@[x]).id@ == id@ && src@[x].completed && text_le(
                    src@[x].date@,
                    epoch_text@,
                )),
        decreases src@.len() - j,
    {
        let f = &src[j];
        if f.id == *id && f.completed && text_at_most(f.date.as_str(), epoch_text.as_str()) {
            return true;
        }
        j = j + 1;
    }
    false
}

fn all_finished(
    all: &Vec<Fixture>,
    results: &Vec<MatchRecord>,
    today: u32,
    src: &Vec<SourceFixture>,
    epoch_text: &String,
) -> (r: bool)
    ensures
        r == covered(all@, results@, today, src@, epoch_text@),
{
    let mut i: usize = 0;
    while i < all.len()
        invariant
            i <= all@.len(),
            forall|x: int|
                0 <= x < i && (#[trigger] all@[x]).day < today ==> (exists|k: int|
                    0 <= k < results@.len() && (#[trigger] results@[k]).fixture_id@ == all@[x].id@) || imported(
                    src@,
                    epoch_text@,
                    all@[x].id@,
                ),
        decreases all@.len() - i,
    {
        if all[i].day < today {
            let mut found = false;
            let mut k: usize = 0;
            while k < results.len()
                invariant
                    k <= results@.len(),
                    i < all@.len(),
                    found == exists|y: int| 0 <= y < k && (#[trigger] results@[y]).fixture_id@ == all@[i as int].id@,
                decreases results@.len() - k,
            {
                if results[k].fixture_id == all[i].id {
                    found = true;
                }
                k = k + 1;
            }
            if !found && !imported_fixture(src, epoch_text, &all[i].id) {
                return false;
            }
        }
        i = i + 1;
    }
    true
}

fn is_current_fixture(current: &Vec<Fixture>, id: &String) -> (r: bool)
    ensures
        r == is_current(current@, id@),
{
    let mut i: usize = 0;
    while i < current.len()
        invariant
            i <= current@.len(),
            forall|x: int| 0 <= x < i ==> (#[trigger] current@[x]).id@ != id@,
        decreases current@.len() - i,
    {
        if current[i].id == *id {
            return true;
        }
        i = i + 1;
    }
    false
}

proof fn lemma_record_fault_prefix(
    all: Seq<Fixture>,
    results: Seq<MatchRecord>,
    k: int,
    today: u32,
    players: Seq<String>,
    src: Option<Seq<SourceFixture>>,
)
    requires
        0 <= k < results.len(),
    ensures
        record_fault(all, results.take(k + 1), k, today, players, src) == record_fault(
            all,
            results,
            k,
            today,
            players,
            src,
        ),
{
    let p = results.take(k + 1);
    assert(p[k] == results[k]);
    assert forall|j: int| 0 <= j < k implies #[trigger] p[j] == results[j] by {};
    assert((exists|j: int| 0 <= j < k && (#[trigger] p[j]).fixture_id@ == p[k].fixture_id@) == (exists|j: int|
        0 <= j < k && (#[trigger] results[j]).fixture_id@ == results[k].fixture_id@)) by {
        if exists|j: int| 0 <= j < k && (#[trigger] results[j]).fixture_id@ == results[k].fixture_id@ {
            let j = choose|j: int| 0 <= j < k && (#[trigger] results[j]).fixture_id@ == results[k].fixture_id@;
            assert(p[j] == results[j]);
        }
    };
}

proof fn lemma_fixture_fault_stays(all: Seq<Fixture>, clubs: Seq<String>, league: bool, n: int, m: int)
    requires
        0 <= n <= m,
        first_fixture_fault(all, n, clubs, league) is Some,
    ensures
        first_fixture_fault(all, m, clubs, league) == first_fixture_fault(all, n, clubs, league),
    decreases m - n,
{
    if m > n {
        lemma_fixture_fault_stays(all, clubs, league, n, m - 1);
    }
}

proof fn lemma_table_error_stays(
    all: Seq<Fixture>,
    current: Seq<Fixture>,
    results: Seq<MatchRecord>,
    today: u32,
    players: Seq<String>,
    rows: Seq<Standing>,
    src: Option<Seq<SourceFixture>>,
    n: int,
    m: int,
)
    requires
        0 <= n <= m <= results.len(),
        table_after(all, current, results.take(n), today, players, rows, src) is Err,
    ensures
        table_after(all, current, results.take(m), today, players, rows, src) == table_after(
            all,
            current,
            results.take(n),
            today,
            players,
            rows,
            src,
        ),
    decreases m - n,
{
    if m > n {
        lemma_table_error_stays(all, current, results, today, players, rows, src, n, m - 1);
        assert(results.take(m).drop_last() =~= results.take(m - 1));
    }
}

/// Check the fixture part of a checkpoint: `current` and `archived`
/// fixtures, the finished matches in `results`, and the league table
/// `standings`, against the registered `clubs`, the known `players`, the
/// session's day `today` and, when the game runs a competition state, what
/// that state holds.
pub fn validate_fixture_checkpoint(
    current: &Vec<Fixture>,
    archived: &Vec<Fixture>,
    clubs: &Vec<String>,
    results: &Vec<MatchRecord>,
    standings: &Vec<Standing>,
    today: u32,
    players: &Vec<String>,
    sources: &Option<CompetitionSources>,
) -> (r: Result<(), String>)
    ensures
        match fixture_checkpoint_fault(current@, archived@, clubs@, results@, standings@, today, players@, *sources) {
            None => r is Ok,
            Some(m) => r matches Err(e) && e@ == m,
        },
{
    let ghost src = source_fixtures(*sources);
    let league = sources.is_none();
    if !current_ids_distinct(current) {
        return Err(String::from_str("Duplicate current checkpoint fixture"));
    }
    let all = joined(current, archived);
    let mut k: usize = 0;
    while k < all.len()
        invariant
            k <= all@.len(),
            all@ == current@ + archived@,
            league == (sources is None),
            distinct_ids(current@),
            first_fixture_fault(all@, k as int, clubs@, league) is None,
        decreases all@.len() - k,
    {
        if let Err(e) = fixture_check(&all, k, clubs, league) {
            proof {
                lemma_fixture_fault_stays(all@, clubs@, league, k as int + 1, all@.len() as int);
            }
            return Err(e);
        }
        k = k + 1;
    }
    if let Some(c) = sources {
        if c.primary_standings.is_none() {
            return Err(String::from_str("Missing primary competition"));
        }
        if source_conflict_found(&c.fixtures) {
            return Err(String::from_str("Conflicting archived source fixture result"));
        }
    }
    let mut table: Vec<Standing> = Vec::new();
    let mut c: usize = 0;
    while c < clubs.len()
        invariant
            c <= clubs@.len(),
            table@ == empty_rows(clubs@).take(c as int),
            all@ == current@ + archived@,
            league == (sources is None),
            src == source_fixtures(*sources),
            distinct_ids(current@),
            first_fixture_fault(all@, all@.len() as int, clubs@, league) is None,
            !league ==> sources->0.primary_standings is Some && !source_conflicts(src->0),
        decreases clubs@.len() - c,
    {
        table.push(Standing::new(clubs[c].clone()));
        c = c + 1;
        assert(table@ =~= empty_rows(clubs@).take(c as int));
    }
    assert(empty_rows(clubs@).take(clubs@.len() as int) =~= empty_rows(clubs@));
    let mut k: usize = 0;
    while k < results.len()
        invariant
            k <= results@.len(),
            all@ == current@ + archived@,
            league == (sources is None),
            src == source_fixtures(*sources),
            distinct_ids(current@),
            first_fixture_fault(all@, all@.len() as int, clubs@, league) is None,
            !league ==> sources->0.primary_standings is Some && !source_conflicts(src->0),
            table_after(all@, current@, results@.take(k as int), today, players@, empty_rows(clubs@), src) == Ok::<
                Seq<Standing>,
                Seq<char>,
            >(table@),
        decreases results@.len() - k,
    {
        proof {
            assert(results@.take(k as int + 1).drop_last() =~= results@.take(k as int));
            assert(results@.take(k as int + 1).last() == results@[k as int]);
            lemma_record_fault_prefix(all@, results@, k as int, today, players@, src);
        }
        let ghost taken = results@.take(k as int + 1);
        if let Err(e) = record_check(&all, results, k, today, players, sources) {
            proof {
                assert(table_after(all@, current@, taken, today, players@, empty_rows(clubs@), src) == Err::<
                    Seq<Standing>,
                    Seq<char>,
                >(e@));
                lemma_table_error_stays(
                    all@,
                    current@,
                    results@,
                    today,
                    players@,
                    empty_rows(clubs@),
                    src,
                    k as int + 1,
                    results@.len() as int,
                );
                assert(results@.take(results@.len() as int) =~= results@);
            }
            return Err(e);
        }
        let r = &results[k];
        if league && is_current_fixture(current, &r.fixture_id) {
            if let Err(e) = credit_club(&mut table, &r.home, r.home_goals, r.away_goals) {
                proof {
                    assert(table_after(all@, current@, taken, today, players@, empty_rows(clubs@), src) == Err::<
                        Seq<Standing>,
                        Seq<char>,
                    >(e@));
                    lemma_table_error_stays(
                        all@,
                        current@,
                        results@,
                        today,
                        players@,
                        empty_rows(clubs@),
                        src,
                        k as int + 1,
                        results@.len() as int,
                    );
                    assert(results@.take(results@.len() as int) =~= results@);
                }
                return Err(e);
            }
            if let Err(e) = credit_club(&mut table, &r.away, r.away_goals, r.home_goals) {
                proof {
                    assert(table_after(all@, current@, taken, today, players@, empty_rows(clubs@), src) == Err::<
                        Seq<Standing>,
                        Seq<char>,
                    >(e@));
                    lemma_table_error_stays(
                        all@,
                        current@,
                        results@,
                        today,
                        players@,
                        empty_rows(clubs@),
                        src,
                        k as int + 1,
                        results@.len() as int,
                    );
                    assert(results@.take(results@.len() as int) =~= results@);
                }
                return Err(e);
            }
        }
        k = k + 1;
    }
    assert(results@.take(results@.len() as int) =~= results@);
    let agreed = match sources {
        None => rows_agree(&table, standings),
        Some(c) => match &c.primary_standings {
            Some(primary) => tables_agree(primary, standings),
            None => false,
        },
    };
    let finished = match sources {
        None => all_finished(&all, results, today, &Vec::new(), &String::new()),
        Some(c) => all_finished(&all, results, today, &c.fixtures, &c.epoch.to_text()),
    };
    if !agreed || !finished {
        return Err(String::from_str("Checkpoint standings or completed-fixture coverage mismatch"));
    }
    Ok(())
}

} // verus!
