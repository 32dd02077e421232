//! The competition part of a saved game: the competition setup (which
//! competitions exist, which is the primary league, which are active and in
//! which order they run) and every competition record, current and archived,
//! with its identity, bounds, membership, calendar bounds, fixtures, groups
//! and knockout rounds.
//! How completed results add up to the league and group tables rests on the
//! table rules of the league records, which this check does not hold.
use vstd::prelude::*;
use crate::dates::{Date, calendar_year, parsed_ymd, ymd_day_number};
use crate::fixture_checkpoint::{distinct_names, names};

verus! {

#[derive(Debug, Clone, Copy, PartialEq, Eq, Structural)]
pub enum CompetitionType {
    League,
    Cup,
    FriendlyCup,
    ContinentalClub,
    InternationalClub,
    InternationalNation,
}

#[derive(Debug, Clone, Copy, PartialEq, Eq, Structural)]
pub enum CompetitionFormat {
    LeagueTable,
    GroupAndKnockout,
    Knockout,
}

#[derive(Debug, Clone, Copy, PartialEq, Eq, Structural)]
pub enum FixtureStatus {
    Scheduled,
    InProgress,
    Completed,
}

#[derive(Debug, Clone, Copy, PartialEq, Eq, Structural)]
pub struct CompetitionRules {
    pub format: CompetitionFormat,
    pub group_qualifiers_per_group: u32,
    pub group_best_third_qualifiers: u32,
    pub group_stage_legs: u8,
    pub group_matchday_gap_days: u32,
    pub knockout_round_gap_days: u32,
    pub knockout_matches_per_day: u32,
}

/// A competition fixture: its `%Y-%m-%d` date, clubs, status and whether a
/// result is recorded.
#[derive(Debug, Clone, PartialEq, Eq)]
pub struct CompetitionFixture {
    pub id: String,
    pub date: String,
    pub home_team_id: String,
    pub away_team_id: String,
    pub status: FixtureStatus,
    pub has_result: bool,
}

/// A group of a group stage and its clubs.
#[derive(Debug, Clone, PartialEq, Eq)]
pub struct CompetitionGroup {
    pub id: String,
    pub team_ids: Vec<String>,
}

/// A knockout round: its fixtures, the clubs with a bye, and whether it is over.
#[derive(Debug, Clone, PartialEq, Eq)]
pub struct KnockoutRound {
    pub fixture_ids: Vec<String>,
    pub bye_team_ids: Vec<String>,
    pub completed: bool,
}

/// A competition as recorded under `key` in its collection.
#[derive(Debug, Clone, PartialEq, Eq)]
pub struct CompetitionRecord {
    pub key: String,
    pub id: String,
    pub kind: CompetitionType,
    pub season: u32,
    pub participant_ids: Vec<String>,
    pub groups: Vec<CompetitionGroup>,
    pub knockout_rounds: Vec<KnockoutRound>,
    pub rules: CompetitionRules,
    pub season_start_month: u8,
    pub season_start_day: u8,
    pub fixtures: Vec<CompetitionFixture>,
}

/// The competition state of a saved game. Competitions are listed in key
/// order, as are the keys of `club_regions`.
#[derive(Debug, Clone, PartialEq, Eq)]
pub struct CompetitionCheckpoint {
    pub competitions: Vec<CompetitionRecord>,
    pub primary_competition_id: String,
    pub active_competition_ids: Vec<String>,
    pub competition_order: Vec<String>,
    pub catch_up_past: bool,
    pub club_regions: Vec<String>,
    pub epoch_date: Date,
    pub epoch_day: u32,
    pub archives: Vec<Vec<CompetitionRecord>>,
}

/// The year as counted in the common era: year 0 is 1 BCE.
pub open spec fn era_year(y: int) -> int {
    if y >= 1 {
        y
    } else {
        1 - y
    }
}

/// A competition's identity, bounds, membership and calendar bounds.
/// `national` holds the national teams when the national lifecycle runs.
pub open spec fn competition_ok(c: CompetitionRecord, clubs: Seq<String>, national: Option<Seq<String>>) -> bool {
    &&& c.key@.len() > 0
    &&& c.key@ == c.id@
    &&& c.season != 0
    &&& 2 <= c.participant_ids@.len() <= 128
    &&& c.groups@.len() <= 128
    &&& c.knockout_rounds@.len() <= 128
    &&& 1 <= c.rules.group_qualifiers_per_group <= 128
    &&& c.rules.group_best_third_qualifiers <= 128
    &&& 1 <= c.rules.knockout_matches_per_day <= 128
    &&& c.fixtures@.len() <= 65536
    &&& c.rules.knockout_round_gap_days != 0
    &&& (c.kind == CompetitionType::InternationalNation ==> national is Some)
    &&& distinct_names(c.participant_ids@)
    &&& forall|i: int|
        0 <= i < c.participant_ids@.len() ==> if c.kind == CompetitionType::InternationalNation {
            names(national->0, (#[trigger] c.participant_ids@[i])@)
        } else {
            names(clubs, c.participant_ids@[i]@)
        }
    &&& 1 <= c.rules.knockout_round_gap_days <= 3660
    &&& 1 <= c.rules.group_matchday_gap_days <= 3660
    &&& 1 <= c.rules.group_stage_legs <= 4
    &&& ymd_day_number(2001, c.season_start_month as int, c.season_start_day as int) is Some
}

/// A fixture of `c`: a readable date no later than the year 9000, a nonempty
/// ID, two different members, a result exactly when completed and never in
/// progress, and, unless catching up, not scheduled before the epoch.
pub open spec fn fixture_ok(f: CompetitionFixture, c: CompetitionRecord, epoch: Date, catch_up: bool) -> bool {
    &&& parsed_ymd(f.date@) is Some
    &&& era_year(calendar_year(parsed_ymd(f.date@)->0)) <= 9000
    &&& f.id@.len() > 0
    &&& names(c.participant_ids@, f.home_team_id@)
    &&& names(c.participant_ids@, f.away_team_id@)
    &&& f.home_team_id@ != f.away_team_id@
    &&& (f.status == FixtureStatus::Completed) == f.has_result
    &&& f.status != FixtureStatus::InProgress
    &&& !(f.status == FixtureStatus::Scheduled && parsed_ymd(f.date@)->0 < epoch.day_number() && !catch_up)
}

pub open spec fn fixture_ids(fs: Seq<CompetitionFixture>) -> Seq<Seq<char>> {
    fs.map_values(|f: CompetitionFixture| f.id@)
}

pub open spec fn texts(v: Seq<String>) -> Seq<Seq<char>> {
    v.map_values(|s: String| s@)
}

/// The clubs of all groups, group by group.
pub open spec fn group_teams(gs: Seq<CompetitionGroup>) -> Seq<String>
    decreases gs.len(),
{
    if gs.len() == 0 {
        Seq::empty()
    } else {
        group_teams(gs.drop_last()) + gs.last().team_ids@
    }
}

/// Groups have nonempty distinct IDs and members of the competition, no club
/// is in two places, and a group-and-knockout competition puts every member
/// in a group.
pub open spec fn groups_ok(c: CompetitionRecord) -> bool {
    let gs = c.groups@;
    let teams = group_teams(gs);
    &&& forall|g: int| 0 <= g < gs.len() ==> (#[trigger] gs[g]).id@.len() > 0
    &&& forall|a: int, b: int| 0 <= a < b < gs.len() ==> (#[trigger] gs[a]).id@ != (#[trigger] gs[b]).id@
    &&& forall|t: int| 0 <= t < teams.len() ==> names(c.participant_ids@, (#[trigger] teams[t])@)
    &&& distinct_names(teams)
    &&& c.rules.format == CompetitionFormat::GroupAndKnockout ==> forall|m: int|
        0 <= m < c.participant_ids@.len() ==> names(teams, (#[trigger] c.participant_ids@[m])@)
}

pub open spec fn has_fixture(c: CompetitionRecord, id: Seq<char>) -> bool {
    exists|f: int| 0 <= f < c.fixtures@.len() && (#[trigger] c.fixtures@[f]).id@ == id
}

pub open spec fn fixture_completed(c: CompetitionRecord, id: Seq<char>) -> bool {
    forall|f: int|
        0 <= f < c.fixtures@.len() && (#[trigger] c.fixtures@[f]).id@ == id ==> c.fixtures@[f].status
            == FixtureStatus::Completed
}

/// Knockout rounds name fixtures of the competition, each once, give byes
/// only to members, and a completed round has only completed fixtures.
pub open spec fn round_ok(c: CompetitionRecord, r: KnockoutRound) -> bool {
    &&& forall|k: int| 0 <= k < r.fixture_ids@.len() ==> has_fixture(c, (#[trigger] r.fixture_ids@[k])@)
    &&& forall|k: int| 0 <= k < r.bye_team_ids@.len() ==> names(c.participant_ids@, (#[trigger] r.bye_team_ids@[k])@)
    &&& distinct_names(r.fixture_ids@)
    &&& r.completed ==> forall|k: int|
        0 <= k < r.fixture_ids@.len() ==> fixture_completed(c, (#[trigger] r.fixture_ids@[k])@)
}

pub open spec fn structure_ok(c: CompetitionRecord) -> bool {
    &&& groups_ok(c)
    &&& forall|r: int| 0 <= r < c.knockout_rounds@.len() ==> round_ok(c, #[trigger] c.knockout_rounds@[r])
}

/// The fixture IDs of a collection, competition by competition.
pub open spec fn collection_fixture_ids(coll: Seq<CompetitionRecord>) -> Seq<Seq<char>>
    decreases coll.len(),
{
    if coll.len() == 0 {
        Seq::empty()
    } else {
        collection_fixture_ids(coll.drop_last()) + fixture_ids(coll.last().fixtures@)
    }
}

pub open spec fn distinct_texts(s: Seq<Seq<char>>) -> bool {
    forall|a: int, b: int| 0 <= a < b < s.len() ==> #[trigger] s[a] != #[trigger] s[b]
}

/// Every competition of a collection and each of its fixtures pass, and no
/// fixture ID repeats in the collection.
pub open spec fn collection_ok(
    coll: Seq<CompetitionRecord>,
    clubs: Seq<String>,
    national: Option<Seq<String>>,
    epoch: Date,
    catch_up: bool,
) -> bool {
    &&& forall|i: int| 0 <= i < coll.len() ==> competition_ok(#[trigger] coll[i], clubs, national)
    &&& forall|i: int| 0 <= i < coll.len() ==> structure_ok(#[trigger] coll[i])
    &&& forall|i: int, j: int|
        0 <= i < coll.len() && 0 <= j < coll[i].fixtures@.len() ==> fixture_ok(
            #[trigger] coll[i].fixtures@[j],
            coll[i],
            epoch,
            catch_up,
        )
    &&& distinct_texts(collection_fixture_ids(coll))
}

/// `i` is the first competition recorded under `key`.
pub open spec fn first_key(comps: Seq<CompetitionRecord>, key: Seq<char>, i: int) -> bool {
    0 <= i < comps.len() && comps[i].key@ == key && forall|j: int| 0 <= j < i ==> (#[trigger] comps[j]).key@ != key
}

pub open spec fn keyed(comps: Seq<CompetitionRecord>, key: Seq<char>) -> bool {
    exists|i: int| 0 <= i < comps.len() && (#[trigger] comps[i]).key@ == key
}

pub open spec fn fixture_total(comps: Seq<CompetitionRecord>) -> int
    decreases comps.len(),
{
    if comps.len() == 0 {
        0
    } else {
        fixture_total(comps.drop_last()) + comps.last().fixtures@.len()
    }
}

pub open spec fn same_names(a: Seq<String>, b: Seq<String>) -> bool {
    a.len() == b.len() && forall|i: int| 0 <= i < a.len() ==> (#[trigger] a[i])@ == b[i]@
}

/// The setup: one to 256 competitions, a started epoch and a career date;
/// the primary competition is an active league table; every active
/// competition exists; an execution order, if given, names every
/// competition once; at most 200,000 fixtures; continental competitions need
/// a region for every club.
pub open spec fn setup_ok(s: CompetitionCheckpoint, clubs: Seq<String>, has_career_date: bool) -> bool {
    let comps = s.competitions@;
    &&& 1 <= comps.len() <= 256
    &&& s.epoch_day != 0
    &&& has_career_date
    &&& exists|p: int|
        first_key(comps, s.primary_competition_id@, p) && comps[p].kind == CompetitionType::League
            && comps[p].rules.format == CompetitionFormat::LeagueTable && names(
            s.active_competition_ids@,
            comps[p].id@,
        )
    &&& forall|a: int| 0 <= a < s.active_competition_ids@.len() ==> keyed(comps, (#[trigger] s.active_competition_ids@[a])@)
    &&& s.competition_order@.len() > 0 ==> {
        &&& distinct_names(s.competition_order@)
        &&& s.competition_order@.len() == comps.len()
        &&& forall|a: int| 0 <= a < s.competition_order@.len() ==> keyed(comps, (#[trigger] s.competition_order@[a])@)
    }
    &&& fixture_total(comps) <= 200_000
    &&& (exists|i: int| 0 <= i < comps.len() && (#[trigger] comps[i]).kind == CompetitionType::ContinentalClub)
        ==> same_names(s.club_regions@, clubs)
}

/// The whole check: the setup, the current competitions and every archive.
pub open spec fn competition_checkpoint_ok(
    s: CompetitionCheckpoint,
    clubs: Seq<String>,
    national: Option<Seq<String>>,
    has_career_date: bool,
) -> bool {
    &&& setup_ok(s, clubs, has_career_date)
    &&& collection_ok(s.competitions@, clubs, national, s.epoch_date, s.catch_up_past)
    &&& forall|k: int|
        0 <= k < s.archives@.len() ==> collection_ok(
            (#[trigger] s.archives@[k])@,
            clubs,
            national,
            s.epoch_date,
            s.catch_up_past,
        )
}

fn listed(ids: &Vec<String>, name: &String) -> (r: bool)
    ensures
        r == names(ids@, name@),
{
    let mut k: usize = 0;
    while k < ids.len()
        invariant
            k <= ids@.len(),
            forall|j: int| 0 <= j < k ==> (#[trigger] ids@[j])@ != name@,
        decreases ids@.len() - k,
    {
        if ids[k] == *name {
            return true;
        }
        k = k + 1;
    }
    false
}

fn all_distinct(ids: &Vec<String>) -> (r: bool)
    ensures
        r == distinct_names(ids@),
{
    let mut b: usize = 0;
    while b < ids.len()
        invariant
            b <= ids@.len(),
            forall|x: int, y: int| 0 <= x < y < b ==> (#[trigger] ids@[x])@ != (#[trigger] ids@[y])@,
        decreases ids@.len() - b,
    {
        let mut a: usize = 0;
        while a < b
            invariant
                a <= b < ids@.len(),
                forall|x: int| 0 <= x < a ==> (#[trigger] ids@[x])@ != ids@[b as int]@,
            decreases b - a,
        {
            if ids[a] == ids[b] {
                assert(ids@[a as int]@ == ids@[b as int]@);
                return false;
            }
            a = a + 1;
        }
        b = b + 1;
    }
    true
}

fn has_key(comps: &Vec<CompetitionRecord>, key: &String) -> (r: bool)
    ensures
        r == keyed(comps@, key@),
{
    let mut i: usize = 0;
    while i < comps.len()
        invariant
            i <= comps@.len(),
            forall|j: int| 0 <= j < i ==> (#[trigger] comps@[j]).key@ != key@,
        decreases comps@.len() - i,
    {
        if comps[i].key == *key {
            return true;
        }
        i = i + 1;
    }
    false
}

fn competition_check(c: &CompetitionRecord, clubs: &Vec<String>, national: &Option<Vec<String>>) -> (r: Result<(), String>)
    ensures
        r is Ok <==> competition_ok(
            *c,
            clubs@,
            match national {
                Some(v) => Some(v@),
                None => None,
            },
        ),
{
    let ghost teams = match national {
        Some(v) => Some(v@),
        None => None::<Seq<String>>,
    };
    let r = &c.rules;
    if c.key.as_str().is_empty() || c.key != c.id || c.season == 0 || c.participant_ids.len() < 2
        || c.participant_ids.len() > 128 || c.groups.len() > 128 || c.knockout_rounds.len() > 128
        || r.group_qualifiers_per_group < 1 || r.group_qualifiers_per_group > 128 || r.group_best_third_qualifiers
        > 128 || r.knockout_matches_per_day < 1 || r.knockout_matches_per_day > 128 || c.fixtures.len() > 65536
        || r.knockout_round_gap_days == 0 {
        return Err(String::from_str("Invalid competition identity or bounds"));
    }
    let nation = match c.kind {
        CompetitionType::InternationalNation => true,
        _ => false,
    };
    if nation && national.is_none() {
        return Err(String::from_str("National-team records require the national lifecycle, not the club engine"));
    }
    if !all_distinct(&c.participant_ids) {
        return Err(String::from_str("Competition membership must reference unique registered clubs"));
    }
    let mut i: usize = 0;
    while i < c.participant_ids.len()
        invariant
            i <= c.participant_ids@.len(),
            nation == (c.kind == CompetitionType::InternationalNation),
            nation ==> national is Some,
            teams == match national {
                Some(v) => Some(v@),
                None => None::<Seq<String>>,
            },
            forall|x: int|
                0 <= x < i ==> if c.kind == CompetitionType::InternationalNation {
                    names(teams->0, (#[trigger] c.participant_ids@[x])@)
                } else {
                    names(clubs@, c.participant_ids@[x]@)
                },
        decreases c.participant_ids@.len() - i,
    {
        let known = match national {
            Some(list) => if nation {
                listed(list, &c.participant_ids[i])
            } else {
                listed(clubs, &c.participant_ids[i])
            },
            None => listed(clubs, &c.participant_ids[i]),
        };
        if !known {
            return Err(String::from_str("Competition membership must reference unique registered clubs"));
        }
        i = i + 1;
    }
    if r.knockout_round_gap_days > 3660 || r.group_matchday_gap_days < 1 || r.group_matchday_gap_days > 3660
        || r.group_stage_legs < 1 || r.group_stage_legs > 4 || Date::from_ymd(
        2001,
        c.season_start_month as u32,
        c.season_start_day as u32,
    ).is_none() {
        return Err(String::from_str("Invalid competition calendar bounds"));
    }
    Ok(())
}

fn fixture_check(f: &CompetitionFixture, c: &CompetitionRecord, epoch: Date, catch_up: bool) -> (r: Result<(), String>)
    ensures
        r is Ok <==> fixture_ok(*f, *c, epoch, catch_up),
{
    let date = match Date::parse_ymd(f.date.as_str()) {
        Some(d) => d,
        None => return Err(String::from_str("Invalid competition fixture date")),
    };
    let y = date.year();
    let era: i64 = if y >= 1 {
        y as i64
    } else {
        1 - y as i64
    };
    if era > 9000 || f.id.as_str().is_empty() || !listed(&c.participant_ids, &f.home_team_id) || !listed(
        &c.participant_ids,
        &f.away_team_id,
    ) || f.home_team_id == f.away_team_id {
        return Err(String::from_str("Invalid competition fixture identity or participants"));
    }
    let completed = match f.status {
        FixtureStatus::Completed => true,
        _ => false,
    };
    let running = match f.status {
        FixtureStatus::InProgress => true,
        _ => false,
    };
    let scheduled = match f.status {
        FixtureStatus::Scheduled => true,
        _ => false,
    };
    if completed != f.has_result || running {
        return Err(String::from_str("Competition fixture status/result mismatch"));
    }
    if scheduled && date.is_before(epoch) && !catch_up {
        return Err(String::from_str("Past scheduled fixtures require explicit catch-up"));
    }
    Ok(())
}

fn flatten_groups(gs: &Vec<CompetitionGroup>) -> (r: Vec<String>)
    ensures
        r@ == group_teams(gs@),
{
    let mut flat: Vec<String> = Vec::new();
    let mut g: usize = 0;
    while g < gs.len()
        invariant
            g <= gs@.len(),
            flat@ == group_teams(gs@.take(g as int)),
        decreases gs@.len() - g,
    {
        let ghost start = flat@;
        let mut t: usize = 0;
        while t < gs[g].team_ids.len()
            invariant
                g < gs@.len(),
                t <= gs@[g as int].team_ids@.len(),
                flat@ == start + gs@[g as int].team_ids@.take(t as int),
            decreases gs@[g as int].team_ids@.len() - t,
        {
            flat.push(gs[g].team_ids[t].clone());
            t = t + 1;
            assert(flat@ =~= start + gs@[g as int].team_ids@.take(t as int));
        }
        proof {
            assert(gs@[g as int].team_ids@.take(t as int) =~= gs@[g as int].team_ids@);
            assert(gs@.take(g as int + 1).drop_last() =~= gs@.take(g as int));
            assert(gs@.take(g as int + 1).last() == gs@[g as int]);
        }
        g = g + 1;
    }
    proof {
        assert(gs@.take(gs@.len() as int) =~= gs@);
    }
    flat
}

fn groups_check(c: &CompetitionRecord) -> (r: Result<(), String>)
    ensures
        r is Ok <==> groups_ok(*c),
{
    let gs = &c.groups;
    let mut b: usize = 0;
    while b < gs.len()
        invariant
            b <= gs@.len(),
            gs@ == c.groups@,
            forall|g: int| 0 <= g < b ==> (#[trigger] gs@[g]).id@.len() > 0,
            forall|x: int, y: int| 0 <= x < y < b ==> (#[trigger] gs@[x]).id@ != (#[trigger] gs@[y]).id@,
        decreases gs@.len() - b,
    {
        if gs[b].id.as_str().is_empty() {
            proof {
                assert(c.groups@[b as int].id@.len() == 0);
                assert(!groups_ok(*c));
            }
            return Err(String::from_str("Invalid competition group membership"));
        }
        let mut a: usize = 0;
        while a < b
            invariant
                a <= b < gs@.len(),
                gs@ == c.groups@,
                forall|x: int| 0 <= x < a ==> (#[trigger] gs@[x]).id@ != gs@[b as int].id@,
            decreases b - a,
        {
            if gs[a].id == gs[b].id {
                proof {
                    assert(c.groups@[a as int].id@ == c.groups@[b as int].id@);
                    assert(!groups_ok(*c));
                }
                return Err(String::from_str("Invalid competition group membership"));
            }
            a = a + 1;
        }
        b = b + 1;
    }
    let teams = flatten_groups(gs);
    let mut t: usize = 0;
    while t < teams.len()
        invariant
            t <= teams@.len(),
            teams@ == group_teams(c.groups@),
            forall|x: int| 0 <= x < t ==> names(c.participant_ids@, (#[trigger] teams@[x])@),
        decreases teams@.len() - t,
    {
        if !listed(&c.participant_ids, &teams[t]) {
            return Err(String::from_str("Invalid competition group membership"));
        }
        t = t + 1;
    }
    if !all_distinct(&teams) {
        proof {
            assert(!distinct_names(group_teams(c.groups@)));
            assert(!groups_ok(*c));
        }
        return Err(String::from_str("Invalid competition group membership"));
    }
    let staged = match c.rules.format {
        CompetitionFormat::GroupAndKnockout => true,
        _ => false,
    };
    if staged {
        let mut m: usize = 0;
        while m < c.participant_ids.len()
            invariant
                m <= c.participant_ids@.len(),
                teams@ == group_teams(c.groups@),
                c.rules.format == CompetitionFormat::GroupAndKnockout,
                forall|x: int| 0 <= x < m ==> names(teams@, (#[trigger] c.participant_ids@[x])@),
            decreases c.participant_ids@.len() - m,
        {
            if !listed(&teams, &c.participant_ids[m]) {
                proof {
                    assert(!names(group_teams(c.groups@), c.participant_ids@[m as int]@));
                    assert(!groups_ok(*c));
                }
                return Err(String::from_str("Group competition membership incomplete"));
            }
            m = m + 1;
        }
    }
    Ok(())
}

fn fixture_present(c: &CompetitionRecord, id: &String) -> (r: (bool, bool))
    ensures
        r.0 == has_fixture(*c, id@),
        r.1 == fixture_completed(*c, id@),
{
    let mut found = false;
    let mut done = true;
    let mut f: usize = 0;
    while f < c.fixtures.len()
        invariant
            f <= c.fixtures@.len(),
            found == exists|x: int| 0 <= x < f && (#[trigger] c.fixtures@[x]).id@ == id@,
            done == forall|x: int|
                0 <= x < f && (#[trigger] c.fixtures@[x]).id@ == id@ ==> c.fixtures@[x].status
                    == FixtureStatus::Completed,
        decreases c.fixtures@.len() - f,
    {
        if c.fixtures[f].id == *id {
            found = true;
            match c.fixtures[f].status {
                FixtureStatus::Completed => {},
                _ => {
                    done = false;
                },
            }
        }
        f = f + 1;
    }
    (found, done)
}

fn round_check(c: &CompetitionRecord, r: &KnockoutRound) -> (res: Result<(), String>)
    ensures
        res is Ok <==> round_ok(*c, *r),
{
    let mut k: usize = 0;
    while k < r.fixture_ids.len()
        invariant
            k <= r.fixture_ids@.len(),
            forall|x: int| 0 <= x < k ==> has_fixture(*c, (#[trigger] r.fixture_ids@[x])@),
        decreases r.fixture_ids@.len() - k,
    {
        let (found, _) = fixture_present(c, &r.fixture_ids[k]);
        if !found {
            return Err(String::from_str("Knockout references unknown participants or fixtures"));
        }
        k = k + 1;
    }
    let mut k: usize = 0;
    while k < r.bye_team_ids.len()
        invariant
            k <= r.bye_team_ids@.len(),
            forall|x: int| 0 <= x < k ==> names(c.participant_ids@, (#[trigger] r.bye_team_ids@[x])@),
        decreases r.bye_team_ids@.len() - k,
    {
        if !listed(&c.participant_ids, &r.bye_team_ids[k]) {
            return Err(String::from_str("Knockout references unknown participants or fixtures"));
        }
        k = k + 1;
    }
    if !all_distinct(&r.fixture_ids) {
        return Err(String::from_str("Invalid knockout completion state"));
    }
    if r.completed {
        let mut k: usize = 0;
        while k < r.fixture_ids.len()
            invariant
                k <= r.fixture_ids@.len(),
                r.completed,
                forall|x: int| 0 <= x < k ==> fixture_completed(*c, (#[trigger] r.fixture_ids@[x])@),
            decreases r.fixture_ids@.len() - k,
        {
            let (_, done) = fixture_present(c, &r.fixture_ids[k]);
            if !done {
                proof {
                    assert(!fixture_completed(*c, r.fixture_ids@[k as int]@));
                    assert(!round_ok(*c, *r));
                }
                return Err(String::from_str("Invalid knockout completion state"));
            }
            k = k + 1;
        }
    }
    Ok(())
}

fn structure_check(c: &CompetitionRecord) -> (r: Result<(), String>)
    ensures
        r is Ok <==> structure_ok(*c),
{
    if let Err(e) = groups_check(c) {
        return Err(e);
    }
    let mut i: usize = 0;
    while i < c.knockout_rounds.len()
        invariant
            i <= c.knockout_rounds@.len(),
            groups_ok(*c),
            forall|x: int| 0 <= x < i ==> round_ok(*c, #[trigger] c.knockout_rounds@[x]),
        decreases c.knockout_rounds@.len() - i,
    {
        if let Err(e) = round_check(c, &c.knockout_rounds[i]) {
            return Err(e);
        }
        i = i + 1;
    }
    Ok(())
}

proof fn lemma_ids_step(coll: Seq<CompetitionRecord>, n: int)
    requires
        0 <= n < coll.len(),
    ensures
        collection_fixture_ids(coll.take(n + 1)) == collection_fixture_ids(coll.take(n)) + fixture_ids(coll[n].fixtures@),
{
    assert(coll.take(n + 1).drop_last() =~= coll.take(n));
}

proof fn lemma_ids_prefix(coll: Seq<CompetitionRecord>, n: int)
    requires
        0 <= n <= coll.len(),
    ensures
        collection_fixture_ids(coll.take(n)).len() <= collection_fixture_ids(coll).len(),
        forall|t: int|
            0 <= t < collection_fixture_ids(coll.take(n)).len() ==> #[trigger] collection_fixture_ids(coll.take(n))[t]
                == collection_fixture_ids(coll)[t],
    decreases coll.len() - n,
{
    if n < coll.len() {
        lemma_ids_prefix(coll, n + 1);
        lemma_ids_step(coll, n);
        let a = collection_fixture_ids(coll.take(n));
        let b = collection_fixture_ids(coll.take(n + 1));
        assert forall|t: int| 0 <= t < a.len() implies #[trigger] a[t] == collection_fixture_ids(coll)[t] by {
            assert(b[t] == a[t]);
        };
    } else {
        assert(coll.take(n) =~= coll);
    }
}

fn collection_check(
    coll: &Vec<CompetitionRecord>,
    clubs: &Vec<String>,
    national: &Option<Vec<String>>,
    epoch: Date,
    catch_up: bool,
) -> (r: Result<(), String>)
    ensures
        r is Ok <==> collection_ok(
            coll@,
            clubs@,
            match national {
                Some(v) => Some(v@),
                None => None,
            },
            epoch,
            catch_up,
        ),
{
    let ghost teams = match national {
        Some(v) => Some(v@),
        None => None::<Seq<String>>,
    };
    let mut seen: Vec<String> = Vec::new();
    let mut i: usize = 0;
    while i < coll.len()
        invariant
            i <= coll@.len(),
            teams == match national {
                Some(v) => Some(v@),
                None => None::<Seq<String>>,
            },
            forall|x: int| 0 <= x < i ==> competition_ok(#[trigger] coll@[x], clubs@, teams),
            forall|x: int| 0 <= x < i ==> structure_ok(#[trigger] coll@[x]),
            forall|x: int, y: int|
                0 <= x < i && 0 <= y < coll@[x].fixtures@.len() ==> fixture_ok(
                    #[trigger] coll@[x].fixtures@[y],
                    coll@[x],
                    epoch,
                    catch_up,
                ),
            texts(seen@) == collection_fixture_ids(coll@.take(i as int)),
            distinct_texts(collection_fixture_ids(coll@.take(i as int))),
        decreases coll@.len() - i,
    {
        let c = &coll[i];
        if let Err(e) = competition_check(c, clubs, national) {
            return Err(e);
        }
        proof {
            lemma_ids_step(coll@, i as int);
        }
        let ghost before = texts(seen@);
        let mut j: usize = 0;
        while j < c.fixtures.len()
            invariant
                i < coll@.len(),
                *c == coll@[i as int],
                j <= c.fixtures@.len(),
                forall|y: int| 0 <= y < j ==> fixture_ok(#[trigger] c.fixtures@[y], *c, epoch, catch_up),
                before == collection_fixture_ids(coll@.take(i as int)),
                texts(seen@) == before + fixture_ids(c.fixtures@.take(j as int)),
                distinct_texts(texts(seen@)),
            decreases c.fixtures@.len() - j,
        {
            let f = &c.fixtures[j];
            if let Err(e) = fixture_check(f, c, epoch, catch_up) {
                return Err(e);
            }
            if listed(&seen, &f.id) {
                proof {
                    let full = collection_fixture_ids(coll@);
                    let ids = fixture_ids(c.fixtures@);
                    let p = collection_fixture_ids(coll@.take(i as int + 1));
                    lemma_ids_prefix(coll@, i as int + 1);
                    lemma_ids_step(coll@, i as int);
                    let m = before.len() + j;
                    let sv = texts(seen@);
                    let k = choose|k: int| 0 <= k < seen@.len() && (#[trigger] seen@[k])@ == f.id@;
                    assert(p =~= before + ids);
                    assert(ids[j as int] == f.id@);
                    assert(p[m] == f.id@);
                    assert(sv[k] == seen@[k]@);
                    if k < before.len() {
                        assert(sv[k] == before[k]);
                        assert(p[k] == before[k]);
                    } else {
                        let x = fixture_ids(c.fixtures@.take(j as int));
                        let d = k - before.len();
                        assert(sv == before + x);
                        assert(sv.len() == seen@.len());
                        assert(0 <= d < x.len());
                        assert((before + x)[k] == x[d]);
                        assert(x[d] == c.fixtures@.take(j as int)[d].id@);
                        assert(c.fixtures@.take(j as int)[d] == c.fixtures@[d]);
                        assert(ids[d] == c.fixtures@[d].id@);
                        assert((before + ids)[k] == ids[d]);
                    }
                    assert(p[k] == f.id@);
                    assert(full[k] == p[k]);
                    assert(full[m] == p[m]);
                    assert(!distinct_texts(full));
                }
                return Err(String::from_str("Invalid competition fixture identity or participants"));
            }
            let ghost sv0 = texts(seen@);
            seen.push(f.id.clone());
            proof {
                let sv = texts(seen@);
                assert(sv =~= sv0.push(f.id@));
                assert forall|a: int, b: int| 0 <= a < b < sv.len() implies #[trigger] sv[a] != #[trigger] sv[b] by {
                    if b == sv.len() - 1 {
                        assert(sv[a] == seen@[a]@);
                    } else {
                        assert(sv[a] == sv0[a] && sv[b] == sv0[b]);
                    }
                };
                assert(fixture_ids(c.fixtures@.take(j as int + 1)) =~= fixture_ids(c.fixtures@.take(j as int)).push(
                    f.id@,
                ));
                assert(texts(seen@) =~= before + fixture_ids(c.fixtures@.take(j as int + 1)));
            }
            j = j + 1;
        }
        proof {
            assert(c.fixtures@.take(c.fixtures@.len() as int) =~= c.fixtures@);
        }
        if let Err(e) = structure_check(c) {
            return Err(e);
        }
        i = i + 1;
    }
    proof {
        assert(coll@.take(coll@.len() as int) =~= coll@);
    }
    Ok(())
}

fn find_key(comps: &Vec<CompetitionRecord>, key: &String) -> (r: Option<usize>)
    ensures
        r matches Some(i) ==> first_key(comps@, key@, i as int),
        r is None ==> !keyed(comps@, key@),
{
    let mut i: usize = 0;
    while i < comps.len()
        invariant
            i <= comps@.len(),
            forall|j: int| 0 <= j < i ==> (#[trigger] comps@[j]).key@ != key@,
        decreases comps@.len() - i,
    {
        if comps[i].key == *key {
            return Some(i);
        }
        i = i + 1;
    }
    None
}

proof fn lemma_total_grows(comps: Seq<CompetitionRecord>, n: int, m: int)
    requires
        0 <= n <= m <= comps.len(),
    ensures
        fixture_total(comps.take(n)) <= fixture_total(comps.take(m)),
    decreases m - n,
{
    if n < m {
        lemma_total_grows(comps, n, m - 1);
        assert(comps.take(m).drop_last() =~= comps.take(m - 1));
    }
}

fn fixtures_within_bound(comps: &Vec<CompetitionRecord>) -> (r: bool)
    ensures
        r == (fixture_total(comps@) <= 200_000),
{
    let mut total: usize = 0;
    let mut i: usize = 0;
    while i < comps.len()
        invariant
            i <= comps@.len(),
            total == fixture_total(comps@.take(i as int)),
            total <= 200_000,
        decreases comps@.len() - i,
    {
        proof {
            assert(comps@.take(i as int + 1).drop_last() =~= comps@.take(i as int));
        }
        let n = comps[i].fixtures.len();
        if n > 200_000 - total {
            proof {
                lemma_total_grows(comps@, i as int + 1, comps@.len() as int);
                assert(comps@.take(comps@.len() as int) =~= comps@);
            }
            return false;
        }
        total = total + n;
        i = i + 1;
    }
    proof {
        assert(comps@.take(comps@.len() as int) =~= comps@);
    }
    true
}

fn same_keys(a: &Vec<String>, b: &Vec<String>) -> (r: bool)
    ensures
        r == same_names(a@, b@),
{
    if a.len() != b.len() {
        return false;
    }
    let mut i: usize = 0;
    while i < a.len()
        invariant
            i <= a@.len(),
            a@.len() == b@.len(),
            forall|x: int| 0 <= x < i ==> (#[trigger] a@[x])@ == b@[x]@,
        decreases a@.len() - i,
    {
        if a[i] != b[i] {
            return false;
        }
        i = i + 1;
    }
    true
}

fn has_continental(comps: &Vec<CompetitionRecord>) -> (r: bool)
    ensures
        r == exists|i: int| 0 <= i < comps@.len() && (#[trigger] comps@[i]).kind == CompetitionType::ContinentalClub,
{
    let mut i: usize = 0;
    while i < comps.len()
        invariant
            i <= comps@.len(),
            forall|j: int| 0 <= j < i ==> (#[trigger] comps@[j]).kind != CompetitionType::ContinentalClub,
        decreases comps@.len() - i,
    {
        match comps[i].kind {
            CompetitionType::ContinentalClub => return true,
            _ => {},
        }
        i = i + 1;
    }
    false
}

fn all_keyed(ids: &Vec<String>, comps: &Vec<CompetitionRecord>) -> (r: bool)
    ensures
        r == forall|a: int| 0 <= a < ids@.len() ==> keyed(comps@, (#[trigger] ids@[a])@),
{
    let mut a: usize = 0;
    while a < ids.len()
        invariant
            a <= ids@.len(),
            forall|x: int| 0 <= x < a ==> keyed(comps@, (#[trigger] ids@[x])@),
        decreases ids@.len() - a,
    {
        if !has_key(comps, &ids[a]) {
            return false;
        }
        a = a + 1;
    }
    true
}

/// Check the competition state of a saved game against the registered
/// `clubs` (in key order), the national teams when the national lifecycle
/// runs, and whether the career has a date. Passes exactly when
/// `competition_checkpoint_ok` holds.
pub fn validate_competition_checkpoint(
    s: &CompetitionCheckpoint,
    clubs: &Vec<String>,
    national: &Option<Vec<String>>,
    has_career_date: bool,
) -> (r: Result<(), String>)
    ensures
        r is Ok <==> competition_checkpoint_ok(
            *s,
            clubs@,
            match national {
                Some(v) => Some(v@),
                None => None,
            },
            has_career_date,
        ),
{
    let comps = &s.competitions;
    if comps.len() == 0 || comps.len() > 256 || s.epoch_day == 0 || !has_career_date {
        return Err(String::from_str("Invalid competition setup"));
    }
    let p = match find_key(comps, &s.primary_competition_id) {
        Some(p) => p,
        None => return Err(String::from_str("Unknown primary competition")),
    };
    proof {
        assert forall|q: int| first_key(comps@, s.primary_competition_id@, q) implies q == p as int by {
            if q < p {
                assert(comps@[q].key@ != s.primary_competition_id@);
            } else if q > p {
                assert(comps@[p as int].key@ != s.primary_competition_id@);
            }
        };
    }
    let primary = &comps[p];
    let league = match primary.kind {
        CompetitionType::League => true,
        _ => false,
    };
    let table = match primary.rules.format {
        CompetitionFormat::LeagueTable => true,
        _ => false,
    };
    if !league || !table || !listed(&s.active_competition_ids, &primary.id) {
        return Err(String::from_str("Primary must be an active domestic league table"));
    }
    if !all_keyed(&s.active_competition_ids, comps) {
        return Err(String::from_str("Unknown active competition"));
    }
    if s.competition_order.len() > 0 && (!all_distinct(&s.competition_order) || s.competition_order.len()
        != comps.len() || !all_keyed(&s.competition_order, comps)) {
        return Err(String::from_str("Competition execution order must name every competition exactly once"));
    }
    if !fixtures_within_bound(comps) {
        return Err(String::from_str("Competition fixture collection exceeds bound"));
    }
    if has_continental(comps) && !same_keys(&s.club_regions, clubs) {
        return Err(
            String::from_str("Continental qualification requires an explicit source region for every club"),
        );
    }
    if let Err(e) = collection_check(comps, clubs, national, s.epoch_date, s.catch_up_past) {
        return Err(e);
    }
    let mut k: usize = 0;
    while k < s.archives.len()
        invariant
            k <= s.archives@.len(),
            forall|x: int|
                0 <= x < k ==> collection_ok(
                    (#[trigger] s.archives@[x])@,
                    clubs@,
                    match national {
                        Some(v) => Some(v@),
                        None => None,
                    },
                    s.epoch_date,
                    s.catch_up_past,
                ),
        decreases s.archives@.len() - k,
    {
        if let Err(e) = collection_check(&s.archives[k], clubs, national, s.epoch_date, s.catch_up_past) {
            return Err(e);
        }
        k = k + 1;
    }
    Ok(())
}

} // verus!
