//! Fixtures and league tables: a fixture between two clubs on a numbered day,
//! table rows that record results, and the table order.
use vstd::prelude::*;
use crate::text::{text_at_most, text_le};
use vstd::string::StringSliceAdditionalSpecFns;

verus! {

/// A scheduled match: `home` hosts `away` on `day`; `seed` reproduces it.
#[derive(Debug, Clone, PartialEq, Eq)]
pub struct Fixture {
    pub id: String,
    pub day: u32,
    pub home: String,
    pub away: String,
    pub seed: u64,
}

/// What a fixture schedules: its day, home club and away club.
pub open spec fn fixture_shape(f: Fixture) -> (int, Seq<char>, Seq<char>) {
    (f.day as int, f.home@, f.away@)
}

/// The shapes of a list of fixtures.
pub open spec fn fixture_shapes(fs: Seq<Fixture>) -> Seq<(int, Seq<char>, Seq<char>)> {
    fs.map_values(|f: Fixture| fixture_shape(f))
}

/// A club's league-table row.
#[derive(Debug, Clone, PartialEq, Eq)]
pub struct Standing {
    pub club_id: String,
    pub played: u32,
    pub won: u32,
    pub drawn: u32,
    pub lost: u32,
    pub goals_for: u32,
    pub goals_against: u32,
    pub points: u32,
}

/// The row's counts agree: every game is a win, draw or loss, and points are
/// three a win and one a draw.
pub open spec fn row_consistent(row: Standing) -> bool {
    row.played == row.won + row.drawn + row.lost && row.points == 3 * row.won + row.drawn
}

/// Whether a result can be recorded without a count leaving `u32`.
pub open spec fn recordable(row: Standing, scored: int, conceded: int) -> bool {
    &&& row.played + 1 <= u32::MAX
    &&& row.goals_for + scored <= u32::MAX
    &&& row.goals_against + conceded <= u32::MAX
    &&& row.won + 1 <= u32::MAX
    &&& row.drawn + 1 <= u32::MAX
    &&& row.lost + 1 <= u32::MAX
    &&& row.points + 3 <= u32::MAX
}

impl Standing {
    /// An empty row for `club_id`.
    pub fn new(club_id: String) -> (r: Standing)
        ensures
            r == (Standing {
                club_id,
                played: 0,
                won: 0,
                drawn: 0,
                lost: 0,
                goals_for: 0,
                goals_against: 0,
                points: 0,
            }),
            row_consistent(r),
    {
        Standing { club_id, played: 0, won: 0, drawn: 0, lost: 0, goals_for: 0, goals_against: 0, points: 0 }
    }

    /// Record a finished match in which the club scored `scored` and conceded
    /// `conceded`: a win is worth three points, a draw one.
    pub fn record(&mut self, scored: u8, conceded: u8)
        requires
            recordable(*old(self), scored as int, conceded as int),
        ensures
            final(self).club_id == old(self).club_id,
            final(self).played == old(self).played + 1,
            final(self).goals_for == old(self).goals_for + scored,
            final(self).goals_against == old(self).goals_against + conceded,
            final(self).won == old(self).won + if scored > conceded { 1int } else { 0int },
            final(self).drawn == old(self).drawn + if scored == conceded { 1int } else { 0int },
            final(self).lost == old(self).lost + if scored < conceded { 1int } else { 0int },
            final(self).points == old(self).points + if scored > conceded {
                3int
            } else if scored == conceded {
                1int
            } else {
                0int
            },
            row_consistent(*old(self)) ==> row_consistent(*final(self)),
    {
        self.played = self.played + 1;
        self.goals_for = self.goals_for + scored as u32;
        self.goals_against = self.goals_against + conceded as u32;
        if scored > conceded {
            self.won = self.won + 1;
            self.points = self.points + 3;
        } else if scored == conceded {
            self.drawn = self.drawn + 1;
            self.points = self.points + 1;
        } else {
            self.lost = self.lost + 1;
        }
    }
}

/// Goal difference of a row.
pub open spec fn goal_difference(row: Standing) -> int {
    row.goals_for - row.goals_against
}

/// Table order: more points first, then better goal difference, then more goals
/// scored, then club ID in text order. `table_le(a, b)` when `a` may stand above
/// `b`.
pub open spec fn table_le(a: Standing, b: Standing) -> bool {
    if a.points != b.points {
        a.points > b.points
    } else if goal_difference(a) != goal_difference(b) {
        goal_difference(a) > goal_difference(b)
    } else if a.goals_for != b.goals_for {
        a.goals_for > b.goals_for
    } else {
        text_le(a.club_id@, b.club_id@)
    }
}

pub open spec fn table_order() -> spec_fn(Standing, Standing) -> bool {
    |a: Standing, b: Standing| table_le(a, b)
}

fn ranks_at_most(a: &Standing, b: &Standing) -> (r: bool)
    ensures
        r == table_le(*a, *b),
{
    if a.points != b.points {
        return a.points > b.points;
    }
    let gda: i64 = a.goals_for as i64 - a.goals_against as i64;
    let gdb: i64 = b.goals_for as i64 - b.goals_against as i64;
    if gda != gdb {
        return gda > gdb;
    }
    if a.goals_for != b.goals_for {
        return a.goals_for > b.goals_for;
    }
    text_at_most(a.club_id.as_str(), b.club_id.as_str())
}

fn copy_row(row: &Standing) -> (r: Standing)
    ensures
        r == *row,
{
    Standing {
        club_id: row.club_id.clone(),
        played: row.played,
        won: row.won,
        drawn: row.drawn,
        lost: row.lost,
        goals_for: row.goals_for,
        goals_against: row.goals_against,
        points: row.points,
    }
}

proof fn lemma_table_le_transitive(a: Standing, b: Standing, c: Standing)
    requires
        table_le(a, b),
        table_le(b, c),
    ensures
        table_le(a, c),
{
    if a.points == b.points && b.points == c.points && goal_difference(a) == goal_difference(b)
        && goal_difference(b) == goal_difference(c) && a.goals_for == b.goals_for && b.goals_for
        == c.goals_for {
        crate::text::lemma_text_order_total();
        assert(crate::text::text_order()(a.club_id@, b.club_id@));
        assert(crate::text::text_order()(b.club_id@, c.club_id@));
    }
}

proof fn lemma_table_le_total(a: Standing, b: Standing)
    ensures
        table_le(a, b) || table_le(b, a),
{
    crate::text::lemma_text_order_total();
    assert(crate::text::text_order()(a.club_id@, b.club_id@) || crate::text::text_order()(b.club_id@, a.club_id@));
}

/// In a table in table order, a row above another has at least as many
/// points; on equal points, at least as good a goal difference (goals scored
/// minus conceded), whatever the goals scored; on equal points and goal
/// difference, at least as many goals scored; and on all three equal, a club
/// ID no later in text order.
pub proof fn lemma_table_ranking(t: Seq<Standing>, i: int, j: int)
    requires
        vstd::relations::sorted_by(t, table_order()),
        0 <= i < j < t.len(),
    ensures
        t[i].points >= t[j].points,
        t[i].points == t[j].points ==> t[i].goals_for - t[i].goals_against >= t[j].goals_for - t[j].goals_against,
        t[i].points == t[j].points && t[i].goals_for - t[i].goals_against == t[j].goals_for - t[j].goals_against
            ==> t[i].goals_for >= t[j].goals_for,
        t[i].points == t[j].points && t[i].goals_for == t[j].goals_for && t[i].goals_against == t[j].goals_against
            ==> text_le(t[i].club_id@, t[j].club_id@),
{
    assert(table_order()(t[i], t[j]));
}

/// The league table: the rows in table order.
pub fn standings_table(rows: &Vec<Standing>) -> (r: Vec<Standing>)
    ensures
        r@.to_multiset() == rows@.to_multiset(),
        vstd::relations::sorted_by(r@, table_order()),
        forall|i: int, j: int|
            0 <= i < j < r@.len() ==> {
                &&& (#[trigger] r@[i]).points >= (#[trigger] r@[j]).points
                &&& r@[i].points == r@[j].points ==> r@[i].goals_for - r@[i].goals_against >= r@[j].goals_for
                    - r@[j].goals_against
                &&& r@[i].points == r@[j].points && r@[i].goals_for - r@[i].goals_against == r@[j].goals_for
                    - r@[j].goals_against ==> r@[i].goals_for >= r@[j].goals_for
            },
{
    let ghost order = table_order();
    let mut out: Vec<Standing> = Vec::new();
    let mut i: usize = 0;
    proof {
        assert(rows@.take(0) =~= Seq::<Standing>::empty());
    }
    while i < rows.len()
        invariant
            i <= rows@.len(),
            order == table_order(),
            vstd::relations::sorted_by(out@, order),
            out@.to_multiset() == rows@.take(i as int).to_multiset(),
        decreases rows@.len() - i,
    {
        let x = copy_row(&rows[i]);
        let mut pos: usize = 0;
        while pos < out.len() && ranks_at_most(&out[pos], &x)
            invariant
                pos <= out@.len(),
                forall|k: int| 0 <= k < pos ==> table_le(#[trigger] out@[k], x),
            decreases out@.len() - pos,
        {
            pos = pos + 1;
        }
        let ghost before = out@;
        proof {
            assert forall|k: int| pos <= k < before.len() implies table_le(x, #[trigger] before[k]) by {
                if table_le(before[k], x) {
                    assert(order(before[pos as int], before[k]));
                    lemma_table_le_transitive(before[pos as int], before[k], x);
                }
                lemma_table_le_total(before[k], x);
            }
        }
        out.insert(pos, x);
        proof {
            let after = out@;
            assert(after =~= before.insert(pos as int, x));
            assert forall|a: int, b: int| 0 <= a < b < after.len() implies #[trigger] order(after[a], after[b]) by {
                if a < pos && b == pos {
                } else if a == pos && b > pos {
                    assert(table_le(x, before[b - 1]));
                } else if a < pos && b > pos {
                    assert(order(before[a], before[b - 1]));
                } else if a > pos {
                    assert(order(before[a - 1], before[b - 1]));
                } else {
                    assert(order(before[a], before[b]));
                }
            }
            vstd::seq_lib::to_multiset_insert(before, pos as int, x);
            assert(rows@.take(i as int + 1) =~= rows@.take(i as int).push(rows@[i as int]));
            vstd::seq_lib::to_multiset_build(rows@.take(i as int), rows@[i as int]);
        }
        i = i + 1;
    }
    assert(rows@.take(rows@.len() as int) =~= rows@);
    proof {
        assert forall|a: int, b: int| 0 <= a < b < out@.len() implies {
            &&& (#[trigger] out@[a]).points >= (#[trigger] out@[b]).points
            &&& out@[a].points == out@[b].points ==> out@[a].goals_for - out@[a].goals_against >= out@[b].goals_for
                - out@[b].goals_against
            &&& out@[a].points == out@[b].points && out@[a].goals_for - out@[a].goals_against == out@[b].goals_for
                - out@[b].goals_against ==> out@[a].goals_for >= out@[b].goals_for
        } by {
            lemma_table_ranking(out@, a, b);
        }
    }
    out
}

/// Whether a fixture list is sound for a world whose clubs are `clubs` and whose
/// current day is `today`: nonempty distinct IDs, no day before `today`, two
/// different registered clubs per fixture, and no club twice on one day.
pub open spec fn fixtures_valid(fixtures: Seq<Fixture>, today: int, clubs: Seq<String>) -> bool {
    &&& forall|i: int| 0 <= i < fixtures.len() ==> fixture_valid(#[trigger] fixtures[i], today, clubs)
    &&& forall|i: int, j: int|
        0 <= i < j < fixtures.len() ==> !fixtures_clash(#[trigger] fixtures[i], #[trigger] fixtures[j])
}

/// One fixture on its own is sound.
pub open spec fn fixture_valid(f: Fixture, today: int, clubs: Seq<String>) -> bool {
    &&& f.id@.len() > 0
    &&& f.day >= today
    &&& f.home@ != f.away@
    &&& exists|k: int| 0 <= k < clubs.len() && (#[trigger] clubs[k])@ == f.home@
    &&& exists|k: int| 0 <= k < clubs.len() && (#[trigger] clubs[k])@ == f.away@
}

/// Two fixtures share an ID, or a club on the same day.
pub open spec fn fixtures_clash(a: Fixture, b: Fixture) -> bool {
    ||| a.id@ == b.id@
    ||| a.day == b.day && (a.home@ == b.home@ || a.home@ == b.away@ || a.away@ == b.home@ || a.away@
        == b.away@)
}

fn registered(clubs: &Vec<String>, id: &String) -> (r: bool)
    ensures
        r == exists|k: int| 0 <= k < clubs@.len() && (#[trigger] clubs@[k])@ == id@,
{
    let mut k: usize = 0;
    while k < clubs.len()
        invariant
            k <= clubs@.len(),
            forall|j: int| 0 <= j < k ==> (#[trigger] clubs@[j])@ != id@,
        decreases clubs@.len() - k,
    {
        if clubs[k] == *id {
            return true;
        }
        k = k + 1;
    }
    false
}

fn clash(a: &Fixture, b: &Fixture) -> (r: bool)
    ensures
        r == fixtures_clash(*a, *b),
{
    a.id == b.id || (a.day == b.day && (a.home == b.home || a.home == b.away || a.away == b.home
        || a.away == b.away))
}

/// Check a fixture list against the clubs of the world and its current day.
pub fn validate_fixtures(fixtures: &Vec<Fixture>, today: u32, clubs: &Vec<String>) -> (r: Result<(), String>)
    ensures
        r is Ok <==> fixtures_valid(fixtures@, today as int, clubs@),
        r matches Err(e) ==> e@ == "Invalid or conflicting fixture"@,
{
    let mut i: usize = 0;
    while i < fixtures.len()
        invariant
            i <= fixtures@.len(),
            forall|a: int| 0 <= a < i ==> fixture_valid(#[trigger] fixtures@[a], today as int, clubs@),
            forall|a: int, b: int| 0 <= a < b < i ==> !fixtures_clash(#[trigger] fixtures@[a], #[trigger] fixtures@[b]),
        decreases fixtures@.len() - i,
    {
        let f = &fixtures[i];
        if f.id.as_str().is_empty() || f.day < today || f.home == f.away || !registered(clubs, &f.home) || !registered(
            clubs,
            &f.away,
        ) {
            return Err(String::from_str("Invalid or conflicting fixture"));
        }
        let mut j: usize = 0;
        while j < i
            invariant
                j <= i < fixtures@.len(),
                forall|a: int| 0 <= a < j ==> !fixtures_clash(#[trigger] fixtures@[a], fixtures@[i as int]),
            decreases i - j,
        {
            if clash(&fixtures[j], &fixtures[i]) {
                return Err(String::from_str("Invalid or conflicting fixture"));
            }
            j = j + 1;
        }
        i = i + 1;
    }
    Ok(())
}

/// FNV-1a over `bytes`, starting from `hash`: each byte is mixed in by
/// exclusive or, then the hash is multiplied by the FNV prime, wrapping.
pub open spec fn fnv1a(hash: u64, bytes: Seq<u8>) -> u64
    decreases bytes.len(),
{
    if bytes.len() == 0 {
        hash
    } else {
        vstd::wrapping::u64_specs::wrapping_mul(fnv1a(hash, bytes.drop_last()) ^ (bytes.last() as u64), 0x100000001b3)
    }
}

/// The match seed of fixture `id` in a competition seeded with `seed`: FNV-1a
/// of the ID's UTF-8 bytes, starting from the seed mixed with the FNV offset.
pub fn fixture_seed(seed: u64, id: &str) -> (r: u64)
    ensures
        r == fnv1a(seed ^ 0xcbf29ce484222325u64, id.spec_bytes()),
{
    let bytes = id.as_bytes();
    let mut hash: u64 = seed ^ 0xcbf29ce484222325u64;
    let mut i: usize = 0;
    assert(bytes@.take(0) =~= Seq::<u8>::empty());
    while i < bytes.len()
        invariant
            i <= bytes@.len(),
            hash == fnv1a(seed ^ 0xcbf29ce484222325u64, bytes@.take(i as int)),
        decreases bytes@.len() - i,
    {
        let byte: u64 = bytes[i] as u64;
        hash = (hash ^ byte).wrapping_mul(0x100000001b3u64);
        assert(bytes@.take(i as int + 1).drop_last() =~= bytes@.take(i as int));
        i = i + 1;
    }
    assert(bytes@.take(bytes@.len() as int) =~= bytes@);
    hash
}


} // verus!
