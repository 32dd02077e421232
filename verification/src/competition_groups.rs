//! Group stages: the shape of a group stage, group labels, the snake seeding
//! of clubs (strongest first) into groups of about four, group tables in rank
//! order, and the clubs a finished group stage sends to the knockout rounds.
use vstd::prelude::*;
use crate::text::{str_eq, text_views};
use crate::football::{Standing, goal_difference};

verus! {

/// Clubs per group; the last groups may run one short.
pub const GROUP_SIZE: usize = 4;

/// Shape of a group stage at creation time.
#[derive(Debug, Clone, PartialEq, Eq)]
pub struct GroupStageConfig {
    /// Round-robin legs within each group (2 = home and away).
    pub legs: u8,
    /// Days between group matchdays.
    pub matchday_gap_days: i64,
    /// Teams advancing from each group.
    pub qualifiers_per_group: u32,
    /// Additional best next-placed finishers across all groups that advance.
    pub best_third_qualifiers: u32,
    /// Days between knockout rounds once the bracket starts.
    pub knockout_round_gap_days: u32,
    /// When `Some(n)`, at most `n` group matches on any single day.
    pub max_concurrent_matches_per_day: Option<usize>,
    /// Maximum fixtures on the same day within a single knockout round.
    pub knockout_matches_per_day: u32,
}

impl Default for GroupStageConfig {
    /// Home-and-away groups a week apart, the top two advancing, knockout rounds
    /// a fortnight apart with one match a day.
    fn default() -> (r: Self)
        ensures
            r == (GroupStageConfig {
                legs: 2,
                matchday_gap_days: 7,
                qualifiers_per_group: 2,
                best_third_qualifiers: 0,
                knockout_round_gap_days: 14,
                max_concurrent_matches_per_day: None,
                knockout_matches_per_day: 1,
            }),
    {
        GroupStageConfig {
            legs: 2,
            matchday_gap_days: 7,
            qualifiers_per_group: 2,
            best_third_qualifiers: 0,
            knockout_round_gap_days: 14,
            max_concurrent_matches_per_day: None,
            knockout_matches_per_day: 1,
        }
    }
}

/// A drawn group: its ID, its name (a letter) and its clubs in seeding order.
#[derive(Debug, Clone, PartialEq, Eq)]
pub struct GroupDraw {
    pub id: String,
    pub name: String,
    pub team_ids: Vec<String>,
}

/// The letter of group `index`, cycling through the alphabet.
pub open spec fn label_text(index: int) -> Seq<char> {
    "ABCDEFGHIJKLMNOPQRSTUVWXYZ"@.subrange(index % 26, index % 26 + 1)
}

pub fn group_label(index: usize) -> (r: String)
    ensures
        r@ == label_text(index as int),
{
    let letters = "ABCDEFGHIJKLMNOPQRSTUVWXYZ";
    proof {
        reveal_strlit("ABCDEFGHIJKLMNOPQRSTUVWXYZ");
    }
    let k = index % 26;
    String::from_str(letters.substring_char(k, k + 1))
}

/// Groups for `n` clubs: about four a group, at least one group.
pub open spec fn group_count(n: int) -> int {
    let c = n / 4 + if n % 4 != 0 {
        1int
    } else {
        0int
    };
    if c < 1 {
        1
    } else {
        c
    }
}

/// The group of seeding position `p` among `groups` groups: rows of one club
/// per group, left to right on even rows and right to left on odd rows.
pub open spec fn snake_group(groups: int, p: int) -> int {
    let row = p / groups;
    let column = p % groups;
    if row % 2 == 0 {
        column
    } else {
        groups - 1 - column
    }
}

/// The clubs among the first `t` seeds that go to group `g`, in seeding order.
pub open spec fn group_members(ids: Seq<Seq<char>>, groups: int, g: int, t: int) -> Seq<Seq<char>>
    decreases t,
{
    if t <= 0 {
        Seq::empty()
    } else {
        let earlier = group_members(ids, groups, g, t - 1);
        if snake_group(groups, t - 1) == g {
            earlier.push(ids[t - 1])
        } else {
            earlier
        }
    }
}

/// The ID of group `g` of competition `competition_id`.
pub open spec fn group_id_text(competition_id: Seq<char>, g: int) -> Seq<char> {
    competition_id + "-group-"@ + label_text(g)
}

proof fn lemma_snake_group_range(groups: int, p: int)
    requires
        groups >= 1,
        p >= 0,
    ensures
        0 <= snake_group(groups, p) < groups,
{
    vstd::arithmetic::div_mod::lemma_mod_pos_bound(p, groups);
}

/// Snake-seed `team_ids` (strongest first) into `group_count` groups, so every
/// group gets a comparable spread of strength.
pub fn seed_groups(competition_id: &str, team_ids: &[String]) -> (r: Vec<GroupDraw>)
    ensures
        r@.len() == group_count(team_ids@.len() as int),
        forall|g: int|
            0 <= g < r@.len() ==> (#[trigger] r@[g]).id@ == group_id_text(competition_id@, g) && r@[g].name@
                == label_text(g) && text_views(r@[g].team_ids@) == group_members(
                text_views(team_ids@),
                group_count(team_ids@.len() as int),
                g,
                team_ids@.len() as int,
            ),
{
    let n = team_ids.len();
    let quarter: usize = n / GROUP_SIZE;
    let extra: usize = if n % GROUP_SIZE != 0 {
        1
    } else {
        0
    };
    let count: usize = if quarter + extra < 1 {
        1
    } else {
        quarter + extra
    };
    let ghost ids = text_views(team_ids@);
    let mut groups: Vec<GroupDraw> = Vec::new();
    let mut g: usize = 0;
    while g < count
        invariant
            g <= count,
            groups@.len() == g,
            forall|h: int|
                0 <= h < g ==> (#[trigger] groups@[h]).id@ == group_id_text(competition_id@, h) && groups@[h].name@
                    == label_text(h) && text_views(groups@[h].team_ids@) == Seq::<Seq<char>>::empty(),
        decreases count - g,
    {
        let mut id = String::from_str(competition_id);
        id.append("-group-");
        let label = group_label(g);
        id.append(label.as_str());
        let name = group_label(g);
        let draw = GroupDraw { id, name, team_ids: Vec::new() };
        proof {
            reveal_strlit("-group-");
            assert(draw.id@ =~= group_id_text(competition_id@, g as int));
            assert(text_views(draw.team_ids@) =~= Seq::<Seq<char>>::empty());
        }
        groups.push(draw);
        g = g + 1;
    }
    let mut p: usize = 0;
    while p < n
        invariant
            p <= n,
            n == team_ids@.len(),
            ids == text_views(team_ids@),
            count >= 1,
            count == group_count(n as int),
            groups@.len() == count,
            forall|h: int|
                0 <= h < count ==> (#[trigger] groups@[h]).id@ == group_id_text(competition_id@, h) && groups@[h].name@
                    == label_text(h) && text_views(groups@[h].team_ids@) == group_members(ids, count as int, h, p as int),
        decreases n - p,
    {
        let row = p / count;
        let column = p % count;
        let target: usize = if row % 2 == 0 {
            column
        } else {
            count - 1 - column
        };
        proof {
            lemma_snake_group_range(count as int, p as int);
        }
        let ghost before = groups@;
        let team = team_ids[p].clone();
        groups[target].team_ids.push(team);
        proof {
            assert forall|h: int| 0 <= h < count implies (#[trigger] groups@[h]).id@ == group_id_text(
                competition_id@,
                h,
            ) && groups@[h].name@ == label_text(h) && text_views(groups@[h].team_ids@) == group_members(
                ids,
                count as int,
                h,
                p as int + 1,
            ) by {
                if h == target {
                    assert(text_views(groups@[h].team_ids@) =~= text_views(before[h].team_ids@).push(
                        ids[p as int],
                    ));
                } else {
                    assert(groups@[h] == before[h]);
                }
            }
        }
        p = p + 1;
    }
    groups
}

/// Whether group `g` has already received its club of the row that position
/// `t` is in.
pub open spec fn row_hit(groups: int, g: int, t: int) -> bool {
    let row = t / groups;
    let column = t % groups;
    if row % 2 == 0 {
        g < column
    } else {
        g >= groups - column
    }
}

proof fn lemma_members_len(ids: Seq<Seq<char>>, groups: int, g: int, t: int)
    requires
        groups >= 1,
        0 <= g < groups,
        t >= 0,
    ensures
        group_members(ids, groups, g, t).len() == t / groups + if row_hit(groups, g, t) {
            1int
        } else {
            0int
        },
    decreases t,
{
    if t > 0 {
        let u = t - 1;
        lemma_members_len(ids, groups, g, u);
        vstd::arithmetic::div_mod::lemma_fundamental_div_mod(u, groups);
        vstd::arithmetic::div_mod::lemma_mod_pos_bound(u, groups);
        let row = u / groups;
        let column = u % groups;
        if column < groups - 1 {
            assert(row * groups + (column + 1) == groups * row + column + 1) by (nonlinear_arith);
            vstd::arithmetic::div_mod::lemma_fundamental_div_mod_converse(t, groups, row, column + 1);
        } else {
            assert((row + 1) * groups + 0 == groups * row + groups) by (nonlinear_arith);
            vstd::arithmetic::div_mod::lemma_fundamental_div_mod_converse(t, groups, row + 1, 0);
        }
    } else {
        assert(0int / groups == 0) by (nonlinear_arith)
            requires
                groups >= 1,
        ;
        vstd::arithmetic::div_mod::lemma_fundamental_div_mod_converse(0, groups, 0, 0);
    }
}

/// Seeding fills the groups evenly: group `g` holds ⌊n / groups⌋ clubs, plus one
/// when it is among the groups the last, partial row reaches; so with
/// `group_count(n)` groups no group holds more than four clubs.
pub proof fn lemma_group_sizes(ids: Seq<Seq<char>>, g: int)
    requires
        0 <= g < group_count(ids.len() as int),
    ensures
        group_members(ids, group_count(ids.len() as int), g, ids.len() as int).len() == (ids.len() as int)
            / group_count(ids.len() as int) + if row_hit(group_count(ids.len() as int), g, ids.len() as int) {
            1int
        } else {
            0int
        },
        group_members(ids, group_count(ids.len() as int), g, ids.len() as int).len() <= GROUP_SIZE,
{
    let n = ids.len() as int;
    let gc = group_count(n);
    lemma_members_len(ids, gc, g, n);
    vstd::arithmetic::div_mod::lemma_fundamental_div_mod(n, gc);
    vstd::arithmetic::div_mod::lemma_mod_pos_bound(n, gc);
    let q = n / gc;
    let r = n % gc;
    assert(n <= 4 * gc);
    assert(q <= 4) by (nonlinear_arith)
        requires
            n == gc * q + r,
            0 <= r < gc,
            n <= 4 * gc,
            gc >= 1,
    ;
    if r != 0 {
        assert(q <= 3) by (nonlinear_arith)
            requires
                n == gc * q + r,
                0 < r < gc,
                n <= 4 * gc,
                gc >= 1,
        ;
    } else {
        assert(!row_hit(gc, g, n));
    }
}

/// Whether row `a` ranks strictly above row `b` in a group table: more points,
/// then better goal difference, then more goals scored.
pub open spec fn ranks_above(a: Standing, b: Standing) -> bool {
    if a.points != b.points {
        a.points > b.points
    } else if goal_difference(a) != goal_difference(b) {
        goal_difference(a) > goal_difference(b)
    } else {
        a.goals_for > b.goals_for
    }
}

/// The order of table positions: by rank, rows that rank alike keep their
/// table order.
pub open spec fn position_order(rows: Seq<Standing>) -> spec_fn(int, int) -> bool {
    |a: int, b: int| a == b || ranks_above(rows[a], rows[b]) || (!ranks_above(rows[b], rows[a]) && a < b)
}

/// The table positions of `rows` in ranking order (a stable sort by rank).
pub open spec fn ranking(rows: Seq<Standing>) -> Seq<int> {
    Seq::new(rows.len(), |i: int| i).sort_by(position_order(rows))
}

/// The rows in ranking order.
pub open spec fn ranked(rows: Seq<Standing>) -> Seq<Standing> {
    ranking(rows).map_values(|i: int| rows[i])
}

/// The position order is a total order.
pub proof fn lemma_position_order_total(rows: Seq<Standing>)
    ensures
        vstd::relations::total_ordering(position_order(rows)),
{
    let r = position_order(rows);
    assert forall|x: int, y: int| #[trigger] r(x, y) && #[trigger] r(y, x) implies x == y by {
        if x != y {
            assert(!(ranks_above(rows[x], rows[y]) && ranks_above(rows[y], rows[x])));
        }
    }
    assert forall|x: int, y: int, z: int| #[trigger] r(x, y) && #[trigger] r(y, z) implies r(x, z) by {
    }
    assert forall|x: int, y: int| #[trigger] r(x, y) || #[trigger] r(y, x) by {
    }
}

fn above(a: &Standing, b: &Standing) -> (r: bool)
    ensures
        r == ranks_above(*a, *b),
{
    if a.points != b.points {
        return a.points > b.points;
    }
    let da: i64 = a.goals_for as i64 - a.goals_against as i64;
    let db: i64 = b.goals_for as i64 - b.goals_against as i64;
    if da != db {
        return da > db;
    }
    a.goals_for > b.goals_for
}

/// The rows behind a list of row references.
pub open spec fn rows_of(rows: Seq<&Standing>) -> Seq<Standing> {
    rows.map_values(|r: &Standing| *r)
}

/// The table positions of `rows` in ranking order.
fn rank_positions(rows: &Vec<&Standing>) -> (r: Vec<usize>)
    ensures
        r@.map_values(|i: usize| i as int) == ranking(rows_of(rows@)),
{
    let ghost v = rows_of(rows@);
    let ghost order = position_order(v);
    proof {
        lemma_position_order_total(v);
    }
    let mut out: Vec<usize> = Vec::new();
    let mut i: usize = 0;
    assert(out@.map_values(|k: usize| k as int) =~= Seq::<int>::empty());
    assert(Seq::new(v.len(), |k: int| k).take(0) =~= Seq::<int>::empty());
    while i < rows.len()
        invariant
            i <= rows@.len(),
            v == rows_of(rows@),
            order == position_order(v),
            vstd::relations::total_ordering(order),
            vstd::relations::sorted_by(out@.map_values(|k: usize| k as int), order),
            out@.map_values(|k: usize| k as int).to_multiset() == Seq::new(v.len(), |k: int| k).take(
                i as int,
            ).to_multiset(),
            forall|k: int| 0 <= k < out@.len() ==> out@[k] < i,
        decreases rows@.len() - i,
    {
        let ghost before = out@.map_values(|k: usize| k as int);
        let mut pos: usize = 0;
        while pos < out.len() && !above(rows[i], rows[out[pos]])
            invariant
                pos <= out@.len(),
                i < rows@.len(),
                v == rows_of(rows@),
                forall|k: int| 0 <= k < out@.len() ==> out@[k] < i,
                forall|k: int| 0 <= k < pos ==> !ranks_above(v[i as int], #[trigger] v[out@[k] as int]),
            decreases out@.len() - pos,
        {
            pos = pos + 1;
        }
        proof {
            assert forall|k: int| 0 <= k < pos implies #[trigger] order(before[k], i as int) by {
                assert(before[k] == out@[k] as int);
                assert(!ranks_above(v[i as int], v[before[k]]));
            }
            assert forall|k: int| pos <= k < before.len() implies #[trigger] order(i as int, before[k]) by {
                if pos < out@.len() {
                    assert(ranks_above(v[i as int], v[out@[pos as int] as int]));
                    assert(order(before[pos as int], before[k]));
                    assert(order(i as int, before[pos as int]));
                }
            }
        }
        out.insert(pos, i);
        proof {
            let after = out@.map_values(|k: usize| k as int);
            assert(after =~= before.insert(pos as int, i as int));
            assert forall|a: int, b: int| 0 <= a < b < after.len() implies #[trigger] order(after[a], after[b]) by {
                if a < pos && b == pos {
                } else if a == pos && b > pos {
                    assert(after[b] == before[b - 1]);
                } else if a < pos && b > pos {
                    assert(order(before[a], before[b - 1]));
                } else if a > pos {
                    assert(order(before[a - 1], before[b - 1]));
                } else {
                    assert(order(before[a], before[b]));
                }
            }
            vstd::seq_lib::to_multiset_insert(before, pos as int, i as int);
            let all = Seq::new(v.len(), |k: int| k);
            assert(all.take(i as int + 1) =~= all.take(i as int).push(i as int));
            vstd::seq_lib::to_multiset_build(all.take(i as int), i as int);
        }
        i = i + 1;
    }
    proof {
        let all = Seq::new(v.len(), |k: int| k);
        assert(all.take(v.len() as int) =~= all);
        all.lemma_sort_by_ensures(order);
        vstd::seq_lib::lemma_sorted_unique(out@.map_values(|k: usize| k as int), all.sort_by(order), order);
    }
    out
}

fn copy_standing(s: &Standing) -> (r: Standing)
    ensures
        same_row(r, *s),
{
    Standing {
        club_id: s.club_id.clone(),
        played: s.played,
        won: s.won,
        drawn: s.drawn,
        lost: s.lost,
        goals_for: s.goals_for,
        goals_against: s.goals_against,
        points: s.points,
    }
}

/// Two rows for the same club with the same record.
pub open spec fn same_row(a: Standing, b: Standing) -> bool {
    &&& a.club_id@ == b.club_id@
    &&& a.played == b.played
    &&& a.won == b.won
    &&& a.drawn == b.drawn
    &&& a.lost == b.lost
    &&& a.goals_for == b.goals_for
    &&& a.goals_against == b.goals_against
    &&& a.points == b.points
}

fn row_refs(rows: &Vec<Standing>) -> (r: Vec<&Standing>)
    ensures
        rows_of(r@) == rows@,
{
    let mut out: Vec<&Standing> = Vec::new();
    let mut i: usize = 0;
    while i < rows.len()
        invariant
            i <= rows@.len(),
            out@.len() == i,
            forall|j: int| 0 <= j < i ==> *(#[trigger] out@[j]) == rows@[j],
        decreases rows@.len() - i,
    {
        out.push(&rows[i]);
        i = i + 1;
    }
    assert(rows_of(out@) =~= rows@);
    out
}

/// A group's table sorted by points, goal difference, then goals scored; rows
/// that rank alike keep their order.
pub fn sorted_group_standings(rows: &Vec<Standing>) -> (r: Vec<Standing>)
    ensures
        r@.len() == rows@.len(),
        forall|k: int| 0 <= k < r@.len() ==> same_row(#[trigger] r@[k], ranked(rows@)[k]),
{
    let refs = row_refs(rows);
    let order = rank_positions(&refs);
    let ghost ranking_seq = ranking(rows@);
    proof {
        lemma_position_order_total(rows@);
        Seq::new(rows@.len(), |k: int| k).lemma_sort_by_ensures(position_order(rows@));
        vstd::seq_lib::to_multiset_len(Seq::new(rows@.len(), |k: int| k));
        vstd::seq_lib::to_multiset_len(ranking_seq);
    }
    let mut out: Vec<Standing> = Vec::new();
    let mut k: usize = 0;
    while k < order.len()
        invariant
            k <= order@.len(),
            order@.map_values(|i: usize| i as int) == ranking_seq,
            ranking_seq == ranking(rows@),
            ranking_seq.len() == rows@.len(),
            forall|x: int| !Seq::new(rows@.len(), |j: int| j).contains(x) ==> !(#[trigger] ranking_seq.contains(x)),
            out@.len() == k,
            forall|j: int| 0 <= j < k ==> same_row(#[trigger] out@[j], ranked(rows@)[j]),
        decreases order@.len() - k,
    {
        let p = order[k];
        proof {
            assert(ranking_seq[k as int] == p as int);
            assert(ranking_seq.contains(p as int));
            assert(Seq::new(rows@.len(), |j: int| j).contains(p as int));
        }
        out.push(copy_standing(&rows[p]));
        k = k + 1;
    }
    out
}


/// The rows finishing at rank `r` (from zero) of each group that has one, in
/// group order.
pub open spec fn rank_finishers(groups: Seq<Seq<Standing>>, r: int) -> Seq<Standing>
    decreases groups.len(),
{
    if groups.len() == 0 {
        Seq::empty()
    } else {
        let prev = rank_finishers(groups.drop_last(), r);
        let g = ranked(groups.last());
        if 0 <= r < g.len() {
            prev.push(g[r])
        } else {
            prev
        }
    }
}

/// The clubs of some rows.
pub open spec fn club_ids_of(rows: Seq<Standing>) -> Seq<Seq<char>> {
    rows.map_values(|s: Standing| s.club_id@)
}

/// The clubs finishing in the first `n` places: group winners ranked among
/// themselves, then the runners-up ranked among themselves, and so on.
pub open spec fn top_qualifiers(groups: Seq<Seq<Standing>>, n: int) -> Seq<Seq<char>>
    decreases n,
{
    if n <= 0 {
        Seq::empty()
    } else {
        top_qualifiers(groups, n - 1) + club_ids_of(ranked(rank_finishers(groups, n - 1)))
    }
}

/// The knockout qualifiers of a finished group stage: the first
/// `max(per_group, 1)` places of every group by rank, then the best `best` of
/// the next-placed finishers across all groups.
pub open spec fn knockout_qualifier_ids(groups: Seq<Seq<Standing>>, per_group: int, best: int) -> Seq<Seq<char>> {
    let p = if per_group < 1 { 1 } else { per_group };
    let rest = club_ids_of(ranked(rank_finishers(groups, p)));
    top_qualifiers(groups, p) + rest.take(if best < rest.len() { best } else { rest.len() as int })
}

/// The tables of some groups.
pub open spec fn tables(groups: Seq<Vec<Standing>>) -> Seq<Seq<Standing>> {
    groups.map_values(|g: Vec<Standing>| g@)
}

/// The clubs of `rows` in ranking order.
fn ranked_ids(rows: &Vec<&Standing>) -> (r: Vec<String>)
    ensures
        text_views(r@) == club_ids_of(ranked(rows_of(rows@))),
{
    let order = rank_positions(rows);
    let ghost v = rows_of(rows@);
    let ghost ranking_seq = ranking(v);
    proof {
        lemma_position_order_total(v);
        Seq::new(v.len(), |k: int| k).lemma_sort_by_ensures(position_order(v));
        vstd::seq_lib::to_multiset_len(Seq::new(v.len(), |k: int| k));
        vstd::seq_lib::to_multiset_len(ranking_seq);
    }
    let mut out: Vec<String> = Vec::new();
    let mut k: usize = 0;
    while k < order.len()
        invariant
            k <= order@.len(),
            v == rows_of(rows@),
            order@.map_values(|i: usize| i as int) == ranking_seq,
            ranking_seq == ranking(v),
            ranking_seq.len() == v.len(),
            forall|x: int| !Seq::new(v.len(), |j: int| j).contains(x) ==> !(#[trigger] ranking_seq.contains(x)),
            out@.len() == k,
            forall|j: int| 0 <= j < k ==> (#[trigger] out@[j])@ == club_ids_of(ranked(v))[j],
        decreases order@.len() - k,
    {
        let p = order[k];
        proof {
            assert(ranking_seq[k as int] == p as int);
            assert(ranking_seq.contains(p as int));
            assert(Seq::new(v.len(), |j: int| j).contains(p as int));
        }
        out.push(rows[p].club_id.clone());
        k = k + 1;
    }
    assert(text_views(out@) =~= club_ids_of(ranked(v)));
    out
}

/// The rows finishing at rank `r` of each group, given each group's ranking.
fn finishers<'a>(groups: &'a Vec<Vec<Standing>>, ranks: &Vec<Vec<usize>>, r: usize) -> (out: Vec<&'a Standing>)
    requires
        ranks@.len() == groups@.len(),
        forall|g: int|
            0 <= g < groups@.len() ==> (#[trigger] ranks@[g])@.map_values(|i: usize| i as int) == ranking(
                groups@[g]@,
            ),
    ensures
        rows_of(out@) == rank_finishers(tables(groups@), r as int),
{
    let mut out: Vec<&Standing> = Vec::new();
    let mut g: usize = 0;
    while g < groups.len()
        invariant
            g <= groups@.len(),
            ranks@.len() == groups@.len(),
            forall|h: int|
                0 <= h < groups@.len() ==> (#[trigger] ranks@[h])@.map_values(|i: usize| i as int) == ranking(
                    groups@[h]@,
                ),
            rows_of(out@) == rank_finishers(tables(groups@).take(g as int), r as int),
        decreases groups@.len() - g,
    {
        let ghost gs = tables(groups@).take(g as int + 1);
        proof {
            assert(gs.drop_last() =~= tables(groups@).take(g as int));
            assert(gs.last() == groups@[g as int]@);
            let rk = ranking(groups@[g as int]@);
            lemma_position_order_total(groups@[g as int]@);
            Seq::new(groups@[g as int]@.len(), |k: int| k).lemma_sort_by_ensures(position_order(groups@[g as int]@));
            vstd::seq_lib::to_multiset_len(Seq::new(groups@[g as int]@.len(), |k: int| k));
            vstd::seq_lib::to_multiset_len(rk);
            assert(ranks@[g as int]@.len() == rk.len());
        }
        if r < ranks[g].len() {
            let p = ranks[g][r];
            proof {
                let rk = ranking(groups@[g as int]@);
                assert(rk[r as int] == p as int);
                assert(rk.contains(p as int));
                if !Seq::new(groups@[g as int]@.len(), |k: int| k).contains(p as int) {
                    assert(!rk.contains(p as int));
                }
            }
            out.push(&groups[g][p]);
            proof {
                assert(rows_of(out@) =~= rank_finishers(tables(groups@).take(g as int), r as int).push(
                    ranked(groups@[g as int]@)[r as int],
                ));
            }
        }
        g = g + 1;
    }
    assert(tables(groups@).take(groups@.len() as int) =~= tables(groups@));
    out
}

/// The knockout qualifiers of a finished group stage, in seeding order: see
/// [`knockout_qualifier_ids`].
pub fn knockout_qualifiers(
    groups: &Vec<Vec<Standing>>,
    qualifiers_per_group: u32,
    best_third_qualifiers: u32,
) -> (r: Vec<String>)
    ensures
        text_views(r@) == knockout_qualifier_ids(
            tables(groups@),
            qualifiers_per_group as int,
            best_third_qualifiers as int,
        ),
{
    let mut ranks: Vec<Vec<usize>> = Vec::new();
    let mut g: usize = 0;
    while g < groups.len()
        invariant
            g <= groups@.len(),
            ranks@.len() == g,
            forall|h: int|
                0 <= h < g ==> (#[trigger] ranks@[h])@.map_values(|i: usize| i as int) == ranking(groups@[h]@),
        decreases groups@.len() - g,
    {
        let refs = row_refs(&groups[g]);
        ranks.push(rank_positions(&refs));
        g = g + 1;
    }
    let per: u32 = if qualifiers_per_group < 1 { 1 } else { qualifiers_per_group };
    let mut out: Vec<String> = Vec::new();
    let mut r: u32 = 0;
    assert(text_views(out@) =~= top_qualifiers(tables(groups@), 0));
    while r < per
        invariant
            r <= per,
            ranks@.len() == groups@.len(),
            forall|h: int|
                0 <= h < groups@.len() ==> (#[trigger] ranks@[h])@.map_values(|i: usize| i as int) == ranking(
                    groups@[h]@,
                ),
            text_views(out@) == top_qualifiers(tables(groups@), r as int),
        decreases per - r,
    {
        let rows = finishers(groups, &ranks, r as usize);
        let ids = ranked_ids(&rows);
        let ghost before = text_views(out@);
        let mut k: usize = 0;
        while k < ids.len()
            invariant
                k <= ids@.len(),
                text_views(out@) == before + text_views(ids@).take(k as int),
            decreases ids@.len() - k,
        {
            let ghost prev = out@;
            out.push(ids[k].clone());
            assert(text_views(out@) =~= text_views(prev).push(ids@[k as int]@));
            assert(text_views(ids@).take(k as int + 1) =~= text_views(ids@).take(k as int).push(ids@[k as int]@));
            assert(text_views(out@) =~= before + text_views(ids@).take(k as int + 1));
            k = k + 1;
        }
        assert(text_views(ids@).take(ids@.len() as int) =~= text_views(ids@));
        r = r + 1;
    }
    let rows = finishers(groups, &ranks, per as usize);
    let ids = ranked_ids(&rows);
    let take: usize = if (best_third_qualifiers as usize) < ids.len() { best_third_qualifiers as usize } else { ids.len() };
    let ghost before = text_views(out@);
    let mut k: usize = 0;
    while k < take
        invariant
            take <= ids@.len(),
            k <= take,
            text_views(out@) == before + text_views(ids@).take(k as int),
        decreases take - k,
    {
        let ghost prev = out@;
        out.push(ids[k].clone());
        assert(text_views(out@) =~= text_views(prev).push(ids@[k as int]@));
        assert(text_views(ids@).take(k as int + 1) =~= text_views(ids@).take(k as int).push(ids@[k as int]@));
        assert(text_views(out@) =~= before + text_views(ids@).take(k as int + 1));
        k = k + 1;
    }
    out
}


} // verus!
