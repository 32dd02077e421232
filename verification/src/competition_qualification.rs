//! Filling a continental competition's field: the qualified clubs are seeded
//! by reputation and capped at the field size, and a thin field is topped up
//! with the best-reputed clubs of the feeder regions not placed elsewhere.
use vstd::prelude::*;
use crate::text::{contains_text, lemma_text_order_total, str_eq, text_at_most, text_le, text_order, text_views};

verus! {

/// A club as qualification sees it.
#[derive(Debug, Clone, PartialEq, Eq)]
pub struct ClubSeed {
    pub id: String,
    pub reputation: u32,
    pub region: String,
}

/// Seeding order of (reputation, club) pairs: higher reputation first, then
/// club IDs in text order.
pub open spec fn seed_le(a: (u32, Seq<char>), b: (u32, Seq<char>)) -> bool {
    a.0 > b.0 || (a.0 == b.0 && text_le(a.1, b.1))
}

pub open spec fn seed_order() -> spec_fn((u32, Seq<char>), (u32, Seq<char>)) -> bool {
    |a: (u32, Seq<char>), b: (u32, Seq<char>)| seed_le(a, b)
}

/// The seeding order is a total order.
pub proof fn lemma_seed_order_total()
    ensures
        vstd::relations::total_ordering(seed_order()),
{
    lemma_text_order_total();
    let t = text_order();
    let r = seed_order();
    assert forall|x: (u32, Seq<char>)| #[trigger] r(x, x) by {
        assert(t(x.1, x.1));
    }
    assert forall|x: (u32, Seq<char>), y: (u32, Seq<char>)| #[trigger] r(x, y) && #[trigger] r(y, x) implies x
        == y by {
        assert(t(x.1, y.1) && t(y.1, x.1));
    }
    assert forall|x: (u32, Seq<char>), y: (u32, Seq<char>), z: (u32, Seq<char>)| #[trigger] r(x, y) && #[trigger] r(
        y,
        z,
    ) implies r(x, z) by {
        if x.0 == y.0 && y.0 == z.0 {
            assert(t(x.1, y.1) && t(y.1, z.1));
        }
    }
    assert forall|x: (u32, Seq<char>), y: (u32, Seq<char>)| #[trigger] r(x, y) || #[trigger] r(y, x) by {
        assert(t(x.1, y.1) || t(y.1, x.1));
    }
}

/// The reputation of the first club listed under `id` from position `i` on; 0
/// for a club not listed.
pub open spec fn reputation_from(teams: Seq<ClubSeed>, id: Seq<char>, i: int) -> u32
    decreases teams.len() - i,
{
    if i < 0 || i >= teams.len() {
        0
    } else if teams[i].id@ == id {
        teams[i].reputation
    } else {
        reputation_from(teams, id, i + 1)
    }
}

/// The seeds of the first `n` clubs eligible to fill a field: not already
/// placed, and from a feeder region.
pub open spec fn filler_seeds(teams: Seq<ClubSeed>, seen: Seq<Seq<char>>, feeder: Seq<Seq<char>>, n: int) -> Seq<
    (u32, Seq<char>),
>
    decreases n,
{
    if n <= 0 {
        Seq::empty()
    } else {
        let prev = filler_seeds(teams, seen, feeder, n - 1);
        let t = teams[n - 1];
        if !seen.contains(t.id@) && feeder.contains(t.region@) {
            prev.push((t.reputation, t.id@))
        } else {
            prev
        }
    }
}

pub open spec fn seed_views(v: Seq<(u32, String)>) -> Seq<(u32, Seq<char>)> {
    v.map_values(|p: (u32, String)| (p.0, p.1@))
}

pub open spec fn seed_ids(v: Seq<(u32, Seq<char>)>) -> Seq<Seq<char>> {
    v.map_values(|p: (u32, Seq<char>)| p.1)
}

/// A competition's field size: its participant count, at least four.
pub open spec fn field_size(participants: int) -> int {
    if participants < 4 {
        4
    } else {
        participants
    }
}

/// The field: the qualified clubs seeded by reputation (higher first, then by
/// ID) and capped at the field size, then, while there is room, the eligible
/// fillers in the same order.
pub open spec fn spec_seed_cap_and_fill(
    teams: Seq<ClubSeed>,
    feeder: Seq<Seq<char>>,
    participants: int,
    qualified: Seq<Seq<char>>,
    seen: Seq<Seq<char>>,
) -> Seq<Seq<char>> {
    let field = field_size(participants);
    let ranked = seed_ids(
        qualified.map_values(|id: Seq<char>| (reputation_from(teams, id, 0), id)).sort_by(seed_order()),
    );
    let kept = if ranked.len() > field {
        ranked.take(field)
    } else {
        ranked
    };
    let fill = seed_ids(filler_seeds(teams, seen, feeder, teams.len() as int).sort_by(seed_order()));
    let room = field - kept.len();
    kept + if fill.len() > room {
        fill.take(room)
    } else {
        fill
    }
}

fn reputation_of(teams: &Vec<ClubSeed>, id: &str) -> (r: u32)
    ensures
        r == reputation_from(teams@, id@, 0),
{
    let mut i: usize = 0;
    while i < teams.len()
        invariant
            i <= teams@.len(),
            reputation_from(teams@, id@, 0) == reputation_from(teams@, id@, i as int),
        decreases teams@.len() - i,
    {
        if str_eq(teams[i].id.as_str(), id) {
            return teams[i].reputation;
        }
        i = i + 1;
    }
    0
}

fn seed_at_most(a: &(u32, String), b: &(u32, String)) -> (r: bool)
    ensures
        r == seed_le((a.0, a.1@), (b.0, b.1@)),
{
    if a.0 != b.0 {
        a.0 > b.0
    } else {
        text_at_most(a.1.as_str(), b.1.as_str())
    }
}

/// Seeds in seeding order.
fn sort_seeds(v: Vec<(u32, String)>) -> (r: Vec<(u32, String)>)
    ensures
        seed_views(r@) == seed_views(v@).sort_by(seed_order()),
{
    let ghost order = seed_order();
    proof {
        lemma_seed_order_total();
    }
    let mut out: Vec<(u32, String)> = Vec::new();
    let mut i: usize = 0;
    proof {
        assert(seed_views(out@) =~= Seq::<(u32, Seq<char>)>::empty());
        assert(seed_views(v@.take(0)) =~= Seq::<(u32, Seq<char>)>::empty());
    }
    while i < v.len()
        invariant
            i <= v@.len(),
            order == seed_order(),
            vstd::relations::total_ordering(order),
            vstd::relations::sorted_by(seed_views(out@), order),
            seed_views(out@).to_multiset() == seed_views(v@.take(i as int)).to_multiset(),
        decreases v@.len() - i,
    {
        let x = (v[i].0, v[i].1.clone());
        let ghost xv = (x.0, x.1@);
        let mut pos: usize = 0;
        while pos < out.len() && seed_at_most(&out[pos], &x)
            invariant
                pos <= out@.len(),
                xv == (x.0, x.1@),
                forall|k: int| 0 <= k < pos ==> seed_le(((#[trigger] out@[k]).0, out@[k].1@), xv),
            decreases out@.len() - pos,
        {
            pos = pos + 1;
        }
        let ghost before = seed_views(out@);
        proof {
            assert forall|k: int| 0 <= k < pos implies #[trigger] order(before[k], xv) by {
                assert(before[k] == (out@[k].0, out@[k].1@));
            }
            assert forall|k: int| pos <= k < before.len() implies #[trigger] order(xv, before[k]) by {
                assert(pos < out@.len());
                assert(before[pos as int] == (out@[pos as int].0, out@[pos as int].1@));
                assert(!order(before[pos as int], xv));
                assert(order(xv, before[pos as int]));
                assert(order(before[pos as int], before[k]));
            }
        }
        out.insert(pos, x);
        proof {
            let after = seed_views(out@);
            assert(after =~= before.insert(pos as int, xv));
            assert forall|a: int, b: int| 0 <= a < b < after.len() implies #[trigger] order(after[a], after[b]) by {
                if a < pos && b == pos {
                } else if a == pos && b > pos {
                    assert(after[b] == before[b - 1]);
                } else if a < pos && b > pos {
                    assert(order(before[a], before[b - 1]));
                } else if a > pos {
                    assert(order(before[a - 1], before[b - 1]));
                } else {
                    assert(order(before[a], before[b]));
                }
            }
            vstd::seq_lib::to_multiset_insert(before, pos as int, xv);
            assert(seed_views(v@.take(i as int + 1)) =~= seed_views(v@.take(i as int)).push(xv));
            vstd::seq_lib::to_multiset_build(seed_views(v@.take(i as int)), xv);
        }
        i = i + 1;
    }
    proof {
        assert(v@.take(v@.len() as int) =~= v@);
        let w = seed_views(v@);
        w.lemma_sort_by_ensures(order);
        vstd::seq_lib::lemma_sorted_unique(seed_views(out@), w.sort_by(order), order);
    }
    out
}

/// Seed, cap and fill a continental field. `participants` is the competition's
/// participant count, `feeder_regions` the regions it draws from, `qualified`
/// the clubs it earned, `seen` the clubs already placed anywhere.
pub fn seed_cap_and_fill(
    teams: &Vec<ClubSeed>,
    feeder_regions: &Vec<String>,
    participants: usize,
    qualified: &Vec<String>,
    seen: &Vec<String>,
) -> (r: Vec<String>)
    ensures
        text_views(r@) == spec_seed_cap_and_fill(
            teams@,
            text_views(feeder_regions@),
            participants as int,
            text_views(qualified@),
            text_views(seen@),
        ),
{
    let field: usize = if participants < 4 {
        4
    } else {
        participants
    };
    let ghost q = text_views(qualified@);
    let ghost qseeds = q.map_values(|id: Seq<char>| (reputation_from(teams@, id, 0), id));
    let mut pairs: Vec<(u32, String)> = Vec::new();
    let mut i: usize = 0;
    while i < qualified.len()
        invariant
            i <= qualified@.len(),
            q == text_views(qualified@),
            qseeds == q.map_values(|id: Seq<char>| (reputation_from(teams@, id, 0), id)),
            seed_views(pairs@) == qseeds.take(i as int),
        decreases qualified@.len() - i,
    {
        let rep = reputation_of(teams, qualified[i].as_str());
        let id = qualified[i].clone();
        let ghost before = pairs@;
        pairs.push((rep, id));
        proof {
            assert(q[i as int] == qualified@[i as int]@);
            assert(qseeds[i as int] == (rep, id@));
            assert(pairs@ == before.push((rep, id)));
            assert(seed_views(pairs@) =~= seed_views(before).push((rep, id@)));
            assert(qseeds.take(i as int + 1) =~= qseeds.take(i as int).push(qseeds[i as int]));
        }
        i = i + 1;
    }
    proof {
        assert(qseeds.take(qualified@.len() as int) =~= qseeds);
    }
    let ranked = sort_seeds(pairs);
    let ghost rv = seed_ids(qseeds.sort_by(seed_order()));
    let ghost kept = if rv.len() > field {
        rv.take(field as int)
    } else {
        rv
    };
    let mut out: Vec<String> = Vec::new();
    let mut k: usize = 0;
    while k < ranked.len() && k < field
        invariant
            k <= ranked@.len(),
            k <= field,
            seed_ids(seed_views(ranked@)) == rv,
            text_views(out@) == rv.take(k as int),
        decreases ranked@.len() - k,
    {
        let ghost before = out@;
        let id = ranked[k].1.clone();
        out.push(id);
        proof {
            assert(rv[k as int] == seed_views(ranked@)[k as int].1);
            assert(rv[k as int] == id@);
            assert(out@ == before.push(id));
            assert(text_views(out@) =~= text_views(before).push(id@));
            assert(rv.take(k as int + 1) =~= rv.take(k as int).push(rv[k as int]));
        }
        k = k + 1;
    }
    proof {
        assert(text_views(out@) =~= kept);
    }
    let ghost seen_v = text_views(seen@);
    let ghost feeder_v = text_views(feeder_regions@);
    let mut fillers: Vec<(u32, String)> = Vec::new();
    let mut j: usize = 0;
    while j < teams.len()
        invariant
            j <= teams@.len(),
            seen_v == text_views(seen@),
            feeder_v == text_views(feeder_regions@),
            seed_views(fillers@) == filler_seeds(teams@, seen_v, feeder_v, j as int),
        decreases teams@.len() - j,
    {
        let t = &teams[j];
        if !contains_text(seen, t.id.as_str()) && contains_text(feeder_regions, t.region.as_str()) {
            fillers.push((t.reputation, t.id.clone()));
            proof {
                assert(seed_views(fillers@) =~= filler_seeds(teams@, seen_v, feeder_v, j as int + 1));
            }
        }
        j = j + 1;
    }
    let sorted_fill = sort_seeds(fillers);
    let ghost fill = seed_ids(filler_seeds(teams@, seen_v, feeder_v, teams@.len() as int).sort_by(seed_order()));
    let ghost room = field - kept.len();
    let mut f: usize = 0;
    while f < sorted_fill.len() && out.len() < field
        invariant
            f <= sorted_fill@.len(),
            seed_ids(seed_views(sorted_fill@)) == fill,
            kept.len() <= field,
            room == field - kept.len(),
            f <= room,
            out@.len() == kept.len() + f,
            text_views(out@) == kept + fill.take(f as int),
        decreases sorted_fill@.len() - f,
    {
        let ghost before = out@;
        let id = sorted_fill[f].1.clone();
        out.push(id);
        proof {
            assert(fill[f as int] == seed_views(sorted_fill@)[f as int].1);
            assert(fill[f as int] == id@);
            assert(text_views(out@) =~= text_views(before).push(id@));
            assert(fill.take(f as int + 1) =~= fill.take(f as int).push(fill[f as int]));
            assert(text_views(out@) =~= kept + fill.take(f as int + 1));
        }
        f = f + 1;
    }
    proof {
        if fill.len() > room {
            assert(f == room);
        } else {
            assert(fill.take(f as int) =~= fill);
        }
    }
    out
}

/// The clubs a position-range berth selects from a final table in ranking
/// order: from position `from` (counting from 1; 0 counts as 1), as many clubs
/// as `to - from + 1` (at least one, at most `u32::MAX`).
pub open spec fn spec_position_range(table: Seq<Seq<char>>, from: int, to: int) -> Seq<Seq<char>> {
    let start = if from < 1 {
        0
    } else {
        from - 1
    };
    let diff = if to < from {
        0
    } else {
        to - from
    };
    let count = if diff + 1 > u32::MAX {
        u32::MAX as int
    } else {
        diff + 1
    };
    let rest = if start > table.len() {
        Seq::empty()
    } else {
        table.skip(start)
    };
    if count > rest.len() {
        rest
    } else {
        rest.take(count)
    }
}

/// Apply a position-range berth to a final table in ranking order.
pub fn position_range(table: &Vec<String>, from: u32, to: u32) -> (r: Vec<String>)
    ensures
        text_views(r@) == spec_position_range(text_views(table@), from as int, to as int),
{
    let start: usize = if from < 1 {
        0
    } else {
        (from - 1) as usize
    };
    let diff: u32 = if to < from {
        0
    } else {
        to - from
    };
    let count: u64 = if diff == u32::MAX {
        u32::MAX as u64
    } else {
        diff as u64 + 1
    };
    let ghost rest = if start > table@.len() {
        Seq::<Seq<char>>::empty()
    } else {
        text_views(table@).skip(start as int)
    };
    let mut out: Vec<String> = Vec::new();
    let mut i: usize = start;
    let mut taken: u64 = 0;
    while i < table.len() && taken < count
        invariant
            start <= i,
            i <= table@.len() || (start > table@.len() && i == start),
            taken == i - start,
            taken <= count,
            rest == (if start > table@.len() {
                Seq::<Seq<char>>::empty()
            } else {
                text_views(table@).skip(start as int)
            }),
            text_views(out@) == rest.take(taken as int),
        decreases count - taken,
    {
        let ghost before = out@;
        let id = table[i].clone();
        out.push(id);
        proof {
            assert(rest[taken as int] == table@[i as int]@);
            assert(text_views(out@) =~= text_views(before).push(id@));
            assert(rest.take(taken as int + 1) =~= rest.take(taken as int).push(rest[taken as int]));
        }
        i = i + 1;
        taken = taken + 1;
    }
    proof {
        if count > rest.len() {
            assert(rest.take(taken as int) =~= rest);
        } else if taken < count {
            assert(rest.take(taken as int) =~= rest);
        }
    }
    out
}


/// A berth a competition's results award: `club` earns a place in `target`.
/// A berth with a fallback awards the primary target first, then the fallback.
#[derive(Debug, Clone, PartialEq, Eq)]
pub struct BerthAward {
    pub club: String,
    pub target: String,
}

/// A continental competition fed by berths: its priority (lower is more
/// prestigious), participant count and feeder regions.
#[derive(Debug, Clone, PartialEq, Eq)]
pub struct BerthTarget {
    pub id: String,
    pub priority: u32,
    pub participants: usize,
    pub feeder_regions: Vec<String>,
}

/// The (ID, priority) pairs of targets.
pub open spec fn target_keys(targets: Seq<BerthTarget>) -> Seq<(Seq<char>, u32)> {
    targets.map_values(|t: BerthTarget| (t.id@, t.priority))
}

/// The (club, target) pairs of awards.
pub open spec fn award_views(awards: Seq<BerthAward>) -> Seq<(Seq<char>, Seq<char>)> {
    awards.map_values(|a: BerthAward| (a.club@, a.target@))
}

/// The priority of the first target listed under `id` from position `i` on.
pub open spec fn priority_from(keys: Seq<(Seq<char>, u32)>, id: Seq<char>, i: int) -> Option<u32>
    decreases keys.len() - i,
{
    if i < 0 || i >= keys.len() {
        None
    } else if keys[i].0 == id {
        Some(keys[i].1)
    } else {
        priority_from(keys, id, i + 1)
    }
}

/// The first entry for `club` from position `i` on.
pub open spec fn entry_from(best: Seq<(Seq<char>, u32, Seq<char>)>, club: Seq<char>, i: int) -> Option<int>
    decreases best.len() - i,
{
    if i < 0 || i >= best.len() {
        None
    } else if best[i].0 == club {
        Some(i)
    } else {
        entry_from(best, club, i + 1)
    }
}

/// One award considered: an award into a competition that is no berth-fed
/// target is ignored; a club seen for the first time gets an entry (with no
/// target when the priority is `u32::MAX`); a club already entered moves only
/// to a strictly more prestigious target.
pub open spec fn consider(
    best: Seq<(Seq<char>, u32, Seq<char>)>,
    club: Seq<char>,
    target: Seq<char>,
    priority: Option<u32>,
) -> Seq<(Seq<char>, u32, Seq<char>)> {
    match priority {
        None => best,
        Some(p) => match entry_from(best, club, 0) {
            None => if p < u32::MAX {
                best.push((club, p, target))
            } else {
                best.push((club, u32::MAX, Seq::empty()))
            },
            Some(k) => if p < best[k].1 {
                best.update(k, (club, p, target))
            } else {
                best
            },
        },
    }
}

/// Each club's most prestigious target after the first `n` awards, in the
/// order clubs first appear.
pub open spec fn best_targets(awards: Seq<(Seq<char>, Seq<char>)>, keys: Seq<(Seq<char>, u32)>, n: int) -> Seq<
    (Seq<char>, u32, Seq<char>),
>
    decreases n,
{
    if n <= 0 {
        Seq::empty()
    } else {
        let a = awards[n - 1];
        consider(best_targets(awards, keys, n - 1), a.0, a.1, priority_from(keys, a.1, 0))
    }
}

proof fn lemma_entry_from(best: Seq<(Seq<char>, u32, Seq<char>)>, club: Seq<char>, i: int)
    requires
        0 <= i,
    ensures
        entry_from(best, club, i) matches Some(k) ==> i <= k < best.len() && best[k].0 == club,
        entry_from(best, club, i) is None ==> forall|j: int| i <= j < best.len() ==> (#[trigger] best[j]).0 != club,
        forall|j: int| i <= j < best.len() && (#[trigger] best[j]).0 == club ==> (entry_from(best, club, i) matches Some(k) && k <= j),
    decreases best.len() - i,
{
    if i < best.len() {
        lemma_entry_from(best, club, i + 1);
    }
}

/// Award `k` places its club in a berth-fed target of priority `p`.
pub open spec fn awards_at(awards: Seq<(Seq<char>, Seq<char>)>, keys: Seq<(Seq<char>, u32)>, k: int, p: u32) -> bool {
    priority_from(keys, awards[k].1, 0) == Some(p)
}

/// Each club has one entry, and it is at least as prestigious as every
/// berth-fed target any of the first `n` awards gives it: a club ends in the
/// single most prestigious target it earns.
pub proof fn lemma_best_targets(awards: Seq<(Seq<char>, Seq<char>)>, keys: Seq<(Seq<char>, u32)>, n: int)
    requires
        0 <= n <= awards.len(),
    ensures
        ({
            let best = best_targets(awards, keys, n);
            &&& forall|i: int, j: int| 0 <= i < j < best.len() ==> (#[trigger] best[i]).0 != (#[trigger] best[j]).0
            &&& forall|k: int, p: u32|
                0 <= k < n && #[trigger] awards_at(awards, keys, k, p) ==> exists|e: int|
                    0 <= e < best.len() && (#[trigger] best[e]).0 == awards[k].0 && best[e].1 <= p
        }),
    decreases n,
{
    if n > 0 {
        lemma_best_targets(awards, keys, n - 1);
        let prev = best_targets(awards, keys, n - 1);
        let a = awards[n - 1];
        let best = best_targets(awards, keys, n);
        lemma_entry_from(prev, a.0, 0);
        assert forall|k: int, p: u32|
            0 <= k < n && #[trigger] awards_at(awards, keys, k, p) implies exists|e: int|
                0 <= e < best.len() && (#[trigger] best[e]).0 == awards[k].0 && best[e].1 <= p by {
            if k < n - 1 {
                let e = choose|e: int| 0 <= e < prev.len() && (#[trigger] prev[e]).0 == awards[k].0 && prev[e].1 <= p;
                assert(best[e].0 == awards[k].0 && best[e].1 <= p);
            } else {
                match entry_from(prev, a.0, 0) {
                    None => {
                        assert(best[prev.len() as int].0 == a.0);
                    },
                    Some(e) => {
                        assert(best[e].0 == a.0);
                    },
                }
            }
        }
    }
}

/// The clubs whose best target is `target`, among the first `n` entries.
pub open spec fn clubs_for(best: Seq<(Seq<char>, u32, Seq<char>)>, target: Seq<char>, n: int) -> Seq<Seq<char>>
    decreases n,
{
    if n <= 0 {
        Seq::empty()
    } else if best[n - 1].2 == target {
        clubs_for(best, target, n - 1).push(best[n - 1].0)
    } else {
        clubs_for(best, target, n - 1)
    }
}

/// The field of berth-fed target `id`: its clubs seeded, capped and topped up,
/// where no club placed in any target fills another.
pub open spec fn spec_berth_field(
    awards: Seq<(Seq<char>, Seq<char>)>,
    keys: Seq<(Seq<char>, u32)>,
    teams: Seq<ClubSeed>,
    id: Seq<char>,
    participants: int,
    feeder: Seq<Seq<char>>,
) -> Seq<Seq<char>> {
    let best = best_targets(awards, keys, awards.len() as int);
    spec_seed_cap_and_fill(
        teams,
        feeder,
        participants,
        clubs_for(best, id, best.len() as int),
        best.map_values(|e: (Seq<char>, u32, Seq<char>)| e.0),
    )
}

/// Every target's field.
pub open spec fn spec_berth_fields(
    awards: Seq<BerthAward>,
    targets: Seq<BerthTarget>,
    teams: Seq<ClubSeed>,
) -> Seq<Seq<Seq<char>>> {
    targets.map_values(
        |t: BerthTarget|
            spec_berth_field(
                award_views(awards),
                target_keys(targets),
                teams,
                t.id@,
                t.participants as int,
                text_views(t.feeder_regions@),
            ),
    )
}

fn priority_of(targets: &Vec<BerthTarget>, id: &str) -> (r: Option<u32>)
    ensures
        r == priority_from(target_keys(targets@), id@, 0),
{
    let mut i: usize = 0;
    while i < targets.len()
        invariant
            i <= targets@.len(),
            priority_from(target_keys(targets@), id@, 0) == priority_from(target_keys(targets@), id@, i as int),
        decreases targets@.len() - i,
    {
        if str_eq(targets[i].id.as_str(), id) {
            return Some(targets[i].priority);
        }
        i = i + 1;
    }
    None
}

pub open spec fn entry_views(v: Seq<(String, u32, String)>) -> Seq<(Seq<char>, u32, Seq<char>)> {
    v.map_values(|e: (String, u32, String)| (e.0@, e.1, e.2@))
}

fn entry_of(best: &Vec<(String, u32, String)>, club: &str) -> (r: Option<usize>)
    ensures
        match r {
            Some(k) => entry_from(entry_views(best@), club@, 0) == Some(k as int),
            None => entry_from(entry_views(best@), club@, 0) is None,
        },
        r matches Some(k) ==> k < best@.len(),
{
    let ghost v = entry_views(best@);
    let mut i: usize = 0;
    while i < best.len()
        invariant
            i <= best@.len(),
            v == entry_views(best@),
            entry_from(v, club@, 0) == entry_from(v, club@, i as int),
        decreases best@.len() - i,
    {
        assert(v[i as int].0 == best@[i as int].0@);
        if str_eq(best[i].0.as_str(), club) {
            return Some(i);
        }
        i = i + 1;
    }
    None
}

/// Each club's most prestigious target over all awards.
fn best_of(awards: &Vec<BerthAward>, targets: &Vec<BerthTarget>) -> (r: Vec<(String, u32, String)>)
    ensures
        entry_views(r@) == best_targets(award_views(awards@), target_keys(targets@), awards@.len() as int),
{
    let mut best: Vec<(String, u32, String)> = Vec::new();
    let mut n: usize = 0;
    while n < awards.len()
        invariant
            n <= awards@.len(),
            entry_views(best@) == best_targets(award_views(awards@), target_keys(targets@), n as int),
        decreases awards@.len() - n,
    {
        let a = &awards[n];
        let ghost before = entry_views(best@);
        match priority_of(targets, a.target.as_str()) {
            None => {},
            Some(p) => match entry_of(&best, a.club.as_str()) {
                None => {
                    if p < u32::MAX {
                        best.push((a.club.clone(), p, a.target.clone()));
                    } else {
                        best.push((a.club.clone(), u32::MAX, String::new()));
                    }
                    proof {
                        assert(entry_views(best@) =~= before.push(entry_views(best@).last()));
                    }
                },
                Some(k) => {
                    if p < best[k].1 {
                        best.set(k, (a.club.clone(), p, a.target.clone()));
                        proof {
                            assert(entry_views(best@) =~= before.update(k as int, entry_views(best@)[k as int]));
                        }
                    }
                },
            },
        }
        proof {
            assert(entry_views(best@) =~= best_targets(award_views(awards@), target_keys(targets@), n as int + 1));
        }
        n = n + 1;
    }
    best
}

/// The clubs placed in some target.
fn placed_of(best: &Vec<(String, u32, String)>) -> (r: Vec<String>)
    ensures
        text_views(r@) == entry_views(best@).map_values(|e: (Seq<char>, u32, Seq<char>)| e.0),
{
    let ghost bv = entry_views(best@);
    let mut placed: Vec<String> = Vec::new();
    let mut i: usize = 0;
    while i < best.len()
        invariant
            i <= best@.len(),
            bv == entry_views(best@),
            text_views(placed@) == bv.map_values(|e: (Seq<char>, u32, Seq<char>)| e.0).take(i as int),
        decreases best@.len() - i,
    {
        let ghost before = placed@;
        let c = best[i].0.clone();
        placed.push(c);
        proof {
            assert(text_views(placed@) =~= text_views(before).push(c@));
            assert(bv.map_values(|e: (Seq<char>, u32, Seq<char>)| e.0).take(i as int + 1) =~= bv.map_values(
                |e: (Seq<char>, u32, Seq<char>)| e.0,
            ).take(i as int).push(bv[i as int].0));
        }
        i = i + 1;
    }
    proof {
        assert(bv.map_values(|e: (Seq<char>, u32, Seq<char>)| e.0).take(best@.len() as int) =~= bv.map_values(
            |e: (Seq<char>, u32, Seq<char>)| e.0,
        ));
    }
    placed
}

/// The clubs whose best target is `id`.
fn clubs_of(best: &Vec<(String, u32, String)>, id: &str) -> (r: Vec<String>)
    ensures
        text_views(r@) == clubs_for(entry_views(best@), id@, best@.len() as int),
{
    let ghost bv = entry_views(best@);
    let mut clubs: Vec<String> = Vec::new();
    let mut j: usize = 0;
    while j < best.len()
        invariant
            j <= best@.len(),
            bv == entry_views(best@),
            text_views(clubs@) == clubs_for(bv, id@, j as int),
        decreases best@.len() - j,
    {
        if str_eq(best[j].2.as_str(), id) {
            let ghost before = clubs@;
            let c = best[j].0.clone();
            clubs.push(c);
            proof {
                assert(text_views(clubs@) =~= text_views(before).push(c@));
            }
        }
        j = j + 1;
    }
    clubs
}

/// The field of one berth-fed target.
fn berth_field_for(
    awards: &Vec<BerthAward>,
    targets: &Vec<BerthTarget>,
    teams: &Vec<ClubSeed>,
    id: &str,
    participants: usize,
    feeder_regions: &Vec<String>,
) -> (r: Vec<String>)
    ensures
        text_views(r@) == spec_berth_field(
            award_views(awards@),
            target_keys(targets@),
            teams@,
            id@,
            participants as int,
            text_views(feeder_regions@),
        ),
{
    let best = best_of(awards, targets);
    let placed = placed_of(&best);
    let clubs = clubs_of(&best, id);
    seed_cap_and_fill(teams, feeder_regions, participants, &clubs, &placed)
}

/// Resolve every berth-fed continental field at once: each club goes to the
/// most prestigious target any of its berths awards it, and fields are then
/// seeded, capped and topped up from clubs placed nowhere. The fields come in
/// the order of `targets`.
pub fn berth_fields(awards: &Vec<BerthAward>, targets: &Vec<BerthTarget>, teams: &Vec<ClubSeed>) -> (r: Vec<
    Vec<String>,
>)
    ensures
        r@.len() == targets@.len(),
        forall|t: int|
            0 <= t < targets@.len() ==> text_views(#[trigger] r@[t]@) == spec_berth_fields(
                awards@,
                targets@,
                teams@,
            )[t],
{
    let mut out: Vec<Vec<String>> = Vec::new();
    let mut t: usize = 0;
    while t < targets.len()
        invariant
            t <= targets@.len(),
            out@.len() == t,
            forall|u: int| 0 <= u < t ==> text_views(#[trigger] out@[u]@) == spec_berth_fields(
                awards@,
                targets@,
                teams@,
            )[u],
        decreases targets@.len() - t,
    {
        let target = &targets[t];
        let field = berth_field_for(awards, targets, teams, target.id.as_str(), target.participants, &target.feeder_regions);
        out.push(field);
        t = t + 1;
    }
    out
}

/// The kinds of competition qualification tells apart.
#[derive(Debug, Clone, Copy, PartialEq, Eq, Structural)]
pub enum CompetitionKind {
    League,
    Cup,
    ContinentalClub,
    Other,
}

#[derive(Debug, Clone, Copy, PartialEq, Eq, Structural)]
pub enum CompetitionScope {
    Domestic,
    Continental,
    Other,
}

/// How a berth picks its clubs from a finished competition.
#[derive(Debug, Clone, Copy, PartialEq, Eq, Structural)]
pub enum BerthRule {
    /// Table positions `from..=to`.
    PositionRange { from: u32, to: u32 },
    /// The cup's winner.
    CupWinner,
    /// Resolved by a play-off scheduled elsewhere; selects nobody here.
    PlayoffWinner,
}

/// A berth into `target`, with an optional less prestigious fallback.
#[derive(Debug, Clone, PartialEq, Eq)]
pub struct Berth {
    pub target: String,
    pub rule: BerthRule,
    pub fallback_to: Option<String>,
}

/// A competition as qualification reads it. `table` is the final table in
/// ranking order and `champion` the winner of a completed knockout, both as
/// the competition records them.
#[derive(Debug, Clone, PartialEq, Eq)]
pub struct QualificationCompetition {
    pub id: String,
    pub kind: CompetitionKind,
    pub scope: CompetitionScope,
    pub region_id: Option<String>,
    pub country_id: Option<String>,
    pub priority: u32,
    pub participants: usize,
    pub required_region_ids: Vec<String>,
    pub table: Vec<String>,
    pub champion: Option<String>,
    pub berths: Vec<Berth>,
}

/// The region IDs of the first `n` competitions that have one.
pub open spec fn all_regions(comps: Seq<QualificationCompetition>, n: int) -> Seq<Seq<char>>
    decreases n,
{
    if n <= 0 {
        Seq::empty()
    } else {
        match comps[n - 1].region_id {
            Some(r) => all_regions(comps, n - 1).push(r@),
            None => all_regions(comps, n - 1),
        }
    }
}

/// A competition's feeder regions: those it requires, or every region of the
/// competition set when it requires none.
pub open spec fn feeder_of(comps: Seq<QualificationCompetition>, c: QualificationCompetition) -> Seq<Seq<char>> {
    if c.required_region_ids@.len() == 0 {
        all_regions(comps, comps.len() as int)
    } else {
        text_views(c.required_region_ids@)
    }
}

pub open spec fn in_feeder(c: QualificationCompetition, feeder: Seq<Seq<char>>) -> bool {
    c.region_id matches Some(r) && feeder.contains(r@)
}

/// `acc` with the first `n` of `xs` appended, each only if not already there.
pub open spec fn add_new(acc: Seq<Seq<char>>, xs: Seq<Seq<char>>, n: int) -> Seq<Seq<char>>
    decreases n,
{
    if n <= 0 {
        acc
    } else {
        let a = add_new(acc, xs, n - 1);
        if a.contains(xs[n - 1]) {
            a
        } else {
            a.push(xs[n - 1])
        }
    }
}

/// The continental slots a first division gives: its top four.
pub open spec fn top_four(table: Seq<Seq<char>>) -> Seq<Seq<char>> {
    if table.len() > 4 {
        table.take(4)
    } else {
        table
    }
}

/// The first entry for `country` from position `i` on.
pub open spec fn country_from(firsts: Seq<(Seq<char>, int)>, country: Seq<char>, i: int) -> Option<int>
    decreases firsts.len() - i,
{
    if i < 0 || i >= firsts.len() {
        None
    } else if firsts[i].0 == country {
        Some(i)
    } else {
        country_from(firsts, country, i + 1)
    }
}

/// Each feeder country's first division among the first `n` competitions:
/// its domestic league of lowest priority (the first one listed on a tie).
pub open spec fn first_divisions(comps: Seq<QualificationCompetition>, feeder: Seq<Seq<char>>, n: int) -> Seq<
    (Seq<char>, int),
>
    decreases n,
{
    if n <= 0 {
        Seq::empty()
    } else {
        let prev = first_divisions(comps, feeder, n - 1);
        let c = comps[n - 1];
        if c.scope == CompetitionScope::Domestic && c.kind == CompetitionKind::League && in_feeder(c, feeder) {
            match c.country_id {
                None => prev,
                Some(country) => match country_from(prev, country@, 0) {
                    None => prev.push((country@, n - 1)),
                    Some(k) => if c.priority < comps[prev[k].1].priority {
                        prev.update(k, (country@, n - 1))
                    } else {
                        prev
                    },
                },
            }
        } else {
            prev
        }
    }
}

/// The top four of the first `n` first divisions, each club once.
pub open spec fn league_entrants(comps: Seq<QualificationCompetition>, firsts: Seq<(Seq<char>, int)>, n: int) -> Seq<
    Seq<char>,
>
    decreases n,
{
    if n <= 0 {
        Seq::empty()
    } else {
        let t = top_four(text_views(comps[firsts[n - 1].1].table@));
        add_new(league_entrants(comps, firsts, n - 1), t, t.len() as int)
    }
}

/// `acc` with the winners of the first `n` domestic cups of the feeder
/// regions added, each club once.
pub open spec fn cup_entrants(
    comps: Seq<QualificationCompetition>,
    feeder: Seq<Seq<char>>,
    acc: Seq<Seq<char>>,
    n: int,
) -> Seq<Seq<char>>
    decreases n,
{
    if n <= 0 {
        acc
    } else {
        let prev = cup_entrants(comps, feeder, acc, n - 1);
        let c = comps[n - 1];
        if c.scope == CompetitionScope::Domestic && c.kind == CompetitionKind::Cup && in_feeder(c, feeder) {
            match c.champion {
                Some(w) => add_new(prev, seq![w@], 1),
                None => prev,
            }
        } else {
            prev
        }
    }
}

/// The field of a continental competition that no berth feeds: the top four
/// of each feeder country's first division and the feeder cups' winners,
/// seeded, capped and topped up.
pub open spec fn spec_inferred_field(
    comps: Seq<QualificationCompetition>,
    c: QualificationCompetition,
    teams: Seq<ClubSeed>,
) -> Seq<Seq<char>> {
    let feeder = feeder_of(comps, c);
    let firsts = first_divisions(comps, feeder, comps.len() as int);
    let q = cup_entrants(
        comps,
        feeder,
        league_entrants(comps, firsts, firsts.len() as int),
        comps.len() as int,
    );
    spec_seed_cap_and_fill(teams, feeder, c.participants as int, q, q)
}

fn regions_of(comps: &Vec<QualificationCompetition>) -> (r: Vec<String>)
    ensures
        text_views(r@) == all_regions(comps@, comps@.len() as int),
{
    let mut out: Vec<String> = Vec::new();
    let mut i: usize = 0;
    while i < comps.len()
        invariant
            i <= comps@.len(),
            text_views(out@) == all_regions(comps@, i as int),
        decreases comps@.len() - i,
    {
        match &comps[i].region_id {
            Some(r) => {
                let ghost before = out@;
                let r2 = r.clone();
                out.push(r2);
                proof {
                    assert(text_views(out@) =~= text_views(before).push(r2@));
                }
            },
            None => {},
        }
        i = i + 1;
    }
    out
}

fn copy_texts(v: &Vec<String>) -> (r: Vec<String>)
    ensures
        text_views(r@) == text_views(v@),
{
    let mut out: Vec<String> = Vec::new();
    let mut i: usize = 0;
    while i < v.len()
        invariant
            i <= v@.len(),
            text_views(out@) == text_views(v@).take(i as int),
        decreases v@.len() - i,
    {
        let ghost before = out@;
        let x = v[i].clone();
        out.push(x);
        proof {
            assert(text_views(out@) =~= text_views(before).push(x@));
            assert(text_views(v@).take(i as int + 1) =~= text_views(v@).take(i as int).push(x@));
        }
        i = i + 1;
    }
    proof {
        assert(text_views(v@).take(v@.len() as int) =~= text_views(v@));
    }
    out
}

fn feeder_regions_of(comps: &Vec<QualificationCompetition>, c: &QualificationCompetition) -> (r: Vec<String>)
    ensures
        text_views(r@) == feeder_of(comps@, *c),
{
    if c.required_region_ids.len() == 0 {
        regions_of(comps)
    } else {
        copy_texts(&c.required_region_ids)
    }
}

fn in_feeder_exec(c: &QualificationCompetition, feeder: &Vec<String>) -> (r: bool)
    ensures
        r == in_feeder(*c, text_views(feeder@)),
{
    match &c.region_id {
        Some(r) => contains_text(feeder, r.as_str()),
        None => false,
    }
}

/// Append the first `n` of `xs` to `acc`, skipping clubs already there.
fn add_new_exec(acc: &mut Vec<String>, xs: &Vec<String>, n: usize)
    requires
        n <= xs@.len(),
    ensures
        text_views(final(acc)@) == add_new(text_views(old(acc)@), text_views(xs@), n as int),
{
    let ghost start = text_views(acc@);
    let mut i: usize = 0;
    while i < n
        invariant
            i <= n,
            n <= xs@.len(),
            text_views(acc@) == add_new(start, text_views(xs@), i as int),
        decreases n - i,
    {
        if !contains_text(acc, xs[i].as_str()) {
            let ghost before = acc@;
            let x = xs[i].clone();
            acc.push(x);
            proof {
                assert(text_views(acc@) =~= text_views(before).push(x@));
            }
        }
        i = i + 1;
    }
}

fn country_of(firsts: &Vec<(String, usize)>, country: &str) -> (r: Option<usize>)
    ensures
        match r {
            Some(k) => country_from(first_views(firsts@), country@, 0) == Some(k as int),
            None => country_from(first_views(firsts@), country@, 0) is None,
        },
        r matches Some(k) ==> k < firsts@.len(),
{
    let ghost v = first_views(firsts@);
    let mut i: usize = 0;
    while i < firsts.len()
        invariant
            i <= firsts@.len(),
            v == first_views(firsts@),
            country_from(v, country@, 0) == country_from(v, country@, i as int),
        decreases firsts@.len() - i,
    {
        assert(v[i as int].0 == firsts@[i as int].0@);
        if str_eq(firsts[i].0.as_str(), country) {
            return Some(i);
        }
        i = i + 1;
    }
    None
}

pub open spec fn first_views(v: Seq<(String, usize)>) -> Seq<(Seq<char>, int)> {
    v.map_values(|e: (String, usize)| (e.0@, e.1 as int))
}

fn is_domestic_league(c: &QualificationCompetition) -> (r: bool)
    ensures
        r == (c.scope == CompetitionScope::Domestic && c.kind == CompetitionKind::League),
{
    match (c.scope, c.kind) {
        (CompetitionScope::Domestic, CompetitionKind::League) => true,
        _ => false,
    }
}

fn is_domestic_cup(c: &QualificationCompetition) -> (r: bool)
    ensures
        r == (c.scope == CompetitionScope::Domestic && c.kind == CompetitionKind::Cup),
{
    match (c.scope, c.kind) {
        (CompetitionScope::Domestic, CompetitionKind::Cup) => true,
        _ => false,
    }
}

/// The field of a continental competition that no berth feeds.
pub fn inferred_field(comps: &Vec<QualificationCompetition>, c: &QualificationCompetition, teams: &Vec<ClubSeed>) -> (r:
    Vec<String>)
    ensures
        text_views(r@) == spec_inferred_field(comps@, *c, teams@),
{
    let feeder = feeder_regions_of(comps, c);
    let ghost fv = text_views(feeder@);
    let mut firsts: Vec<(String, usize)> = Vec::new();
    let mut i: usize = 0;
    while i < comps.len()
        invariant
            i <= comps@.len(),
            fv == text_views(feeder@),
            first_views(firsts@) == first_divisions(comps@, fv, i as int),
            forall|k: int| 0 <= k < firsts@.len() ==> (#[trigger] firsts@[k]).1 < i,
        decreases comps@.len() - i,
    {
        let comp = &comps[i];
        let ghost before = first_views(firsts@);
        if is_domestic_league(comp) && in_feeder_exec(comp, &feeder) {
            match &comp.country_id {
                None => {},
                Some(country) => match country_of(&firsts, country.as_str()) {
                    None => {
                        firsts.push((country.clone(), i));
                        proof {
                            assert(first_views(firsts@) =~= before.push((country@, i as int)));
                        }
                    },
                    Some(k) => {
                        let holder = firsts[k].1;
                        if comp.priority < comps[holder].priority {
                            firsts.set(k, (country.clone(), i));
                            proof {
                                assert(first_views(firsts@) =~= before.update(k as int, (country@, i as int)));
                            }
                        }
                    },
                },
            }
        }
        i = i + 1;
    }
    let ghost fd = first_divisions(comps@, fv, comps@.len() as int);
    let mut q: Vec<String> = Vec::new();
    let mut j: usize = 0;
    while j < firsts.len()
        invariant
            j <= firsts@.len(),
            first_views(firsts@) == fd,
            forall|k: int| 0 <= k < firsts@.len() ==> (#[trigger] firsts@[k]).1 < comps@.len(),
            text_views(q@) == league_entrants(comps@, fd, j as int),
        decreases firsts@.len() - j,
    {
        let league = &comps[firsts[j].1];
        let n: usize = if league.table.len() > 4 {
            4
        } else {
            league.table.len()
        };
        let ghost old_q = text_views(q@);
        add_new_exec(&mut q, &league.table, n);
        proof {
            let t = text_views(league.table@);
            assert(fd[j as int].1 == firsts@[j as int].1 as int);
            assert(top_four(t) =~= t.take(n as int));
            lemma_add_new_prefix(old_q, t, t.take(n as int), n as int);
        }
        j = j + 1;
    }
    let mut m: usize = 0;
    let ghost leagues_q = league_entrants(comps@, fd, fd.len() as int);
    while m < comps.len()
        invariant
            m <= comps@.len(),
            fv == text_views(feeder@),
            text_views(q@) == cup_entrants(comps@, fv, leagues_q, m as int),
        decreases comps@.len() - m,
    {
        let comp = &comps[m];
        if is_domestic_cup(comp) && in_feeder_exec(comp, &feeder) {
            match &comp.champion {
                Some(w) => {
                    let one = vec![w.clone()];
                    proof {
                        assert(text_views(one@) =~= seq![w@]);
                    }
                    add_new_exec(&mut q, &one, 1);
                },
                None => {},
            }
        }
        m = m + 1;
    }
    seed_cap_and_fill(teams, &feeder, c.participants, &q, &q)
}

proof fn lemma_add_new_prefix(acc: Seq<Seq<char>>, xs: Seq<Seq<char>>, ys: Seq<Seq<char>>, a: int)
    requires
        0 <= a <= ys.len(),
        a <= xs.len(),
        forall|k: int| 0 <= k < ys.len() ==> ys[k] == xs[k],
    ensures
        add_new(acc, xs, a) == add_new(acc, ys, a),
    decreases a,
{
    if a > 0 {
        lemma_add_new_prefix(acc, xs, ys, a - 1);
    }
}


/// The clubs a berth rule selects from a finished competition.
pub open spec fn rule_winners(c: QualificationCompetition, rule: BerthRule) -> Seq<Seq<char>> {
    match rule {
        BerthRule::PositionRange { from, to } => spec_position_range(text_views(c.table@), from as int, to as int),
        BerthRule::CupWinner => match c.champion {
            Some(w) => seq![w@],
            None => Seq::empty(),
        },
        BerthRule::PlayoffWinner => Seq::empty(),
    }
}

/// The awards of a berth to its first `n` winners: the target, then the
/// fallback when there is one.
pub open spec fn winner_awards(ws: Seq<Seq<char>>, b: Berth, n: int) -> Seq<(Seq<char>, Seq<char>)>
    decreases n,
{
    if n <= 0 {
        Seq::empty()
    } else {
        let prev = winner_awards(ws, b, n - 1).push((ws[n - 1], b.target@));
        match b.fallback_to {
            Some(f) => prev.push((ws[n - 1], f@)),
            None => prev,
        }
    }
}

/// The awards of a competition's first `n` berths.
pub open spec fn comp_awards(c: QualificationCompetition, n: int) -> Seq<(Seq<char>, Seq<char>)>
    decreases n,
{
    if n <= 0 {
        Seq::empty()
    } else {
        let b = c.berths@[n - 1];
        let ws = rule_winners(c, b.rule);
        comp_awards(c, n - 1) + winner_awards(ws, b, ws.len() as int)
    }
}

/// The awards of the first `n` competitions.
pub open spec fn all_awards(comps: Seq<QualificationCompetition>, n: int) -> Seq<(Seq<char>, Seq<char>)>
    decreases n,
{
    if n <= 0 {
        Seq::empty()
    } else {
        all_awards(comps, n - 1) + comp_awards(comps[n - 1], comps[n - 1].berths@.len() as int)
    }
}

/// Whether one of the first `n` berths leads to `id`, directly or as fallback.
pub open spec fn berth_leads(bs: Seq<Berth>, id: Seq<char>, n: int) -> bool
    decreases n,
{
    n > 0 && (bs[n - 1].target@ == id || (bs[n - 1].fallback_to matches Some(f) && f@ == id) || berth_leads(
        bs,
        id,
        n - 1,
    ))
}

/// Whether a berth of one of the first `n` competitions leads to `id`: its
/// qualification is then set by berths rather than inferred.
pub open spec fn has_incoming(comps: Seq<QualificationCompetition>, id: Seq<char>, n: int) -> bool
    decreases n,
{
    n > 0 && (berth_leads(comps[n - 1].berths@, id, comps[n - 1].berths@.len() as int) || has_incoming(
        comps,
        id,
        n - 1,
    ))
}

/// The (ID, priority) of the berth-fed continental competitions among the first `n`.
pub open spec fn all_keys(comps: Seq<QualificationCompetition>, n: int) -> Seq<(Seq<char>, u32)>
    decreases n,
{
    if n <= 0 {
        Seq::empty()
    } else {
        let c = comps[n - 1];
        if c.scope == CompetitionScope::Continental && has_incoming(comps, c.id@, comps.len() as int) {
            all_keys(comps, n - 1).push((c.id@, c.priority))
        } else {
            all_keys(comps, n - 1)
        }
    }
}

/// The field of each continental club competition among the first `n`: from
/// its berths when any lead to it, inferred otherwise.
pub open spec fn spec_fields(comps: Seq<QualificationCompetition>, teams: Seq<ClubSeed>, n: int) -> Seq<
    (Seq<char>, Seq<Seq<char>>),
>
    decreases n,
{
    if n <= 0 {
        Seq::empty()
    } else {
        let c = comps[n - 1];
        let prev = spec_fields(comps, teams, n - 1);
        if c.scope == CompetitionScope::Continental && c.kind == CompetitionKind::ContinentalClub {
            let len = comps.len() as int;
            prev.push(
                (
                    c.id@,
                    if has_incoming(comps, c.id@, len) {
                        spec_berth_field(
                            all_awards(comps, len),
                            all_keys(comps, len),
                            teams,
                            c.id@,
                            c.participants as int,
                            feeder_of(comps, c),
                        )
                    } else {
                        spec_inferred_field(comps, c, teams)
                    },
                ),
            )
        } else {
            prev
        }
    }
}

pub open spec fn field_views(v: Seq<(String, Vec<String>)>) -> Seq<(Seq<char>, Seq<Seq<char>>)> {
    v.map_values(|e: (String, Vec<String>)| (e.0@, text_views(e.1@)))
}

fn rule_winners_exec(c: &QualificationCompetition, rule: BerthRule) -> (r: Vec<String>)
    ensures
        text_views(r@) == rule_winners(*c, rule),
{
    match rule {
        BerthRule::PositionRange { from, to } => position_range(&c.table, from, to),
        BerthRule::CupWinner => match &c.champion {
            Some(w) => {
                let v = vec![w.clone()];
                assert(text_views(v@) =~= seq![w@]);
                v
            },
            None => {
                let v: Vec<String> = Vec::new();
                assert(text_views(v@) =~= Seq::<Seq<char>>::empty());
                v
            },
        },
        BerthRule::PlayoffWinner => {
            let v: Vec<String> = Vec::new();
            assert(text_views(v@) =~= Seq::<Seq<char>>::empty());
            v
        },
    }
}

fn award_list(comps: &Vec<QualificationCompetition>) -> (r: Vec<BerthAward>)
    ensures
        award_views(r@) == all_awards(comps@, comps@.len() as int),
{
    let mut out: Vec<BerthAward> = Vec::new();
    let mut i: usize = 0;
    while i < comps.len()
        invariant
            i <= comps@.len(),
            award_views(out@) == all_awards(comps@, i as int),
        decreases comps@.len() - i,
    {
        let c = &comps[i];
        let ghost base = award_views(out@);
        let mut j: usize = 0;
        while j < c.berths.len()
            invariant
                j <= c.berths@.len(),
                award_views(out@) == base + comp_awards(*c, j as int),
            decreases c.berths@.len() - j,
        {
            let b = &c.berths[j];
            let ws = rule_winners_exec(c, b.rule);
            let ghost mid = award_views(out@);
            let mut k: usize = 0;
            while k < ws.len()
                invariant
                    k <= ws@.len(),
                    award_views(out@) == mid + winner_awards(text_views(ws@), *b, k as int),
                decreases ws@.len() - k,
            {
                let ghost before = award_views(out@);
                let club = ws[k].clone();
                let target = b.target.clone();
                out.push(BerthAward { club, target });
                match &b.fallback_to {
                    Some(f) => {
                        let club2 = ws[k].clone();
                        let f2 = f.clone();
                        out.push(BerthAward { club: club2, target: f2 });
                        proof {
                            assert(award_views(out@) =~= before.push((ws@[k as int]@, b.target@)).push(
                                (ws@[k as int]@, f@),
                            ));
                        }
                    },
                    None => {
                        proof {
                            assert(award_views(out@) =~= before.push((ws@[k as int]@, b.target@)));
                        }
                    },
                }
                proof {
                    assert(text_views(ws@)[k as int] == ws@[k as int]@);
                    assert(award_views(out@) =~= mid + winner_awards(text_views(ws@), *b, k as int + 1));
                }
                k = k + 1;
            }
            proof {
                assert(c.berths@[j as int] == *b);
                assert(award_views(out@) =~= base + comp_awards(*c, j as int + 1));
            }
            j = j + 1;
        }
        proof {
            assert(award_views(out@) =~= all_awards(comps@, i as int + 1));
        }
        i = i + 1;
    }
    out
}

fn leads_to(comps: &Vec<QualificationCompetition>, id: &str) -> (r: bool)
    ensures
        r == has_incoming(comps@, id@, comps@.len() as int),
{
    let mut i: usize = 0;
    let mut found = false;
    while i < comps.len()
        invariant
            i <= comps@.len(),
            found == has_incoming(comps@, id@, i as int),
        decreases comps@.len() - i,
    {
        let bs = &comps[i].berths;
        let mut j: usize = 0;
        let mut here = false;
        while j < bs.len()
            invariant
                j <= bs@.len(),
                here == berth_leads(bs@, id@, j as int),
            decreases bs@.len() - j,
        {
            let hit = str_eq(bs[j].target.as_str(), id) || match &bs[j].fallback_to {
                Some(f) => str_eq(f.as_str(), id),
                None => false,
            };
            here = hit || here;
            j = j + 1;
        }
        found = here || found;
        i = i + 1;
    }
    found
}

fn target_list(comps: &Vec<QualificationCompetition>) -> (r: Vec<BerthTarget>)
    ensures
        target_keys(r@) == all_keys(comps@, comps@.len() as int),
{
    let mut out: Vec<BerthTarget> = Vec::new();
    let mut i: usize = 0;
    while i < comps.len()
        invariant
            i <= comps@.len(),
            target_keys(out@) == all_keys(comps@, i as int),
        decreases comps@.len() - i,
    {
        let c = &comps[i];
        let continental = match c.scope {
            CompetitionScope::Continental => true,
            _ => false,
        };
        if continental && leads_to(comps, c.id.as_str()) {
            let ghost before = target_keys(out@);
            let id = c.id.clone();
            out.push(BerthTarget { id, priority: c.priority, participants: c.participants, feeder_regions: Vec::new() });
            proof {
                assert(target_keys(out@) =~= before.push((c.id@, c.priority)));
            }
        }
        i = i + 1;
    }
    out
}

/// The field of every continental club competition, in the order listed:
/// berth-fed fields resolved together (each club in the most prestigious
/// target it earns), the others inferred from first divisions and cups.
pub fn fields(comps: &Vec<QualificationCompetition>, teams: &Vec<ClubSeed>) -> (r: Vec<(String, Vec<String>)>)
    ensures
        field_views(r@) == spec_fields(comps@, teams@, comps@.len() as int),
{
    let awards = award_list(comps);
    let targets = target_list(comps);
    let mut out: Vec<(String, Vec<String>)> = Vec::new();
    let mut i: usize = 0;
    while i < comps.len()
        invariant
            i <= comps@.len(),
            award_views(awards@) == all_awards(comps@, comps@.len() as int),
            target_keys(targets@) == all_keys(comps@, comps@.len() as int),
            field_views(out@) == spec_fields(comps@, teams@, i as int),
        decreases comps@.len() - i,
    {
        let c = &comps[i];
        let club_competition = match (c.scope, c.kind) {
            (CompetitionScope::Continental, CompetitionKind::ContinentalClub) => true,
            _ => false,
        };
        if club_competition {
            let field = if leads_to(comps, c.id.as_str()) {
                let feeder = feeder_regions_of(comps, c);
                berth_field_for(&awards, &targets, teams, c.id.as_str(), c.participants, &feeder)
            } else {
                inferred_field(comps, c, teams)
            };
            let ghost before = field_views(out@);
            let id = c.id.clone();
            out.push((id, field));
            proof {
                assert(field_views(out@) =~= before.push((c.id@, text_views(field@))));
            }
        }
        i = i + 1;
    }
    out
}

} // verus!
