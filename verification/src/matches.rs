//! What a delegated fixture accepts before the match engine plays it: two
//! match-day squads with eleven starters, at most twelve on the bench, nonblank
//! and globally distinct club and player IDs, a manager profile in range, and
//! every player attribute within 0..=100.
use vstd::prelude::*;
use crate::text::{contains_text, is_blank, is_blank_spec, text_views};

verus! {

/// A player of a match-day squad: its ID and its numeric attributes.
#[derive(Debug, Clone, PartialEq, Eq)]
pub struct SquadPlayer {
    pub id: String,
    pub attributes: Vec<u8>,
}

/// A selected match-day squad and its delegated manager's profile.
#[derive(Debug, Clone, PartialEq, Eq)]
pub struct DelegatedSquad {
    pub club_id: String,
    pub starting: Vec<SquadPlayer>,
    pub bench: Vec<SquadPlayer>,
    pub experience: u32,
    pub reputation: u32,
}

pub open spec fn ids_message() -> Seq<char> {
    "club and player IDs must be nonempty and globally distinct"@
}

pub open spec fn attribute_message(id: Seq<char>) -> Seq<char> {
    "player "@ + id + " has an attribute outside 0..=100"@
}

/// Some attribute of `p` is above 100.
pub open spec fn out_of_range(p: SquadPlayer) -> bool {
    exists|k: int| 0 <= k < p.attributes@.len() && p.attributes@[k] > 100
}

/// The first problem among `players`, checked in order against the IDs `seen`
/// so far: a blank or repeated ID, or an attribute out of range.
pub open spec fn player_error(players: Seq<SquadPlayer>, seen: Seq<Seq<char>>) -> Option<Seq<char>>
    decreases players.len(),
{
    if players.len() == 0 {
        None
    } else {
        let p = players[0];
        if is_blank_spec(p.id@) || seen.contains(p.id@) {
            Some(ids_message())
        } else if out_of_range(p) {
            Some(attribute_message(p.id@))
        } else {
            player_error(players.drop_first(), seen.push(p.id@))
        }
    }
}

/// The IDs a valid squad adds: the club's, then its starters' and bench's.
pub open spec fn squad_ids(s: DelegatedSquad) -> Seq<Seq<char>> {
    seq![s.club_id@] + (s.starting@ + s.bench@).map_values(|p: SquadPlayer| p.id@)
}

/// The first problem with squad `s` given the IDs `seen` so far, if any.
pub open spec fn squad_error(s: DelegatedSquad, seen: Seq<Seq<char>>) -> Option<Seq<char>> {
    if s.starting@.len() != 11 {
        Some("a starting lineup must contain exactly 11 players"@)
    } else if s.bench@.len() > 12 {
        Some("a match-day bench must contain at most 12 players"@)
    } else if is_blank_spec(s.club_id@) || seen.contains(s.club_id@) {
        Some(ids_message())
    } else if s.experience > 100 || s.reputation > 1000 {
        Some("delegated manager profile is out of range"@)
    } else {
        player_error(s.starting@ + s.bench@, seen.push(s.club_id@))
    }
}

/// The first problem with a fixture: the home squad's, else the away squad's
/// (whose IDs must also differ from the home squad's).
pub open spec fn fixture_error(home: DelegatedSquad, away: DelegatedSquad) -> Option<Seq<char>> {
    match squad_error(home, Seq::empty()) {
        Some(e) => Some(e),
        None => squad_error(away, squad_ids(home)),
    }
}

proof fn lemma_player_error_step(players: Seq<SquadPlayer>, seen: Seq<Seq<char>>, i: int)
    requires
        0 <= i < players.len(),
        !(is_blank_spec(players[i].id@) || (seen + players.take(i).map_values(|p: SquadPlayer| p.id@)).contains(
            players[i].id@,
        )),
        !out_of_range(players[i]),
    ensures
        player_error(players.skip(i), seen + players.take(i).map_values(|p: SquadPlayer| p.id@))
            == player_error(players.skip(i + 1), seen + players.take(i + 1).map_values(|p: SquadPlayer| p.id@)),
{
    let ids_i = seen + players.take(i).map_values(|p: SquadPlayer| p.id@);
    assert(players.skip(i)[0] == players[i]);
    assert(players.skip(i).drop_first() =~= players.skip(i + 1));
    assert(ids_i.push(players[i].id@) =~= seen + players.take(i + 1).map_values(|p: SquadPlayer| p.id@));
}

fn attributes_ok(p: &SquadPlayer) -> (r: bool)
    ensures
        r == !out_of_range(*p),
{
    let mut k: usize = 0;
    while k < p.attributes.len()
        invariant
            k <= p.attributes@.len(),
            forall|j: int| 0 <= j < k ==> p.attributes@[j] <= 100,
        decreases p.attributes@.len() - k,
    {
        if p.attributes[k] > 100 {
            return false;
        }
        k = k + 1;
    }
    true
}

fn attribute_error(id: &String) -> (r: String)
    ensures
        r@ == attribute_message(id@),
{
    let mut m = String::from_str("player ");
    m.append(id.as_str());
    m.append(" has an attribute outside 0..=100");
    m
}

/// Check `players` in order, recording their IDs in `seen`.
fn check_players(players: &Vec<SquadPlayer>, seen: &mut Vec<String>) -> (r: Result<(), String>)
    ensures
        match player_error(players@, text_views(old(seen)@)) {
            Some(e) => r matches Err(m) && m@ == e,
            None => r is Ok && text_views(final(seen)@) == text_views(old(seen)@) + players@.map_values(
                |p: SquadPlayer| p.id@,
            ),
        },
{
    let ghost seen0 = text_views(seen@);
    let mut i: usize = 0;
    assert(players@.skip(0) =~= players@);
    assert(seen0 + players@.take(0).map_values(|p: SquadPlayer| p.id@) =~= seen0);
    while i < players.len()
        invariant
            i <= players@.len(),
            seen0 == text_views(old(seen)@),
            text_views(seen@) == seen0 + players@.take(i as int).map_values(|p: SquadPlayer| p.id@),
            player_error(players@, seen0) == player_error(players@.skip(i as int), text_views(seen@)),
        decreases players@.len() - i,
    {
        let p = &players[i];
        assert(players@.skip(i as int)[0] == players@[i as int]);
        if is_blank(p.id.as_str()) || contains_text(seen, p.id.as_str()) {
            return Err("club and player IDs must be nonempty and globally distinct".to_owned());
        }
        if !attributes_ok(p) {
            return Err(attribute_error(&p.id));
        }
        proof {
            lemma_player_error_step(players@, seen0, i as int);
        }
        let ghost prev = seen@;
        seen.push(p.id.clone());
        assert(text_views(seen@) =~= text_views(prev).push(p.id@));
        assert(players@.take(i as int + 1).map_values(|q: SquadPlayer| q.id@) =~= players@.take(i as int).map_values(
            |q: SquadPlayer| q.id@,
        ).push(p.id@));
        i = i + 1;
    }
    assert(players@.skip(players@.len() as int) =~= Seq::<SquadPlayer>::empty());
    assert(players@.take(players@.len() as int) =~= players@);
    Ok(())
}

/// Check one squad against the IDs `seen` so far, recording its IDs.
fn check_squad(s: &DelegatedSquad, seen: &mut Vec<String>) -> (r: Result<(), String>)
    ensures
        match squad_error(*s, text_views(old(seen)@)) {
            Some(e) => r matches Err(m) && m@ == e,
            None => r is Ok && text_views(final(seen)@) == text_views(old(seen)@) + squad_ids(*s),
        },
{
    if s.starting.len() != 11 {
        return Err("a starting lineup must contain exactly 11 players".to_owned());
    }
    if s.bench.len() > 12 {
        return Err("a match-day bench must contain at most 12 players".to_owned());
    }
    if is_blank(s.club_id.as_str()) || contains_text(seen, s.club_id.as_str()) {
        return Err("club and player IDs must be nonempty and globally distinct".to_owned());
    }
    if s.experience > 100 || s.reputation > 1000 {
        return Err("delegated manager profile is out of range".to_owned());
    }
    let ghost before = text_views(seen@);
    let ghost prev = seen@;
    seen.push(s.club_id.clone());
    assert(text_views(seen@) =~= text_views(prev).push(s.club_id@));
    let ghost mid = text_views(seen@);
    proof {
        lemma_player_error_concat(s.starting@, s.bench@, mid);
    }
    check_players(&s.starting, seen)?;
    check_players(&s.bench, seen)?;
    proof {
        let ids = |p: SquadPlayer| p.id@;
        assert((s.starting@ + s.bench@).map_values(ids) =~= s.starting@.map_values(ids) + s.bench@.map_values(ids));
        assert(squad_ids(*s) =~= seq![s.club_id@] + (s.starting@ + s.bench@).map_values(ids));
        assert(text_views(seen@) =~= before + squad_ids(*s));
    }
    Ok(())
}

/// Checking two lists in turn is checking their concatenation.
proof fn lemma_player_error_concat(a: Seq<SquadPlayer>, b: Seq<SquadPlayer>, seen: Seq<Seq<char>>)
    ensures
        player_error(a + b, seen) == (match player_error(a, seen) {
            Some(e) => Some(e),
            None => player_error(b, seen + a.map_values(|p: SquadPlayer| p.id@)),
        }),
    decreases a.len(),
{
    if a.len() == 0 {
        assert(a + b =~= b);
        assert(seen + a.map_values(|p: SquadPlayer| p.id@) =~= seen);
    } else {
        assert((a + b)[0] == a[0]);
        assert((a + b).drop_first() =~= a.drop_first() + b);
        lemma_player_error_concat(a.drop_first(), b, seen.push(a[0].id@));
        assert(seen.push(a[0].id@) + a.drop_first().map_values(|p: SquadPlayer| p.id@) =~= seen + a.map_values(
            |p: SquadPlayer| p.id@,
        ));
    }
}

/// Check a fixture's two squads before the engine plays it: `Err` with the
/// first problem found, home squad first.
pub fn validate_fixture_squads(home: &DelegatedSquad, away: &DelegatedSquad) -> (r: Result<(), String>)
    ensures
        match fixture_error(*home, *away) {
            Some(e) => r matches Err(m) && m@ == e,
            None => r is Ok,
        },
{
    let mut seen: Vec<String> = Vec::new();
    assert(text_views(seen@) =~= Seq::<Seq<char>>::empty());
    check_squad(home, &mut seen)?;
    assert(text_views(seen@) =~= squad_ids(*home));
    check_squad(away, &mut seen)
}

} // verus!
