//! Injury availability and card statistics. Cards are season statistics, not
//! suspensions: only an injury blocks team selection.
use vstd::prelude::*;
use crate::text::{is_blank, is_blank_spec, str_eq};
use crate::random::{random_below_usize, random_u32_inclusive};

verus! {

/// An injury and the days it still keeps the player out.
#[derive(Debug, Clone, PartialEq, Eq)]
pub struct Injury {
    pub name: String,
    pub days_remaining: u32,
}

/// A player's injury status and season card counters.
#[derive(Debug, Clone, PartialEq, Eq)]
pub struct Availability {
    pub injury: Option<Injury>,
    /// Season statistics, not suspension points.
    pub yellow_cards: u32,
    pub red_cards: u32,
}

impl Default for Availability {
    fn default() -> (r: Self)
        ensures
            r.injury is None,
            r.yellow_cards == 0,
            r.red_cards == 0,
    {
        Availability { injury: None, yellow_cards: 0, red_cards: 0 }
    }
}

/// An availability record is valid unless it carries an injury with a blank name.
pub open spec fn availability_valid(a: Availability) -> bool {
    a.injury matches Some(injury) ==> !is_blank_spec(injury.name@)
}

/// Injury state after one day of recovery: a last day (or zero days) clears it.
pub open spec fn recovered_injury(injury: Option<Injury>) -> Option<Injury> {
    match injury {
        None => None,
        Some(i) => if i.days_remaining > 1 {
            Some(Injury { name: i.name, days_remaining: (i.days_remaining - 1) as u32 })
        } else {
            None
        },
    }
}

impl Availability {
    /// Rejects an injury whose name is blank; zero-duration injuries are allowed.
    pub fn validate(&self) -> (r: Result<(), String>)
        ensures
            r.is_ok() <==> availability_valid(*self),
    {
        match &self.injury {
            Some(injury) => {
                if is_blank(injury.name.as_str()) {
                    return Err("Injury name must be nonblank".to_owned());
                }
            },
            None => {},
        }
        Ok(())
    }

    /// Only an injury excludes a player; fatigue and cards do not.
    pub fn is_available(&self) -> (r: bool)
        ensures
            r == (self.injury is None),
    {
        self.injury.is_none()
    }

    /// One daily recovery tick. Returns true only when an existing injury clears.
    pub fn progress_recovery(&mut self) -> (cleared: bool)
        ensures
            cleared == (old(self).injury matches Some(i) && i.days_remaining <= 1),
            final(self).injury == recovered_injury(old(self).injury),
            final(self).yellow_cards == old(self).yellow_cards,
            final(self).red_cards == old(self).red_cards,
    {
        let taken = self.injury.take();
        match taken {
            None => false,
            Some(injury) => {
                if injury.days_remaining > 1 {
                    self.injury = Some(Injury { name: injury.name, days_remaining: injury.days_remaining - 1 });
                    false
                } else {
                    true
                }
            },
        }
    }

    /// Add one report entry's cards; both counters change together or not at all.
    pub fn add_match_cards(&mut self, yellow_cards: u8, red_cards: u8) -> (r: Result<(), String>)
        ensures
            r.is_ok() <==> (old(self).yellow_cards + yellow_cards <= u32::MAX
                && old(self).red_cards + red_cards <= u32::MAX),
            r.is_err() ==> *final(self) == *old(self),
            r.is_ok() ==> *final(self) == (Availability {
                yellow_cards: (old(self).yellow_cards + yellow_cards) as u32,
                red_cards: (old(self).red_cards + red_cards) as u32,
                ..*old(self)
            }),
    {
        let yellows = match self.yellow_cards.checked_add(yellow_cards as u32) {
            Some(v) => v,
            None => return Err("Yellow-card counter overflow".to_owned()),
        };
        let reds = match self.red_cards.checked_add(red_cards as u32) {
            Some(v) => v,
            None => return Err("Red-card counter overflow".to_owned()),
        };
        self.yellow_cards = yellows;
        self.red_cards = reds;
        Ok(())
    }

    /// Season reset clears cards but keeps an existing injury.
    pub fn reset_season_cards(&mut self)
        ensures
            *final(self) == (Availability { yellow_cards: 0, red_cards: 0, ..*old(self) }),
    {
        self.yellow_cards = 0;
        self.red_cards = 0;
    }
}

/// The injury after `k` days of recovery.
pub open spec fn recovery_days(injury: Option<Injury>, k: nat) -> Option<Injury>
    decreases k,
{
    if k == 0 {
        injury
    } else {
        recovered_injury(recovery_days(injury, (k - 1) as nat))
    }
}

/// An injury of `d >= 1` days lasts exactly `d` recovery days: after `k < d`
/// days it has `d - k` days left under the same name, the tick of day `k + 1`
/// clears it exactly when `k + 1 == d`, and from day `d` on there is no injury,
/// so later ticks clear nothing.
pub proof fn lemma_recovery_days(name: String, d: u32, k: nat)
    requires
        d >= 1,
    ensures
        k < d ==> recovery_days(Some(Injury { name, days_remaining: d }), k) == Some(
            Injury { name, days_remaining: (d - k) as u32 },
        ),
        k >= d ==> recovery_days(Some(Injury { name, days_remaining: d }), k) is None,
        (recovery_days(Some(Injury { name, days_remaining: d }), k) matches Some(i)
            && i.days_remaining <= 1) <==> k + 1 == d,
    decreases k,
{
    if k > 0 {
        lemma_recovery_days(name, d, (k - 1) as nat);
    }
}

/// Injury-risk multiplier for a fitness level, in tenths (3.0, 2.0, 1.5, 1.0 or 0.7).
pub open spec fn fitness_multiplier_spec(fitness: int) -> int {
    if fitness < 30 {
        30
    } else if fitness < 50 {
        20
    } else if fitness < 70 {
        15
    } else if fitness >= 90 {
        7
    } else {
        10
    }
}

/// Injury-risk multiplier for a fitness level, in tenths of the factor.
pub fn fitness_multiplier_tenths(fitness: u8) -> (m: u8)
    ensures
        m == fitness_multiplier_spec(fitness as int),
{
    if fitness < 30 {
        30
    } else if fitness < 50 {
        20
    } else if fitness < 70 {
        15
    } else if fitness >= 90 {
        7
    } else {
        10
    }
}

/// A candidate for the daily training-ground injury event.
pub struct InjuryCandidate<'a> {
    pub player_id: &'a str,
    pub fitness: u8,
    pub availability: &'a Availability,
}

/// Candidates are acceptable when every ID is nonblank and distinct and every
/// fitness is within 0..=100.
pub open spec fn candidates_valid(candidates: Seq<InjuryCandidate>) -> bool {
    &&& forall|i: int|
        0 <= i < candidates.len() ==> !is_blank_spec((#[trigger] candidates[i]).player_id@)
            && candidates[i].fitness <= 100
    &&& forall|i: int, j: int|
        0 <= i < j < candidates.len() ==> (#[trigger] candidates[i]).player_id@
            != (#[trigger] candidates[j]).player_id@
}

/// The indices of uninjured candidates, in candidate order.
pub open spec fn eligible_indices(candidates: Seq<InjuryCandidate>, n: int) -> Seq<usize>
    decreases n,
{
    if n <= 0 {
        Seq::empty()
    } else {
        let prev = eligible_indices(candidates, n - 1);
        if candidates[n - 1].availability.injury is None {
            prev.push((n - 1) as usize)
        } else {
            prev
        }
    }
}

/// Validate the supplied club's candidates and list those eligible for the event,
/// in the supplied order. The random pick among them is the caller's draw.
pub fn eligible_training_candidates(candidates: &[InjuryCandidate]) -> (r: Result<Vec<usize>, String>)
    ensures
        r.is_ok() <==> candidates_valid(candidates@),
        r matches Ok(v) ==> v@ == eligible_indices(candidates@, candidates@.len() as int),
{
    let n = candidates.len();
    for i in 0..n
        invariant
            n == candidates@.len(),
            forall|a: int|
                0 <= a < i ==> !is_blank_spec((#[trigger] candidates@[a]).player_id@)
                    && candidates@[a].fitness <= 100,
            forall|a: int, b: int|
                0 <= a < b < i ==> (#[trigger] candidates@[a]).player_id@
                    != (#[trigger] candidates@[b]).player_id@,
    {
        let c = &candidates[i];
        if is_blank(c.player_id) || c.fitness > 100 {
            return Err(
                "Training injury candidates require distinct nonblank IDs and fitness 0..=100".to_owned(),
            );
        }
        for j in 0..i
            invariant
                n == candidates@.len(),
                i < n,
                forall|a: int| 0 <= a < j ==> candidates@[a].player_id@ != candidates@[i as int].player_id@,
        {
            if str_eq(candidates[j].player_id, candidates[i].player_id) {
                assert(!candidates_valid(candidates@)) by {
                    assert(candidates@[j as int].player_id@ == candidates@[i as int].player_id@);
                }
                return Err(
                    "Training injury candidates require distinct nonblank IDs and fitness 0..=100".to_owned(),
                );
            }
        }
    }
    let mut eligible: Vec<usize> = Vec::new();
    for i in 0..n
        invariant
            n == candidates@.len(),
            eligible@ == eligible_indices(candidates@, i as int),
    {
        if candidates[i].availability.is_available() {
            eligible.push(i);
        }
    }
    Ok(eligible)
}

/// The event identity of a training-ground injury: `training_injury_{player}_{date}`.
pub open spec fn training_event_id(player_id: Seq<char>, date: Seq<char>) -> Seq<char> {
    "training_injury_"@ + player_id + "_"@ + date
}

/// Build the training-ground injury event identity for a player and date.
pub fn training_injury_event_id(player_id: &str, date: &str) -> (id: String)
    ensures
        id@ == training_event_id(player_id@, date@),
{
    let mut id = String::from_str("training_injury_");
    id.append(player_id);
    id.append("_");
    id.append(date);
    id
}

/// The five injury message keys.
pub open spec fn injury_name_text(index: int) -> Seq<char> {
    if index == 0 {
        "common.injuries.minorMuscleStrain"@
    } else if index == 1 {
        "common.injuries.twistedAnkle"@
    } else if index == 2 {
        "common.injuries.kneeBruise"@
    } else if index == 3 {
        "common.injuries.hamstringTightness"@
    } else {
        "common.injuries.calfStrain"@
    }
}

/// How many injury names there are.
pub const INJURY_NAME_COUNT: usize = 5;

/// Injury name `index` (0..5).
pub fn injury_name(index: usize) -> (r: String)
    requires
        index < INJURY_NAME_COUNT,
    ensures
        r@ == injury_name_text(index as int),
{
    if index == 0 {
        String::from_str("common.injuries.minorMuscleStrain")
    } else if index == 1 {
        String::from_str("common.injuries.twistedAnkle")
    } else if index == 2 {
        String::from_str("common.injuries.kneeBruise")
    } else if index == 3 {
        String::from_str("common.injuries.hamstringTightness")
    } else {
        String::from_str("common.injuries.calfStrain")
    }
}

/// Whether `injury` is one of the five named injuries lasting `lo..=hi` days.
pub open spec fn drawn_injury(injury: Injury, lo: int, hi: int) -> bool {
    &&& lo <= injury.days_remaining <= hi
    &&& exists|k: int| 0 <= k < INJURY_NAME_COUNT && injury.name@ == #[trigger] injury_name_text(k)
}

/// An injury drawn from `rng`: a duration in `lo..=hi` days, then one of the
/// five names uniformly.
fn draw_injury(rng: &mut rand::rngs::StdRng, lo: u32, hi: u32) -> (r: Injury)
    requires
        lo <= hi,
    ensures
        drawn_injury(r, lo as int, hi as int),
{
    let days_remaining = random_u32_inclusive(rng, lo, hi);
    let k = random_below_usize(rng, INJURY_NAME_COUNT);
    let name = injury_name(k);
    assert(injury_name_text(k as int) == name@);
    Injury { name, days_remaining }
}

/// The injury a lost match-injury roll gives an uninjured player: five to
/// twenty-one days of one of the five named injuries. Nothing changes for a
/// player already injured.
pub fn apply_match_injury(availability: &mut Availability, rng: &mut rand::rngs::StdRng) -> (injured: bool)
    ensures
        injured == (old(availability).injury is None),
        final(availability).yellow_cards == old(availability).yellow_cards,
        final(availability).red_cards == old(availability).red_cards,
        injured ==> (final(availability).injury matches Some(i) && drawn_injury(i, 5, 21)),
        !injured ==> *final(availability) == *old(availability) && *final(rng) == *old(rng),
{
    if availability.injury.is_some() {
        return false;
    }
    availability.injury = Some(draw_injury(rng, 5, 21));
    true
}

/// A training-ground injury announced by an event.
#[derive(Debug, Clone, PartialEq, Eq)]
pub struct InjuryEvent {
    /// `training_injury_{player}_{date}`.
    pub id: String,
    pub player_id: String,
    pub injury: Injury,
}

/// The event after a lost training-injury roll for `player_id` on `date`: none
/// when an event of that identity already exists, otherwise three to fourteen
/// days of one of the five named injuries.
pub fn training_injury_event(
    player_id: &str,
    date: &str,
    existing_event_ids: &Vec<String>,
    rng: &mut rand::rngs::StdRng,
) -> (r: Option<InjuryEvent>)
    ensures
        (exists|k: int| 0 <= k < existing_event_ids@.len() && (#[trigger] existing_event_ids@[k])@
            == training_event_id(player_id@, date@)) <==> r is None,
        r matches Some(e) ==> e.id@ == training_event_id(player_id@, date@) && e.player_id@ == player_id@
            && drawn_injury(e.injury, 3, 14),
        r is None ==> *final(rng) == *old(rng),
{
    let id = training_injury_event_id(player_id, date);
    let mut k: usize = 0;
    while k < existing_event_ids.len()
        invariant
            k <= existing_event_ids@.len(),
            id@ == training_event_id(player_id@, date@),
            forall|j: int| 0 <= j < k ==> (#[trigger] existing_event_ids@[j])@ != id@,
        decreases existing_event_ids@.len() - k,
    {
        if existing_event_ids[k] == id {
            assert(existing_event_ids@[k as int]@ == training_event_id(player_id@, date@));
            return None;
        }
        k = k + 1;
    }
    let injury = draw_injury(rng, 3, 14);
    Some(InjuryEvent { id, player_id: player_id.to_owned(), injury })
}


/// The first step of the daily training-ground injury event: no event, and
/// no draw, on a day with a scheduled match; invalid candidates are refused
/// without a draw; with nobody eligible there is no event and no draw;
/// otherwise one eligible candidate is drawn uniformly from `rng`, and its
/// index is returned for the caller's risk roll.
pub fn training_injury_pick(
    candidates: &[InjuryCandidate],
    has_scheduled_match: bool,
    rng: &mut rand::rngs::StdRng,
) -> (r: Result<Option<usize>, String>)
    ensures
        has_scheduled_match ==> r == Ok::<Option<usize>, String>(None),
        !has_scheduled_match ==> (r.is_ok() <==> candidates_valid(candidates@)),
        !has_scheduled_match && candidates_valid(candidates@) && eligible_indices(
            candidates@,
            candidates@.len() as int,
        ).len() == 0 ==> r == Ok::<Option<usize>, String>(None),
        r matches Ok(Some(k)) ==> eligible_indices(candidates@, candidates@.len() as int).contains(k) && k
            < candidates@.len() && candidates@[k as int].availability.injury is None,
        r matches Ok(Some(_)) <==> (!has_scheduled_match && candidates_valid(candidates@) && eligible_indices(
            candidates@,
            candidates@.len() as int,
        ).len() > 0),
        !(r matches Ok(Some(_))) ==> *final(rng) == *old(rng),
{
    if has_scheduled_match {
        return Ok(None);
    }
    let eligible = match eligible_training_candidates(candidates) {
        Err(e) => return Err(e),
        Ok(v) => v,
    };
    if eligible.len() == 0 {
        return Ok(None);
    }
    let j = random_below_usize(rng, eligible.len());
    let k = eligible[j];
    let count = candidates.len();
    proof {
        assert(candidates@.len() == count);
        lemma_eligible_indices(candidates@, candidates@.len() as int, j as int);
    }
    Ok(Some(k))
}

proof fn lemma_eligible_indices(candidates: Seq<InjuryCandidate>, n: int, j: int)
    requires
        0 <= n <= candidates.len(),
        candidates.len() <= usize::MAX,
        0 <= j < eligible_indices(candidates, n).len(),
    ensures
        eligible_indices(candidates, n)[j] < n,
        candidates[eligible_indices(candidates, n)[j] as int].availability.injury is None,
    decreases n,
{
    if n > 0 {
        let prev = eligible_indices(candidates, n - 1);
        if j < prev.len() {
            lemma_eligible_indices(candidates, n - 1, j);
        }
    }
}

} // verus!
