//! New calendars: a double round robin over clubs in text order by the circle
//! method. Each return fixture reverses its first-leg venue, an odd field gives
//! one bye a round, and rounds are `spacing_days` apart from `first_day`. Also
//! the start date of a competition's next season.
use vstd::prelude::*;
use crate::dates::{Date, calendar_year, ymd_day_number};
use crate::football::{Fixture, fixture_shapes};
use crate::random::{random_u64, seeded_rng};
use crate::text::{
    append_digit, digit_char, is_blank, is_blank_spec, sort_texts, text_le, text_order, text_views,
};

verus! {

/// Seats on the circle: the clubs, plus an empty seat for an odd field.
pub open spec fn circle_size(n: int) -> int {
    n + n % 2
}

/// Rounds in one leg.
pub open spec fn rounds_per_leg(n: int) -> int {
    circle_size(n) - 1
}

/// Pairings per round, byes included.
pub open spec fn pairs_per_round(n: int) -> int {
    circle_size(n) / 2
}

/// Pairing slots over both legs.
pub open spec fn slot_count(n: int) -> int {
    2 * rounds_per_leg(n) * pairs_per_round(n)
}

/// The club (index in text order) at circle position `p` in round `r` of a leg:
/// position 0 stays put and the others turn one place per round.
pub open spec fn seat(m: int, p: int, r: int) -> int {
    if p == 0 {
        0
    } else {
        ((p - 1 + (m - 1) - r) % (m - 1)) + 1
    }
}

/// The round (over both legs) of slot `t`.
pub open spec fn slot_round(n: int, t: int) -> int {
    t / pairs_per_round(n)
}

/// Home and away club indices of slot `t`: pairing `q` of a round joins
/// positions `q` and `m - 1 - q`; the venue alternates with the round and the
/// second leg reverses it. An index `n` is the empty seat.
#[verifier::opaque]
pub open spec fn slot_pair(n: int, t: int) -> (int, int) {
    let m = circle_size(n);
    let g = slot_round(n, t);
    let q = t % pairs_per_round(n);
    let leg = g / rounds_per_leg(n);
    let r = g % rounds_per_leg(n);
    let a = seat(m, q, r);
    let b = seat(m, m - 1 - q, r);
    if (r + leg) % 2 == 0 {
        (a, b)
    } else {
        (b, a)
    }
}

/// Whether slot `t` is a match (neither side is the empty seat).
pub open spec fn slot_played(n: int, t: int) -> bool {
    slot_pair(n, t).0 < n && slot_pair(n, t).1 < n
}

/// The fixtures (day, home, away) of the first `t` slots, for clubs `s` in text
/// order.
pub open spec fn planned(s: Seq<Seq<char>>, first_day: int, spacing: int, t: int) -> Seq<
    (int, Seq<char>, Seq<char>),
>
    decreases t,
{
    if t <= 0 {
        Seq::empty()
    } else {
        let earlier = planned(s, first_day, spacing, t - 1);
        let n = s.len() as int;
        if slot_played(n, t - 1) {
            earlier.push(
                (
                    first_day + spacing * slot_round(n, t - 1),
                    s[slot_pair(n, t - 1).0],
                    s[slot_pair(n, t - 1).1],
                ),
            )
        } else {
            earlier
        }
    }
}

/// The whole double round robin for clubs `s` in text order.
pub open spec fn schedule(s: Seq<Seq<char>>, first_day: int, spacing: int) -> Seq<(int, Seq<char>, Seq<char>)> {
    planned(s, first_day, spacing, slot_count(s.len() as int))
}

/// Five decimal digits of `v`, zero-padded.
pub open spec fn padded5(v: int) -> Seq<char> {
    seq![
        digit_char((v / 10000) % 10),
        digit_char((v / 1000) % 10),
        digit_char((v / 100) % 10),
        digit_char((v / 10) % 10),
        digit_char(v % 10),
    ]
}

/// The ID of the `k`-th fixture (from 1).
pub open spec fn fixture_id_text(k: int) -> Seq<char> {
    "round-robin-"@ + padded5(k)
}

/// Why a calendar cannot be built, if it cannot.
pub open spec fn calendar_refusal(ids: Seq<Seq<char>>, first_day: int, spacing: int) -> Option<Seq<char>> {
    let n = ids.len() as int;
    let span = spacing * (2 * rounds_per_leg(n) - 1);
    if !(2 <= n <= 128) {
        Some("calendar requires between 2 and 128 clubs"@)
    } else if spacing == 0 {
        Some("calendar spacing must be positive"@)
    } else if (exists|i: int| 0 <= i < n && is_blank_spec(#[trigger] ids[i])) || !ids.no_duplicates() {
        Some("calendar club IDs must be nonblank and distinct"@)
    } else if span > u32::MAX || first_day + span > u32::MAX {
        Some("calendar day overflow"@)
    } else {
        None
    }
}

/// Sorting keeps the blank IDs and turns repeated IDs into neighbours.
proof fn lemma_sorted_checks(v: Seq<Seq<char>>)
    ensures
        (exists|i: int| 0 <= i < v.len() && is_blank_spec(#[trigger] v.sort_by(text_order())[i])) <==> (
        exists|i: int| 0 <= i < v.len() && is_blank_spec(#[trigger] v[i])),
        (exists|i: int| 0 <= i < v.len() - 1 && #[trigger] v.sort_by(text_order())[i] == v.sort_by(
            text_order(),
        )[i + 1]) <==> !v.no_duplicates(),
        v.sort_by(text_order()).len() == v.len(),
{
    broadcast use vstd::multiset::group_multiset_axioms;
    broadcast use vstd::seq_lib::group_to_multiset_ensures;

    let order = text_order();
    crate::text::lemma_text_order_total();
    v.lemma_sort_by_ensures(order);
    let s = v.sort_by(order);
    vstd::seq_lib::to_multiset_len(v);
    vstd::seq_lib::to_multiset_len(s);
    if exists|i: int| 0 <= i < v.len() && is_blank_spec(#[trigger] s[i]) {
        let i = choose|i: int| 0 <= i < v.len() && is_blank_spec(#[trigger] s[i]);
        assert(s.to_multiset().contains(s[i]));
        assert(v.contains(s[i]));
    }
    if exists|i: int| 0 <= i < v.len() && is_blank_spec(#[trigger] v[i]) {
        let i = choose|i: int| 0 <= i < v.len() && is_blank_spec(#[trigger] v[i]);
        assert(v.to_multiset().contains(v[i]));
        assert(s.contains(v[i]));
    }
    if v.no_duplicates() {
        v.lemma_multiset_has_no_duplicates();
        s.lemma_multiset_has_no_duplicates_conv();
    } else {
        if s.no_duplicates() {
            s.lemma_multiset_has_no_duplicates();
            v.lemma_multiset_has_no_duplicates_conv();
        }
        let (i, j) = choose|i: int, j: int| 0 <= i < s.len() && 0 <= j < s.len() && i != j && s[i] == s[j];
        let (a, b) = if i < j {
            (i, j)
        } else {
            (j, i)
        };
        assert(order(s[a], s[a + 1]));
        if a + 1 < b {
            assert(order(s[a + 1], s[b]));
        }
        assert(s[a] == s[a + 1]);
    }
}

/// The ID of fixture `k` (from 1): `round-robin-` and five digits.
fn fixture_id(k: usize) -> (r: String)
    requires
        k < 100000,
    ensures
        r@ == fixture_id_text(k as int),
{
    let mut s = String::from_str("round-robin-");
    let v: u32 = k as u32;
    append_digit(&mut s, (v / 10000) % 10);
    append_digit(&mut s, (v / 1000) % 10);
    append_digit(&mut s, (v / 100) % 10);
    append_digit(&mut s, (v / 10) % 10);
    append_digit(&mut s, v % 10);
    assert(s@ =~= fixture_id_text(k as int));
    s
}

/// A double round robin over `club_ids` in text order by the circle method.
/// Two to 128 clubs with nonblank distinct IDs are accepted, and every day must
/// fit `u32`. The seed only drives the fixtures' match seeds, never the pairings:
/// any ordering of the same clubs gives the same fixtures.
pub fn double_round_robin(club_ids: &[String], first_day: u32, spacing_days: u32, seed: u64) -> (r: Result<
    Vec<Fixture>,
    String,
>)
    ensures
        match calendar_refusal(text_views(club_ids@), first_day as int, spacing_days as int) {
            Some(reason) => r matches Err(e) && e@ == reason,
            None => r matches Ok(fixtures) && fixture_shapes(fixtures@) == schedule(
                text_views(club_ids@).sort_by(text_order()),
                first_day as int,
                spacing_days as int,
            ) && forall|k: int| 0 <= k < fixtures@.len() ==> (#[trigger] fixtures@[k]).id@ == fixture_id_text(k + 1),
        },
{
    let n = club_ids.len();
    if n < 2 || n > 128 {
        return Err(String::from_str("calendar requires between 2 and 128 clubs"));
    }
    if spacing_days == 0 {
        return Err(String::from_str("calendar spacing must be positive"));
    }
    let clubs = sort_texts(club_ids);
    let ghost v = text_views(club_ids@);
    let ghost s = text_views(clubs@);
    proof {
        lemma_sorted_checks(v);
    }
    let mut i: usize = 0;
    while i < n
        invariant
            n == clubs@.len(),
            n == v.len(),
            2 <= n <= 128,
            spacing_days != 0,
            v == text_views(club_ids@),
            s == text_views(clubs@),
            s == v.sort_by(text_order()),
            i <= n,
            forall|k: int| 0 <= k < i ==> !is_blank_spec(#[trigger] s[k]),
            forall|k: int| 0 <= k < i && k + 1 < n ==> #[trigger] s[k] != s[k + 1],
        decreases n - i,
    {
        if is_blank(clubs[i].as_str()) || (i + 1 < n && clubs[i] == clubs[i + 1]) {
            proof {
                lemma_sorted_checks(v);
                if is_blank_spec(s[i as int]) {
                    assert(exists|k: int| 0 <= k < v.len() && is_blank_spec(#[trigger] v.sort_by(text_order())[k]));
                } else {
                    assert(exists|k: int| 0 <= k < v.len() - 1 && #[trigger] v.sort_by(text_order())[k] == v.sort_by(
                        text_order(),
                    )[k + 1]);
                }
            }
            return Err(String::from_str("calendar club IDs must be nonblank and distinct"));
        }
        i = i + 1;
    }
    let m: usize = n + n % 2;
    let rpl: usize = m - 1;
    let half: usize = m / 2;
    let total_rounds: usize = 2 * rpl;
    let last_round: u32 = (total_rounds - 1) as u32;
    let day_span: u32 = match spacing_days.checked_mul(last_round) {
        Some(span) => span,
        None => {
            return Err(String::from_str("calendar day overflow"));
        },
    };
    if first_day.checked_add(day_span).is_none() {
        return Err(String::from_str("calendar day overflow"));
    }
    assert(m <= 128 && rpl <= 127 && half <= 64 && total_rounds <= 254);
    assert(total_rounds * half <= 254 * 64) by (nonlinear_arith)
        requires
            total_rounds <= 254,
            half <= 64,
    ;
    let slots: usize = total_rounds * half;
    assert(slots == slot_count(n as int)) by (nonlinear_arith)
        requires
            slots == total_rounds * half,
            total_rounds == 2 * rpl,
            rpl == rounds_per_leg(n as int),
            half == pairs_per_round(n as int),
    ;
    let mut rng = seeded_rng(seed);
    let mut fixtures: Vec<Fixture> = Vec::new();
    let mut t: usize = 0;
    while t < slots
        invariant
            2 <= n <= 128,
            n == clubs@.len(),
            s == text_views(clubs@),
            m == circle_size(n as int),
            rpl == rounds_per_leg(n as int),
            half == pairs_per_round(n as int),
            slots == slot_count(n as int),
            slots == total_rounds * half,
            total_rounds == 2 * rpl,
            t <= slots,
            fixtures@.len() <= t,
            slots <= 254 * 64,
            day_span == spacing_days * (total_rounds - 1),
            first_day + day_span <= u32::MAX,
            fixture_shapes(fixtures@) == planned(s, first_day as int, spacing_days as int, t as int),
            forall|k: int| 0 <= k < fixtures@.len() ==> (#[trigger] fixtures@[k]).id@ == fixture_id_text(k + 1),
        decreases slots - t,
    {
        let g: usize = t / half;
        let q: usize = t % half;
        proof {
            assert(g < total_rounds) by (nonlinear_arith)
                requires
                    t < slots,
                    slots == total_rounds * half,
                    half > 0,
                    g == t / half,
            ;
            assert(g / rpl <= 1) by (nonlinear_arith)
                requires
                    g < 2 * rpl,
                    rpl > 0,
            ;
        }
        let leg: usize = g / rpl;
        let r: usize = g % rpl;
        let a: usize = if q == 0 {
            0
        } else {
            ((q - 1 + rpl - r) % rpl) + 1
        };
        let p: usize = m - 1 - q;
        let b: usize = ((p - 1 + rpl - r) % rpl) + 1;
        let (home, away) = if (r + leg) % 2 == 0 {
            (a, b)
        } else {
            (b, a)
        };
        proof {
            assert(spacing_days * g <= spacing_days * (total_rounds - 1)) by (nonlinear_arith)
                requires
                    g <= total_rounds - 1,
            ;
            reveal(slot_pair);
            assert(slot_pair(n as int, t as int) == (home as int, away as int));
            assert(planned(s, first_day as int, spacing_days as int, t as int + 1) == if slot_played(
                n as int,
                t as int,
            ) {
                planned(s, first_day as int, spacing_days as int, t as int).push(
                    (
                        first_day + spacing_days * slot_round(n as int, t as int),
                        s[home as int],
                        s[away as int],
                    ),
                )
            } else {
                planned(s, first_day as int, spacing_days as int, t as int)
            });
        }
        if home < n && away < n {
            let day: u32 = first_day + spacing_days * (g as u32);
            let k = fixtures.len() + 1;
            let fixture = Fixture {
                id: fixture_id(k),
                day,
                home: clubs[home].clone(),
                away: clubs[away].clone(),
                seed: random_u64(&mut rng),
            };
            let ghost before = fixtures@;
            fixtures.push(fixture);
            proof {
                assert(fixture_shapes(fixtures@) =~= fixture_shapes(before).push(
                    (day as int, s[home as int], s[away as int]),
                ));
            }
        }
        t = t + 1;
    }
    Ok(fixtures)
}

/// The circle position of club `x` in round `r` of a leg (the inverse of `seat`).
pub open spec fn place(m: int, x: int, r: int) -> int {
    if x == 0 {
        0
    } else {
        ((x - 1 + r) % (m - 1)) + 1
    }
}

/// Whether clubs `x` and `y` meet in round `r`: their positions face each other.
pub open spec fn paired(m: int, x: int, y: int, r: int) -> bool {
    place(m, x, r) + place(m, y, r) == m - 1
}

/// The circle has an even number of seats, at least two.
pub open spec fn circle_ok(m: int) -> bool {
    m >= 2 && m % 2 == 0
}

proof fn lemma_mod_once(v: int, d: int)
    requires
        0 < d,
        0 <= v < 2 * d,
    ensures
        v % d == if v < d {
            v
        } else {
            v - d
        },
{
    if v < d {
        vstd::arithmetic::div_mod::lemma_fundamental_div_mod_converse_mod(v, d, 0, v);
    } else {
        vstd::arithmetic::div_mod::lemma_fundamental_div_mod_converse_mod(v, d, 1, v - d);
    }
}

/// `seat` and `place` are inverse bijections of `0..m` in every round.
proof fn lemma_seat_place(m: int, p: int, r: int)
    requires
        circle_ok(m),
        0 <= p < m,
        0 <= r < m - 1,
    ensures
        0 <= seat(m, p, r) < m,
        place(m, seat(m, p, r), r) == p,
        0 <= place(m, p, r) < m,
        seat(m, place(m, p, r), r) == p,
{
    let d = m - 1;
    if p > 0 {
        lemma_mod_once(p - 1 + d - r, d);
        let c = (p - 1 + d - r) % d;
        lemma_mod_once(c + r, d);
        lemma_mod_once(p - 1 + r, d);
        let e = (p - 1 + r) % d;
        lemma_mod_once(e + d - r, d);
    }
}

/// Two clubs meet in exactly one round of a leg.
proof fn pair_round(m: int, x: int, y: int) -> (r: int)
    requires
        circle_ok(m),
        0 <= x < m,
        0 <= y < m,
        x != y,
    ensures
        0 <= r < m - 1,
        paired(m, x, y, r),
        forall|r2: int| 0 <= r2 < m - 1 && paired(m, x, y, r2) ==> r2 == r,
{
    let d = m - 1;
    if x == 0 || y == 0 {
        let z = if x == 0 {
            y
        } else {
            x
        };
        let r = d - z;
        lemma_mod_once(z - 1 + r, d);
        assert forall|r2: int| 0 <= r2 < m - 1 && paired(m, x, y, r2) implies r2 == r by {
            lemma_mod_once(z - 1 + r2, d);
        }
        r
    } else {
        let a = x - 1;
        let b = y - 1;
        let raw = d - 2 - a - b;
        let k = if raw >= 0 {
            raw
        } else {
            raw + d
        };
        let r = if k % 2 == 0 {
            k / 2
        } else {
            (k + d) / 2
        };
        lemma_mod_once(a + r, d);
        lemma_mod_once(b + r, d);
        assert forall|r2: int| 0 <= r2 < m - 1 && paired(m, x, y, r2) implies r2 == r by {
            lemma_mod_once(a + r2, d);
            lemma_mod_once(b + r2, d);
        }
        r
    }
}

/// The circle of a field of `n >= 2` clubs is sound.
proof fn lemma_circle(n: int)
    requires
        n >= 2,
    ensures
        circle_ok(circle_size(n)),
        rounds_per_leg(n) == circle_size(n) - 1,
        pairs_per_round(n) * 2 == circle_size(n),
        pairs_per_round(n) >= 1,
        circle_size(n) == n || circle_size(n) == n + 1,
        circle_size(n) == n <==> n % 2 == 0,
{
}

/// Slot `t` splits into its round and pairing, and its round into leg and
/// round of the leg.
proof fn lemma_slot_parts(n: int, t: int)
    requires
        n >= 2,
        0 <= t < slot_count(n),
    ensures
        0 <= slot_round(n, t) < 2 * rounds_per_leg(n),
        0 <= t % pairs_per_round(n) < pairs_per_round(n),
        t == slot_round(n, t) * pairs_per_round(n) + t % pairs_per_round(n),
        0 <= slot_round(n, t) / rounds_per_leg(n) <= 1,
        slot_round(n, t) == (slot_round(n, t) / rounds_per_leg(n)) * rounds_per_leg(n) + slot_round(n, t)
            % rounds_per_leg(n),
        0 <= slot_round(n, t) % rounds_per_leg(n) < rounds_per_leg(n),
{
    lemma_circle(n);
    let h = pairs_per_round(n);
    let d = rounds_per_leg(n);
    vstd::arithmetic::div_mod::lemma_fundamental_div_mod(t, h);
    vstd::arithmetic::div_mod::lemma_mod_pos_bound(t, h);
    let g = t / h;
    assert(g < 2 * d) by (nonlinear_arith)
        requires
            t == g * h + t % h,
            0 <= t % h,
            t < 2 * d * h,
            h > 0,
    ;
    assert(g >= 0) by (nonlinear_arith)
        requires
            t == g * h + t % h,
            t % h < h,
            t >= 0,
            h > 0,
    ;
    vstd::arithmetic::div_mod::lemma_fundamental_div_mod(g, d);
    vstd::arithmetic::div_mod::lemma_mod_pos_bound(g, d);
    assert(0 <= g / d <= 1) by (nonlinear_arith)
        requires
            g == (g / d) * d + g % d,
            0 <= g % d < d,
            0 <= g < 2 * d,
            d > 0,
    ;
}

/// The slot where club `x` hosts club `y` (`x`, `y` seats of the circle, `x != y`):
/// there is exactly one.
proof fn slot_of(n: int, x: int, y: int) -> (t: int)
    requires
        n >= 2,
        0 <= x < circle_size(n),
        0 <= y < circle_size(n),
        x != y,
    ensures
        0 <= t < slot_count(n),
        slot_pair(n, t) == (x, y),
        forall|t2: int| 0 <= t2 < slot_count(n) && slot_pair(n, t2) == (x, y) ==> t2 == t,
{
    lemma_circle(n);
    let m = circle_size(n);
    let d = rounds_per_leg(n);
    let h = pairs_per_round(n);
    let r = pair_round(m, x, y);
    let px = place(m, x, r);
    let py = place(m, y, r);
    lemma_seat_place(m, x, r);
    lemma_seat_place(m, y, r);
    let q = if px < py {
        px
    } else {
        py
    };
    let x_first = px < py;
    let leg = if x_first == (r % 2 == 0) {
        0int
    } else {
        1int
    };
    let g = leg * d + r;
    let t = g * h + q;
    vstd::arithmetic::div_mod::lemma_fundamental_div_mod_converse(g, d, leg, r);
    vstd::arithmetic::div_mod::lemma_fundamental_div_mod_converse(t, h, g, q);
    assert(t < slot_count(n)) by (nonlinear_arith)
        requires
            t == g * h + q,
            0 <= q < h,
            0 <= g < 2 * d,
            slot_count(n) == 2 * d * h,
    ;
    assert(t >= 0) by (nonlinear_arith)
        requires
            t == g * h + q,
            0 <= q,
            0 <= g,
            h > 0,
    ;
    reveal(slot_pair);
    assert(slot_pair(n, t) == (x, y));
    assert forall|t2: int| 0 <= t2 < slot_count(n) && slot_pair(n, t2) == (x, y) implies t2 == t by {
        lemma_slot_parts(n, t2);
        let g2 = slot_round(n, t2);
        let q2 = t2 % h;
        let leg2 = g2 / d;
        let r2 = g2 % d;
        let a2 = seat(m, q2, r2);
        let b2 = seat(m, m - 1 - q2, r2);
        lemma_seat_place(m, q2, r2);
        lemma_seat_place(m, m - 1 - q2, r2);
        assert(paired(m, x, y, r2));
        assert(r2 == r);
    }
    t
}

/// How many of the first `t` slots are matches.
pub open spec fn played_before(n: int, t: int) -> int
    decreases t,
{
    if t <= 0 {
        0
    } else {
        played_before(n, t - 1) + if slot_played(n, t - 1) {
            1int
        } else {
            0int
        }
    }
}

/// The fixture (day, home, away) slot `t` schedules.
pub open spec fn slot_fixture(s: Seq<Seq<char>>, first_day: int, spacing: int, t: int) -> (int, Seq<char>, Seq<char>) {
    let n = s.len() as int;
    (first_day + spacing * slot_round(n, t), s[slot_pair(n, t).0], s[slot_pair(n, t).1])
}

proof fn lemma_played_before_bounds(n: int, t: int)
    ensures
        0 <= played_before(n, t) <= if t >= 0 {
            t
        } else {
            0
        },
    decreases t,
{
    if t > 0 {
        lemma_played_before_bounds(n, t - 1);
    }
}

proof fn lemma_played_before_grows(n: int, u: int, t: int)
    requires
        0 <= u < t,
        slot_played(n, u),
    ensures
        played_before(n, u) < played_before(n, t),
    decreases t,
{
    if t > u + 1 {
        lemma_played_before_grows(n, u, t - 1);
    }
    assert(played_before(n, t) >= played_before(n, t - 1)) by {
        reveal_with_fuel(played_before, 2);
    }
}

/// The first `t` slots' fixtures are their matches in slot order.
proof fn lemma_planned_slots(s: Seq<Seq<char>>, first_day: int, spacing: int, t: int)
    requires
        t >= 0,
    ensures
        planned(s, first_day, spacing, t).len() == played_before(s.len() as int, t),
        forall|u: int|
            0 <= u < t && slot_played(s.len() as int, u) ==> planned(s, first_day, spacing, t)[played_before(
                s.len() as int,
                u,
            )] == slot_fixture(s, first_day, spacing, u),
    decreases t,
{
    if t > 0 {
        let n = s.len() as int;
        lemma_planned_slots(s, first_day, spacing, t - 1);
        let prev = planned(s, first_day, spacing, t - 1);
        assert(planned(s, first_day, spacing, t) == if slot_played(n, t - 1) {
            prev.push(slot_fixture(s, first_day, spacing, t - 1))
        } else {
            prev
        });
        assert forall|u: int|
            0 <= u < t && slot_played(n, u) implies planned(s, first_day, spacing, t)[played_before(n, u)]
            == slot_fixture(s, first_day, spacing, u) by {
            let prev = planned(s, first_day, spacing, t - 1);
            let cur = planned(s, first_day, spacing, t);
            lemma_played_before_bounds(n, u);
            if u < t - 1 {
                lemma_played_before_grows(n, u, t - 1);
                assert(prev[played_before(n, u)] == slot_fixture(s, first_day, spacing, u));
                assert(cur[played_before(n, u)] == prev[played_before(n, u)]);
            } else {
                assert(played_before(n, u) == prev.len());
                assert(cur == prev.push(slot_fixture(s, first_day, spacing, u)));
            }
        }
    }
}

/// The slot of the `k`-th fixture among the first `t` slots.
proof fn fixture_slot(s: Seq<Seq<char>>, first_day: int, spacing: int, t: int, k: int) -> (u: int)
    requires
        0 <= k < planned(s, first_day, spacing, t).len(),
    ensures
        0 <= u < t,
        slot_played(s.len() as int, u),
        played_before(s.len() as int, u) == k,
        planned(s, first_day, spacing, t)[k] == slot_fixture(s, first_day, spacing, u),
    decreases t,
{
    lemma_planned_slots(s, first_day, spacing, t);
    lemma_planned_slots(s, first_day, spacing, t - 1);
    let n = s.len() as int;
    if k < planned(s, first_day, spacing, t - 1).len() {
        fixture_slot(s, first_day, spacing, t - 1, k)
    } else {
        t - 1
    }
}

/// Clubs `s` as the calendar orders them: distinct, and the same clubs as `ids`.
proof fn lemma_sorted_clubs(ids: Seq<Seq<char>>)
    requires
        ids.no_duplicates(),
    ensures
        ids.sort_by(text_order()).no_duplicates(),
        ids.sort_by(text_order()).len() == ids.len(),
        forall|a: Seq<char>| ids.contains(a) <==> #[trigger] ids.sort_by(text_order()).contains(a),
{
    broadcast use vstd::multiset::group_multiset_axioms;
    broadcast use vstd::seq_lib::group_to_multiset_ensures;

    crate::text::lemma_text_order_total();
    ids.lemma_sort_by_ensures(text_order());
    let s = ids.sort_by(text_order());
    ids.lemma_multiset_has_no_duplicates();
    s.lemma_multiset_has_no_duplicates_conv();
    vstd::seq_lib::to_multiset_len(ids);
    vstd::seq_lib::to_multiset_len(s);
    assert forall|a: Seq<char>| ids.contains(a) <==> #[trigger] s.contains(a) by {
        vstd::seq_lib::to_multiset_contains(ids, a);
        vstd::seq_lib::to_multiset_contains(s, a);
    }
}

/// The double round robin of a field the calendar accepts: every fixture pits
/// two different clubs of the field against each other; every club hosts every
/// other club exactly once (so each pair meets twice, once at each ground); no
/// club plays twice on one day; and every fixture falls on `first_day` plus a
/// whole number of `spacing` steps, within the `2 * rounds_per_leg` rounds.
pub proof fn lemma_round_robin_pairings(ids: Seq<Seq<char>>, first_day: int, spacing: int)
    requires
        0 <= first_day <= u32::MAX,
        0 <= spacing <= u32::MAX,
        calendar_refusal(ids, first_day, spacing) is None,
    ensures
        ({
            let sched = schedule(ids.sort_by(text_order()), first_day, spacing);
            &&& forall|k: int|
                0 <= k < sched.len() ==> (#[trigger] sched[k]).1 != sched[k].2 && ids.contains(sched[k].1)
                    && ids.contains(sched[k].2)
            &&& forall|a: Seq<char>, b: Seq<char>|
                ids.contains(a) && ids.contains(b) && a != b ==> exists|k: int|
                    0 <= k < sched.len() && (#[trigger] sched[k]).1 == a && sched[k].2 == b
            &&& forall|k1: int, k2: int|
                0 <= k1 < sched.len() && 0 <= k2 < sched.len() && (#[trigger] sched[k1]).1 == (
                #[trigger] sched[k2]).1 && sched[k1].2 == sched[k2].2 ==> k1 == k2
            &&& forall|k1: int, k2: int|
                0 <= k1 < sched.len() && 0 <= k2 < sched.len() && k1 != k2 && (#[trigger] sched[k1]).0 == (
                #[trigger] sched[k2]).0 ==> sched[k1].1 != sched[k2].1 && sched[k1].1 != sched[k2].2
                    && sched[k1].2 != sched[k2].1 && sched[k1].2 != sched[k2].2
            &&& forall|k: int|
                0 <= k < sched.len() ==> (#[trigger] sched[k]).0 >= first_day && (sched[k].0 - first_day)
                    % spacing == 0 && (sched[k].0 - first_day) / spacing < 2 * rounds_per_leg(ids.len() as int)
        }),
{
    let s = ids.sort_by(text_order());
    let n = ids.len() as int;
    let m = circle_size(n);
    let total = slot_count(n);
    let sched = schedule(s, first_day, spacing);
    lemma_sorted_clubs(ids);
    lemma_circle(n);
    lemma_planned_slots(s, first_day, spacing, total);
    // Every fixture comes from a match slot between two different clubs.
    assert forall|k: int| 0 <= k < sched.len() implies (#[trigger] sched[k]).1 != sched[k].2 && ids.contains(
        sched[k].1,
    ) && ids.contains(sched[k].2) by {
        let u = fixture_slot(s, first_day, spacing, total, k);
        reveal(slot_pair);
        lemma_slot_parts(n, u);
        let g = slot_round(n, u);
        let q = u % pairs_per_round(n);
        let r = g % rounds_per_leg(n);
        lemma_seat_place(m, q, r);
        lemma_seat_place(m, m - 1 - q, r);
        let (x, y) = slot_pair(n, u);
        assert(s.contains(s[x]));
        assert(s.contains(s[y]));
    }
    // Every ordered pair of different clubs has its fixture.
    assert forall|a: Seq<char>, b: Seq<char>| ids.contains(a) && ids.contains(b) && a != b implies exists|k: int|
        0 <= k < sched.len() && (#[trigger] sched[k]).1 == a && sched[k].2 == b by {
        assert(s.contains(a));
        assert(s.contains(b));
        let x = choose|x: int| 0 <= x < s.len() && s[x] == a;
        let y = choose|y: int| 0 <= y < s.len() && s[y] == b;
        let u = slot_of(n, x, y);
        let k = played_before(n, u);
        lemma_played_before_bounds(n, u);
        reveal(slot_pair);
        lemma_slot_parts(n, u);
        lemma_seat_place(m, u % pairs_per_round(n), slot_round(n, u) % rounds_per_leg(n));
        lemma_seat_place(m, m - 1 - u % pairs_per_round(n), slot_round(n, u) % rounds_per_leg(n));
        assert(slot_played(n, u));
        assert(sched[k] == slot_fixture(s, first_day, spacing, u));
        lemma_played_before_grows(n, u, total);
    }
    // No ordered pair is scheduled twice.
    assert forall|k1: int, k2: int|
        0 <= k1 < sched.len() && 0 <= k2 < sched.len() && (#[trigger] sched[k1]).1 == (#[trigger] sched[k2]).1
            && sched[k1].2 == sched[k2].2 implies k1 == k2 by {
        let u1 = fixture_slot(s, first_day, spacing, total, k1);
        let u2 = fixture_slot(s, first_day, spacing, total, k2);
        let (x1, y1) = slot_pair(n, u1);
        let (x2, y2) = slot_pair(n, u2);
        reveal(slot_pair);
        lemma_slot_parts(n, u1);
        lemma_seat_place(m, u1 % pairs_per_round(n), slot_round(n, u1) % rounds_per_leg(n));
        lemma_seat_place(m, m - 1 - u1 % pairs_per_round(n), slot_round(n, u1) % rounds_per_leg(n));
        lemma_slot_parts(n, u2);
        lemma_seat_place(m, u2 % pairs_per_round(n), slot_round(n, u2) % rounds_per_leg(n));
        lemma_seat_place(m, m - 1 - u2 % pairs_per_round(n), slot_round(n, u2) % rounds_per_leg(n));
        assert(x1 == x2);
        assert(y1 == y2);
        let u = slot_of(n, x1, y1);
        assert(u1 == u && u2 == u);
    }
    // A club plays at most once on a day.
    assert forall|k1: int, k2: int|
        0 <= k1 < sched.len() && 0 <= k2 < sched.len() && k1 != k2 && (#[trigger] sched[k1]).0 == (
        #[trigger] sched[k2]).0 implies sched[k1].1 != sched[k2].1 && sched[k1].1 != sched[k2].2
        && sched[k1].2 != sched[k2].1 && sched[k1].2 != sched[k2].2 by {
        let u1 = fixture_slot(s, first_day, spacing, total, k1);
        let u2 = fixture_slot(s, first_day, spacing, total, k2);
        lemma_slot_parts(n, u1);
        lemma_slot_parts(n, u2);
        let g1 = slot_round(n, u1);
        let g2 = slot_round(n, u2);
        assert(g1 == g2) by (nonlinear_arith)
            requires
                first_day + spacing * g1 == first_day + spacing * g2,
                spacing > 0,
        ;
        let h = pairs_per_round(n);
        let q1 = u1 % h;
        let q2 = u2 % h;
        assert(q1 != q2) by {
            if q1 == q2 {
                assert(u1 == u2);
                if k1 < k2 {
                    assert(false);
                }
            }
        }
        let r = g1 % rounds_per_leg(n);
        reveal(slot_pair);
        lemma_seat_place(m, q1, r);
        lemma_seat_place(m, m - 1 - q1, r);
        lemma_seat_place(m, q2, r);
        lemma_seat_place(m, m - 1 - q2, r);
        let (x1, y1) = slot_pair(n, u1);
        let (x2, y2) = slot_pair(n, u2);
        assert(x1 != x2 && x1 != y2 && y1 != x2 && y1 != y2);
    }
    // Days are whole spacing steps from the first day.
    assert forall|k: int| 0 <= k < sched.len() implies (#[trigger] sched[k]).0 >= first_day && (sched[k].0
        - first_day) % spacing == 0 && (sched[k].0 - first_day) / spacing < 2 * rounds_per_leg(n) by {
        let u = fixture_slot(s, first_day, spacing, total, k);
        lemma_slot_parts(n, u);
        let g = slot_round(n, u);
        vstd::arithmetic::div_mod::lemma_fundamental_div_mod_converse(spacing * g, spacing, g, 0);
        assert(spacing * g >= 0) by (nonlinear_arith)
            requires
                spacing > 0,
                g >= 0,
        ;
        assert(g * spacing + 0 == spacing * g) by (nonlinear_arith);
    }
}

/// Every round day of the calendar is used: for each of the `2 * rounds_per_leg`
/// rounds, some fixture falls on `first_day` plus that many `spacing` steps.
pub proof fn lemma_round_robin_days(ids: Seq<Seq<char>>, first_day: int, spacing: int, g: int)
    requires
        0 <= first_day <= u32::MAX,
        0 <= spacing <= u32::MAX,
        calendar_refusal(ids, first_day, spacing) is None,
        0 <= g < 2 * rounds_per_leg(ids.len() as int),
    ensures
        ({
            let sched = schedule(ids.sort_by(text_order()), first_day, spacing);
            exists|k: int| 0 <= k < sched.len() && (#[trigger] sched[k]).0 == first_day + spacing * g
        }),
{
    let s = ids.sort_by(text_order());
    let n = ids.len() as int;
    lemma_sorted_clubs(ids);
    lemma_circle(n);
    let h = pairs_per_round(n);
    let d = rounds_per_leg(n);
    let total = slot_count(n);
    let b = bye_pair(n, g % d);
    let q: int = if b == 0 {
        1
    } else {
        0
    };
    assert(q < h);
    lemma_round_slot(n, g, q);
    let t = g * h + q;
    vstd::arithmetic::div_mod::lemma_fundamental_div_mod_converse(t, h, g, q);
    assert(slot_round(n, t) == g);
    lemma_planned_slots(s, first_day, spacing, total);
    lemma_played_before_grows(n, t, total);
    lemma_played_before_bounds(n, t);
    let sched = schedule(s, first_day, spacing);
    let k = played_before(n, t);
    assert(sched[k] == slot_fixture(s, first_day, spacing, t));
    assert(sched[k].0 == first_day + spacing * g);
}

/// The club on one side of a fixture: the home club, or the away club.
pub open spec fn side(f: (int, Seq<char>, Seq<char>), home: bool) -> Seq<char> {
    if home {
        f.1
    } else {
        f.2
    }
}

/// How many of the first `i` fixtures have club `a` at home (or away).
pub open spec fn side_count(sched: Seq<(int, Seq<char>, Seq<char>)>, a: Seq<char>, home: bool, i: int) -> nat
    decreases i,
{
    if i <= 0 {
        0
    } else {
        side_count(sched, a, home, i - 1) + if side(sched[i - 1], home) == a {
            1nat
        } else {
            0nat
        }
    }
}

/// The opponents of club `a` in those fixtures.
spec fn side_opponents(sched: Seq<(int, Seq<char>, Seq<char>)>, a: Seq<char>, home: bool, i: int) -> Set<
    Seq<char>,
>
    decreases i,
{
    if i <= 0 {
        Set::empty()
    } else {
        let prev = side_opponents(sched, a, home, i - 1);
        if side(sched[i - 1], home) == a {
            prev.insert(side(sched[i - 1], !home))
        } else {
            prev
        }
    }
}

proof fn lemma_side_opponents(sched: Seq<(int, Seq<char>, Seq<char>)>, a: Seq<char>, home: bool, i: int)
    requires
        0 <= i <= sched.len(),
        forall|k1: int, k2: int|
            0 <= k1 < sched.len() && 0 <= k2 < sched.len() && (#[trigger] sched[k1]).1 == (
            #[trigger] sched[k2]).1 && sched[k1].2 == sched[k2].2 ==> k1 == k2,
    ensures
        side_opponents(sched, a, home, i).finite(),
        side_opponents(sched, a, home, i).len() == side_count(sched, a, home, i),
        forall|x: Seq<char>|
            side_opponents(sched, a, home, i).contains(x) <==> exists|k: int|
                0 <= k < i && side(#[trigger] sched[k], home) == a && side(sched[k], !home) == x,
    decreases i,
{
    if i > 0 {
        lemma_side_opponents(sched, a, home, i - 1);
        let prev = side_opponents(sched, a, home, i - 1);
        let f = sched[i - 1];
        if side(f, home) == a {
            let x = side(f, !home);
            if prev.contains(x) {
                let k = choose|k: int| 0 <= k < i - 1 && side(#[trigger] sched[k], home) == a && side(sched[k], !home) == x;
                assert(sched[k].1 == sched[i - 1].1 && sched[k].2 == sched[i - 1].2);
                assert(false);
            }
        }
        assert forall|x: Seq<char>|
            side_opponents(sched, a, home, i).contains(x) implies exists|k: int|
                0 <= k < i && side(#[trigger] sched[k], home) == a && side(sched[k], !home) == x by {
            if prev.contains(x) {
                let k = choose|k: int| 0 <= k < i - 1 && side(#[trigger] sched[k], home) == a && side(sched[k], !home) == x;
                assert(0 <= k < i);
            } else {
                assert(side(sched[i - 1], home) == a && side(sched[i - 1], !home) == x);
            }
        }
        assert forall|x: Seq<char>|
            (exists|k: int| 0 <= k < i && side(#[trigger] sched[k], home) == a && side(sched[k], !home) == x)
                implies side_opponents(sched, a, home, i).contains(x) by {
            let k = choose|k: int| 0 <= k < i && side(#[trigger] sched[k], home) == a && side(sched[k], !home) == x;
            if k < i - 1 {
                assert(prev.contains(x));
            }
        }
    }
}

/// Every club of the field plays `n - 1` games at home and `n - 1` away.
pub proof fn lemma_round_robin_venues(ids: Seq<Seq<char>>, first_day: int, spacing: int, a: Seq<char>, home: bool)
    requires
        0 <= first_day <= u32::MAX,
        0 <= spacing <= u32::MAX,
        calendar_refusal(ids, first_day, spacing) is None,
        ids.contains(a),
    ensures
        ({
            let sched = schedule(ids.sort_by(text_order()), first_day, spacing);
            side_count(sched, a, home, sched.len() as int) == ids.len() - 1
        }),
{
    let sched = schedule(ids.sort_by(text_order()), first_day, spacing);
    lemma_round_robin_pairings(ids, first_day, spacing);
    lemma_side_opponents(sched, a, home, sched.len() as int);
    let opp = side_opponents(sched, a, home, sched.len() as int);
    let others = ids.to_set().remove(a);
    assert forall|x: Seq<char>| opp.contains(x) <==> others.contains(x) by {
        if opp.contains(x) {
            let k = choose|k: int|
                0 <= k < sched.len() && side(#[trigger] sched[k], home) == a && side(sched[k], !home) == x;
            assert(sched[k].1 != sched[k].2 && ids.contains(sched[k].1) && ids.contains(sched[k].2));
        }
        if others.contains(x) {
            assert(ids.contains(x) && x != a);
            if home {
                let k = choose|k: int| 0 <= k < sched.len() && (#[trigger] sched[k]).1 == a && sched[k].2 == x;
                assert(side(sched[k], home) == a && side(sched[k], !home) == x);
            } else {
                let k = choose|k: int| 0 <= k < sched.len() && (#[trigger] sched[k]).1 == x && sched[k].2 == a;
                assert(side(sched[k], home) == a && side(sched[k], !home) == x);
            }
        }
    }
    assert(opp =~= others);
    ids.unique_seq_to_set();
    assert(ids.to_set().contains(a));
}

/// The calendar depends on the set of clubs, not on the order they are given in.
pub proof fn lemma_round_robin_ignores_order(ids: Seq<Seq<char>>, other: Seq<Seq<char>>, first_day: int, spacing: int)
    requires
        ids.to_multiset() == other.to_multiset(),
    ensures
        schedule(ids.sort_by(text_order()), first_day, spacing) == schedule(other.sort_by(text_order()), first_day, spacing),
        calendar_refusal(ids, first_day, spacing) == calendar_refusal(other, first_day, spacing),
{
    broadcast use vstd::multiset::group_multiset_axioms;
    broadcast use vstd::seq_lib::group_to_multiset_ensures;

    crate::text::lemma_text_order_total();
    ids.lemma_sort_by_ensures(text_order());
    other.lemma_sort_by_ensures(text_order());
    vstd::seq_lib::lemma_sorted_unique(ids.sort_by(text_order()), other.sort_by(text_order()), text_order());
    vstd::seq_lib::to_multiset_len(ids);
    vstd::seq_lib::to_multiset_len(other);
    lemma_sorted_checks(ids);
    lemma_sorted_checks(other);
    assert(ids.sort_by(text_order()) == other.sort_by(text_order()));
    assert forall|i: int| 0 <= i < ids.len() && is_blank_spec(#[trigger] ids[i]) implies exists|j: int|
        0 <= j < other.len() && is_blank_spec(#[trigger] other[j]) by {
        assert(ids.to_multiset().contains(ids[i]));
        assert(other.contains(ids[i]));
    }
    assert forall|i: int| 0 <= i < other.len() && is_blank_spec(#[trigger] other[i]) implies exists|j: int|
        0 <= j < ids.len() && is_blank_spec(#[trigger] ids[j]) by {
        assert(other.to_multiset().contains(other[i]));
        assert(ids.contains(other[i]));
    }
}

/// The pairing of round `r` (of a leg) that holds the empty seat of an odd
/// field, or -1 for an even field.
pub open spec fn bye_pair(n: int, r: int) -> int {
    let m = circle_size(n);
    if n % 2 == 0 {
        -1
    } else {
        let p = place(m, n, r);
        if p < m - 1 - p {
            p
        } else {
            m - 1 - p
        }
    }
}

/// Slot `g * pairs + q` is pairing `q` of round `g`, a match unless it holds
/// the bye.
proof fn lemma_round_slot(n: int, g: int, q: int)
    requires
        n >= 2,
        0 <= g < 2 * rounds_per_leg(n),
        0 <= q < pairs_per_round(n),
    ensures
        0 <= g * pairs_per_round(n) + q < slot_count(n),
        slot_played(n, g * pairs_per_round(n) + q) <==> q != bye_pair(n, g % rounds_per_leg(n)),
{
    lemma_circle(n);
    let m = circle_size(n);
    let d = rounds_per_leg(n);
    let h = pairs_per_round(n);
    let t = g * h + q;
    assert(0 <= t < slot_count(n)) by (nonlinear_arith)
        requires
            t == g * h + q,
            0 <= q < h,
            0 <= g < 2 * d,
            slot_count(n) == 2 * d * h,
    ;
    vstd::arithmetic::div_mod::lemma_fundamental_div_mod_converse(t, h, g, q);
    lemma_slot_parts(n, t);
    let r = g % d;
    reveal(slot_pair);
    lemma_seat_place(m, q, r);
    lemma_seat_place(m, m - 1 - q, r);
    if n % 2 == 1 {
        lemma_seat_place(m, n, r);
    }
}

proof fn lemma_round_count_inner(n: int, g: int, q: int)
    requires
        n >= 2,
        0 <= g < 2 * rounds_per_leg(n),
        0 <= q <= pairs_per_round(n),
    ensures
        played_before(n, g * pairs_per_round(n) + q) == played_before(n, g * pairs_per_round(n)) + q - if 0
            <= bye_pair(n, g % rounds_per_leg(n)) < q {
            1int
        } else {
            0int
        },
    decreases q,
{
    if q > 0 {
        lemma_round_count_inner(n, g, q - 1);
        lemma_round_slot(n, g, q - 1);
        assert(g * pairs_per_round(n) + q - 1 + 1 == g * pairs_per_round(n) + q);
    }
}

proof fn lemma_round_count(n: int, g: int)
    requires
        n >= 2,
        0 <= g <= 2 * rounds_per_leg(n),
    ensures
        played_before(n, g * pairs_per_round(n)) == g * (pairs_per_round(n) - n % 2),
    decreases g,
{
    lemma_circle(n);
    if g == 0 {
        assert(g * pairs_per_round(n) == 0);
    }
    if g > 0 {
        let h = pairs_per_round(n);
        let d = rounds_per_leg(n);
        lemma_round_count(n, g - 1);
        lemma_round_count_inner(n, g - 1, h);
        let r = (g - 1) % d;
        vstd::arithmetic::div_mod::lemma_mod_pos_bound(g - 1, d);
        if n % 2 == 1 {
            let m = circle_size(n);
            lemma_seat_place(m, n, r);
            assert(0 <= bye_pair(n, r) < h);
        } else {
            assert(bye_pair(n, r) == -1);
        }
        assert((g - 1) * h + h == g * h) by (nonlinear_arith);
        assert((g - 1) * (h - n % 2) + (h - n % 2) == g * (h - n % 2)) by (nonlinear_arith);
    }
}

/// A double round robin of `n` clubs has `n * (n - 1)` fixtures.
pub proof fn lemma_round_robin_size(s: Seq<Seq<char>>, first_day: int, spacing: int)
    requires
        s.len() >= 2,
    ensures
        schedule(s, first_day, spacing).len() == s.len() * (s.len() - 1),
{
    let n = s.len() as int;
    lemma_circle(n);
    let h = pairs_per_round(n);
    let d = rounds_per_leg(n);
    lemma_planned_slots(s, first_day, spacing, slot_count(n));
    lemma_round_count(n, 2 * d);
    assert(slot_count(n) == (2 * d) * h) by (nonlinear_arith)
        requires
            slot_count(n) == 2 * d * h,
    ;
    if n % 2 == 0 {
        assert(2 * d * h == n * (n - 1)) by (nonlinear_arith)
            requires
                d == n - 1,
                h * 2 == n,
        ;
    } else {
        assert(2 * d * (h - 1) == n * (n - 1)) by (nonlinear_arith)
            requires
                d == n,
                h * 2 == n + 1,
        ;
    }
}

/// The next start of a competition that begins every year on `month`/`day`:
/// this year's date if it is not before `anchor`, else next year's (as a day
/// number), or why there is none.
pub open spec fn spec_next_start(anchor: Date, month: int, day: int) -> Result<int, Seq<char>> {
    let year = calendar_year(anchor.day_number());
    match ymd_day_number(year, month, day) {
        None => Err("Invalid competition start date"@),
        Some(same) => if same >= anchor.day_number() {
            Ok(same)
        } else {
            match ymd_day_number(year + 1, month, day) {
                None => Err("Invalid next competition start date"@),
                Some(next) => Ok(next),
            }
        },
    }
}

pub fn next_start(anchor: Date, month: u8, day: u8) -> (r: Result<Date, String>)
    ensures
        match (r, spec_next_start(anchor, month as int, day as int)) {
            (Ok(d), Ok(n)) => d.day_number() == n,
            (Err(m), Err(t)) => m@ == t,
            _ => false,
        },
{
    let year = anchor.year();
    let same = match Date::from_ymd(year, month as u32, day as u32) {
        Some(d) => d,
        None => return Err("Invalid competition start date".to_owned()),
    };
    if !same.is_before(anchor) {
        return Ok(same);
    }
    match Date::from_ymd(year + 1, month as u32, day as u32) {
        Some(d) => Ok(d),
        None => Err("Invalid next competition start date".to_owned()),
    }
}



proof fn lemma_five_digits(a: int)
    requires
        0 <= a < 100000,
    ensures
        a == 10000 * ((a / 10000) % 10) + 1000 * ((a / 1000) % 10) + 100 * ((a / 100) % 10) + 10 * ((a / 10) % 10)
            + a % 10,
{
    assert(a == 10000 * ((a / 10000) % 10) + 1000 * ((a / 1000) % 10) + 100 * ((a / 100) % 10) + 10 * ((a / 10)
        % 10) + a % 10) by (nonlinear_arith)
        requires
            0 <= a < 100000,
    ;
}

proof fn lemma_digit_char_injective(x: int, y: int)
    requires
        0 <= x < 10,
        0 <= y < 10,
        digit_char(x) == digit_char(y),
    ensures
        x == y,
{
}

/// Fixture IDs of different positions of a calendar differ.
pub proof fn lemma_fixture_ids_distinct(a: int, b: int)
    requires
        0 <= a < 100000,
        0 <= b < 100000,
        a != b,
    ensures
        fixture_id_text(a) != fixture_id_text(b),
{
    reveal_strlit("round-robin-");
    if fixture_id_text(a) == fixture_id_text(b) {
        let pa = padded5(a);
        let pb = padded5(b);
        assert(pa =~= fixture_id_text(a).subrange(12, 17));
        assert(pb =~= fixture_id_text(b).subrange(12, 17));
        assert(pa == pb);
        assert forall|k: int| 0 <= k < 5 implies pa[k] == pb[k] by {}
        lemma_digit_char_injective((a / 10000) % 10, (b / 10000) % 10);
        lemma_digit_char_injective((a / 1000) % 10, (b / 1000) % 10);
        lemma_digit_char_injective((a / 100) % 10, (b / 100) % 10);
        lemma_digit_char_injective((a / 10) % 10, (b / 10) % 10);
        lemma_digit_char_injective(a % 10, b % 10);
        lemma_five_digits(a);
        lemma_five_digits(b);
    }
}

/// Whether some fixture falls on day `d`.
pub open spec fn day_used(sched: Seq<(int, Seq<char>, Seq<char>)>, d: int) -> bool {
    exists|k: int| 0 <= k < sched.len() && (#[trigger] sched[k]).0 == d
}

/// The day of round `g`.
pub open spec fn round_day(first_day: int, spacing: int, g: int) -> int {
    first_day + spacing * g
}

/// The double round robin of an accepted field, as one statement: `n(n-1)`
/// fixtures; each ordered pair of different clubs meets exactly once, the
/// first at home; no club plays twice on one day; the days are exactly
/// `first_day + spacing * k` for `k < 2 * rounds_per_leg`, each used; every
/// club plays `n - 1` games at home and `n - 1` away; any ordering of the same
/// clubs gives the same calendar; and the IDs `double_round_robin` gives the
/// fixtures (`fixture_id_text` of positions 1 to `n(n-1)`) differ.
pub proof fn lemma_round_robin_law(ids: Seq<Seq<char>>, first_day: int, spacing: int)
    requires
        0 <= first_day <= u32::MAX,
        0 <= spacing <= u32::MAX,
        calendar_refusal(ids, first_day, spacing) is None,
    ensures
        ({
            let n = ids.len() as int;
            let sched = schedule(ids.sort_by(text_order()), first_day, spacing);
            &&& sched.len() == n * (n - 1)
            &&& forall|a: Seq<char>, b: Seq<char>|
                ids.contains(a) && ids.contains(b) && a != b ==> exists|k: int|
                    0 <= k < sched.len() && (#[trigger] sched[k]).1 == a && sched[k].2 == b
            &&& forall|k: int|
                0 <= k < sched.len() ==> (#[trigger] sched[k]).1 != sched[k].2 && ids.contains(sched[k].1)
                    && ids.contains(sched[k].2)
            &&& forall|k1: int, k2: int|
                0 <= k1 < sched.len() && 0 <= k2 < sched.len() && (#[trigger] sched[k1]).1 == (
                #[trigger] sched[k2]).1 && sched[k1].2 == sched[k2].2 ==> k1 == k2
            &&& forall|k1: int, k2: int|
                0 <= k1 < sched.len() && 0 <= k2 < sched.len() && k1 != k2 && (#[trigger] sched[k1]).0 == (
                #[trigger] sched[k2]).0 ==> sched[k1].1 != sched[k2].1 && sched[k1].1 != sched[k2].2
                    && sched[k1].2 != sched[k2].1 && sched[k1].2 != sched[k2].2
            &&& forall|k: int|
                0 <= k < sched.len() ==> (#[trigger] sched[k]).0 >= first_day && (sched[k].0 - first_day)
                    % spacing == 0 && (sched[k].0 - first_day) / spacing < 2 * rounds_per_leg(n)
            &&& forall|g: int|
                0 <= g < 2 * rounds_per_leg(n) ==> #[trigger] day_used(sched, round_day(first_day, spacing, g))
            &&& forall|a: Seq<char>, home: bool|
                ids.contains(a) ==> #[trigger] side_count(sched, a, home, sched.len() as int) == n - 1
            &&& forall|other: Seq<Seq<char>>|
                other.to_multiset() == ids.to_multiset() ==> #[trigger] schedule(
                    other.sort_by(text_order()),
                    first_day,
                    spacing,
                ) == sched
            &&& forall|a: int, b: int|
                1 <= a < b <= sched.len() ==> #[trigger] fixture_id_text(a) != #[trigger] fixture_id_text(b)
        }),
{
    let n = ids.len() as int;
    let s = ids.sort_by(text_order());
    let sched = schedule(s, first_day, spacing);
    lemma_sorted_clubs(ids);
    lemma_round_robin_size(s, first_day, spacing);
    lemma_round_robin_pairings(ids, first_day, spacing);
    assert forall|g: int| 0 <= g < 2 * rounds_per_leg(n) implies #[trigger] day_used(
        sched,
        round_day(first_day, spacing, g),
    ) by {
        lemma_round_robin_days(ids, first_day, spacing, g);
        let k = choose|k: int| 0 <= k < sched.len() && (#[trigger] sched[k]).0 == first_day + spacing * g;
        assert(sched[k].0 == round_day(first_day, spacing, g));
    }
    assert forall|a: Seq<char>, home: bool| ids.contains(a) implies #[trigger] side_count(
        sched,
        a,
        home,
        sched.len() as int,
    ) == n - 1 by {
        lemma_round_robin_venues(ids, first_day, spacing, a, home);
    }
    assert forall|other: Seq<Seq<char>>| other.to_multiset() == ids.to_multiset() implies #[trigger] schedule(
        other.sort_by(text_order()),
        first_day,
        spacing,
    ) == sched by {
        lemma_round_robin_ignores_order(ids, other, first_day, spacing);
    }
    assert(n * (n - 1) <= 128 * 127) by (nonlinear_arith)
        requires
            2 <= n <= 128,
    ;
    assert forall|a: int, b: int| 1 <= a < b <= sched.len() implies #[trigger] fixture_id_text(a)
        != #[trigger] fixture_id_text(b) by {
        lemma_fixture_ids_distinct(a, b);
    }
}

} // verus!
