use management::dates::Date;
use management::economy::{
    accepted_sponsorship, annual_player_wage, cash_runway, count_recent_home_matches,
    finish_weekly_settlement, marketing_cooldown, matchday_income, preview_board_support,
    preview_marketing_campaign, preview_sponsor_pitch, request_board_support,
    request_marketing_campaign, runway_health, satisfaction_penalty, snapshot,
    sponsorship_bonus, stage_weekly_settlement, wage_health, warning, ActiveLoan, Context,
    FinanceState, FixtureRecord, Health, MatchdayTakings, SponsorshipBonusCriterion, Warning,
};
use management::economy::{execute_economy, EconomyCommand, EconomyOutcome};
use management::economy::{season_payout, FinancialTransactionKind};
use rand::{RngExt, SeedableRng};

fn date(text: &str) -> Date {
    Date::parse(text).unwrap()
}

fn state() -> FinanceState {
    FinanceState {
        wage_budget: 400_000,
        transfer_budget: 500_000,
        season_income: 0,
        season_expenses: 0,
        sponsorship: None,
        financial_ledger: vec![],
        reputation: 650,
        stadium_capacity: 22_000,
        form: vec!["W".into(), "D".into(), "W".into()],
    }
}

fn context() -> Context {
    Context {
        club_id: "team1".into(),
        today: date("2026-02-16"),
        season: 2026,
        current_position: Some(1),
        annual_wage_bill: 52_000,
        weekly_wage_spend: 1000,
        recent_home_matches: 0,
        pending_sponsor_offer: false,
        sponsor_pitch_attempted_today: false,
    }
}

fn float_matchday(capacity: u32, count: i64, attendance: f64, ticket: f64) -> i64 {
    ((f64::from(capacity) * attendance * ticket) as i64) * count
}

fn settle(
    s: &mut FinanceState,
    balance: &mut i64,
    c: &Context,
    wages: i64,
    rng: &mut rand::rngs::StdRng,
) -> Result<Option<management::economy::Settlement>, String> {
    let Some(staged) = stage_weekly_settlement(s, *balance, c, wages)? else {
        return Ok(None);
    };
    let takings = if c.recent_home_matches > 0 {
        let attendance = rng.random_range(60_u32..=92);
        let ticket = rng.random_range(15_u32..=25);
        Some(MatchdayTakings {
            attendance_percent: attendance,
            average_ticket: ticket,
            income: float_matchday(
                s.stadium_capacity,
                c.recent_home_matches,
                f64::from(attendance) / 100.0,
                f64::from(ticket),
            ),
        })
    } else {
        None
    };
    finish_weekly_settlement(s, balance, &staged, c, takings).map(Some)
}

#[test]
fn weekly_revenue_sponsor_expiry_and_rng_are_exact_and_seeded() {
    let mut s = state();
    s.sponsorship = Some(accepted_sponsorship("Sponsor".into(), 100_000).unwrap());
    s.sponsorship.as_mut().unwrap().remaining_weeks = 1;
    let mut c = context();
    c.recent_home_matches = 2;
    let mut balance = 500_000;
    let mut expected = rand::rngs::StdRng::seed_from_u64(42);
    let a = expected.random_range(60_u32..=92);
    let ticket = expected.random_range(15_u32..=25);
    let result = settle(
        &mut s,
        &mut balance,
        &c,
        1000,
        &mut rand::rngs::StdRng::seed_from_u64(42),
    )
    .unwrap()
    .unwrap();
    assert_eq!(result.sponsorship_income, 125_000);
    assert_eq!(result.attendance_percent, Some(a));
    assert_eq!(result.average_ticket, Some(ticket));
    assert_eq!(
        result.matchday_income,
        float_matchday(22_000, 2, f64::from(a) / 100.0, f64::from(ticket))
    );
    assert_eq!(balance, 500_000 - 1000 + 125_000 + result.matchday_income);
    assert!(s.sponsorship.is_none());
    assert!(s.financial_ledger.is_empty());
    assert_eq!(s.season_expenses, 1000);
    assert_eq!(s.season_income, 125_000 + result.matchday_income);
    let before = s.clone();
    c.today = date("2026-02-17");
    assert!(settle(&mut s, &mut balance, &c, 1000, &mut expected)
        .unwrap()
        .is_none());
    assert_eq!(s, before);
}

#[test]
fn snapshots_use_estimated_attendance_loan_shares_and_exact_health_thresholds() {
    let mut c = context();
    c.recent_home_matches = 1;
    let s = state();
    let p = snapshot(&s, 500_000, &c).unwrap();
    assert_eq!(p.weekly_recurring_income, 334_400);
    assert_eq!(p.projected_weekly_net, 333_400);
    assert_eq!(p.cash_runway_weeks, None);
    let loan = ActiveLoan {
        parent_team_id: "parent".into(),
        loan_team_id: "borrower".into(),
        wage_contribution_pct: 33,
    };
    assert_eq!(
        annual_player_wage(101, Some("borrower"), Some(&loan), "borrower"),
        33
    );
    assert_eq!(annual_player_wage(101, None, Some(&loan), "parent"), 68);
    assert_eq!(annual_player_wage(101, Some("x"), None, "x"), 101);
    assert_eq!(annual_player_wage(101, Some("x"), None, "y"), 0);
    assert_eq!(cash_runway(i64::MIN, i64::MIN), Some(0));
    assert_eq!(wage_health(110), Health::Warning);
    assert_eq!(wage_health(111), Health::Critical);
    assert_eq!(runway_health(0, Some(4)), Health::Critical);
    assert_eq!(runway_health(0, Some(8)), Health::Warning);
    assert_eq!(runway_health(0, Some(12)), Health::Watch);
}

#[test]
fn support_is_once_per_season_and_changes_budget_and_satisfaction_output() {
    let mut s = state();
    let c = context();
    let mut cash = -25_000;
    let p = request_board_support(&mut s, &mut cash, &c).unwrap();
    assert_eq!(p.support_amount, 175_000);
    assert_eq!(p.transfer_budget_reduction, 87_500);
    assert_eq!(p.satisfaction_penalty, 12);
    assert_eq!(cash, 150_000);
    assert_eq!(s.transfer_budget, 412_500);
    cash = -25_000;
    assert!(preview_board_support(&s, cash, &c)
        .unwrap_err()
        .contains("AlreadyUsed"));
    let mut next = c;
    next.season += 1;
    assert!(preview_board_support(&s, cash, &next).is_ok());
}

#[test]
fn marketing_accounts_and_twenty_eight_day_cooldown() {
    let mut s = state();
    let mut c = context();
    let mut cash = -25_000;
    let p = request_marketing_campaign(&mut s, &mut cash, &c).unwrap();
    assert_eq!(p.gross_revenue, 250_000);
    assert_eq!(p.campaign_cost, 62_500);
    assert_eq!(cash, 162_500);
    assert_eq!(s.financial_ledger.len(), 2);
    assert_eq!(s.season_income, 250_000);
    assert_eq!(s.season_expenses, 62_500);
    cash = -25_000;
    c.today = date("2026-03-15");
    assert_eq!(marketing_cooldown(&s, c.today), 1);
    assert!(preview_marketing_campaign(&s, cash, &c).is_err());
    c.today = date("2026-03-16");
    assert_eq!(marketing_cooldown(&s, c.today), 0);
    assert!(preview_marketing_campaign(&s, cash, &c).is_ok());
}

#[test]
fn sponsor_pitch_gates_then_acceptance_is_deferred_income() {
    let mut s = state();
    let mut c = context();
    let leader = preview_sponsor_pitch(&s, -25_000, &c).unwrap();
    c.current_position = Some(5);
    assert!(preview_sponsor_pitch(&s, -25_000, &c).unwrap().weekly_amount < leader.weekly_amount);
    c.pending_sponsor_offer = true;
    assert!(preview_sponsor_pitch(&s, -25_000, &c).is_err());
    c.pending_sponsor_offer = false;
    c.sponsor_pitch_attempted_today = true;
    assert!(preview_sponsor_pitch(&s, -25_000, &c).is_err());
    c.sponsor_pitch_attempted_today = false;
    s.sponsorship = Some(accepted_sponsorship(leader.sponsor_name, leader.weekly_amount as u64).unwrap());
    assert!(preview_sponsor_pitch(&s, -25_000, &c).is_err());
    assert_eq!(s.season_income, 0);
    assert_eq!(s.sponsorship.as_ref().unwrap().remaining_weeks, 12);
}

#[test]
fn sponsor_pitch_identity_and_amount_are_exact() {
    let s = state();
    let c = context();
    let pitch = preview_sponsor_pitch(&s, -25_000, &c).unwrap();
    assert_eq!(pitch.message_id, "sponsor_pitch_2026-02-16");
    assert_eq!(pitch.duration_weeks, 12);
    // 40,000 + 650 × 120 + 18,000 (first) + 25,000 (critical) + 20,000 (debt), capped.
    assert_eq!(pitch.weekly_amount, 180_000);
    let mut partner: u64 = 47;
    for byte in "team1".bytes() {
        partner = partner.wrapping_mul(31).wrapping_add(u64::from(byte));
    }
    let names = [
        "Northstar Logistics",
        "Harbor Bank",
        "Crest Mobile",
        "Vertex Nutrition",
        "Iron Peak Tools",
        "Brightline Energy",
        "Summit Capital",
        "Evergreen Foods",
    ];
    assert_eq!(pitch.sponsor_name, names[(partner % 8) as usize]);
}

#[test]
fn overflow_does_not_publish_partial_accounts() {
    let mut s = state();
    s.season_expenses = i64::MAX;
    let before = s.clone();
    let mut cash = 0;
    assert!(settle(
        &mut s,
        &mut cash,
        &context(),
        1,
        &mut rand::rngs::StdRng::seed_from_u64(1)
    )
    .is_err());
    assert_eq!(s, before);
    assert_eq!(cash, 0);
    let mut s = state();
    s.season_income = i64::MAX;
    let before = s.clone();
    let mut cash = -10;
    assert!(request_marketing_campaign(&mut s, &mut cash, &context()).is_err());
    assert_eq!(s, before);
    assert_eq!(cash, -10);
}

#[test]
fn matchday_count_is_completed_home_with_result_and_strict_seven_day_window() {
    let fixture = |day: &str| FixtureRecord {
        home_team_id: "team1".into(),
        completed: true,
        has_result: true,
        date: day.into(),
    };
    let mut scheduled = fixture("2026-02-15");
    scheduled.completed = false;
    let mut no_result = fixture("2026-02-15");
    no_result.has_result = false;
    let mut away = fixture("2026-02-15");
    away.home_team_id = "other".into();
    let fixtures = vec![
        fixture("2026-02-09"),
        fixture("2026-02-10"),
        fixture("2026-02-16"),
        fixture("2026-02-17"),
        fixture("bad-date"),
        scheduled,
        no_result,
        away,
    ];
    assert_eq!(count_recent_home_matches(&fixtures, "team1", context().today), 2);
}

#[test]
fn bonus_criteria_and_warning_boundary_preserve_source_asymmetries() {
    let mut sponsor = accepted_sponsorship("Sponsor".into(), 1000).unwrap();
    sponsor.bonus_criteria.push(SponsorshipBonusCriterion::LeaguePosition {
        max_position: 4,
        bonus_amount: 300,
    });
    assert_eq!(
        sponsorship_bonus(Some(4), &["W".into(), "D".into(), "W".into()], &sponsor).unwrap(),
        550
    );
    assert_eq!(
        sponsorship_bonus(Some(5), &["W".into(), "L".into(), "W".into()], &sponsor).unwrap(),
        0
    );
    let s = state();
    let c = context();
    let p = snapshot(&s, 4000, &c).unwrap();
    assert_eq!(p.cash_runway_weeks, Some(4));
    assert_eq!(p.overall_status, Health::Critical);
    assert_eq!(satisfaction_penalty(&p), 4);
    assert!(warning(&s, 4000, &p).is_none());
    let p = snapshot(&s, 3999, &c).unwrap();
    assert!(matches!(
        warning(&s, 3999, &p),
        Some(Warning::Runway { weeks_left: 3, .. })
    ));
}

#[test]
fn matchday_income_rounds_down_and_rejects_bad_counts() {
    assert_eq!(matchday_income(22_000, 1, 76, 20).unwrap(), 334_400);
    assert_eq!(matchday_income(3, 1, 60, 15).unwrap(), 27);
    assert!(matchday_income(1, -1, 76, 20).is_err());
    assert!(matchday_income(u32::MAX, i64::MAX, 76, 20).is_err());
    assert!(accepted_sponsorship("x".into(), u64::MAX).is_err());
}

#[test]
fn economy_commands_apply_to_the_account_and_count_board_penalties() {
    let mut s = state();
    let c = context();
    let mut cash = -25_000;
    let mut penalty: u8 = 250;
    let outcome = execute_economy(EconomyCommand::RequestBoardSupport, &mut s, &mut cash, &mut penalty, &c);
    let Ok(EconomyOutcome::BoardSupport(b)) = outcome else { panic!("support expected") };
    assert_eq!(b.support_amount, 175_000);
    assert_eq!((cash, penalty, s.transfer_budget), (150_000, 255, 412_500));
    // A second request this season is refused and changes nothing.
    let before = s.clone();
    cash = -25_000;
    assert!(execute_economy(EconomyCommand::RequestBoardSupport, &mut s, &mut cash, &mut penalty, &c).is_err());
    assert_eq!((s, cash, penalty), (before, -25_000, 255));

    let mut s = state();
    let mut cash = -25_000;
    let mut penalty: u8 = 0;
    let outcome = execute_economy(EconomyCommand::RequestMarketingCampaign, &mut s, &mut cash, &mut penalty, &c);
    assert!(matches!(outcome, Ok(EconomyOutcome::MarketingCampaign(_))));
    assert_eq!((cash, penalty, s.financial_ledger.len()), (162_500, 0, 2));

    let mut s = state();
    let mut cash = -25_000;
    let outcome = execute_economy(EconomyCommand::RequestSponsorPitch, &mut s, &mut cash, &mut penalty, &c);
    let Ok(EconomyOutcome::SponsorPitch(pitch)) = outcome else { panic!("pitch expected") };
    assert_eq!(pitch.duration_weeks, 12);
    assert_eq!((s, cash), (state(), -25_000));
}

#[test]
fn matchday_income_takes_any_attendance_and_ticket() {
    assert_eq!(matchday_income(1_000, 2, 250, 300).unwrap(), 1_500_000);
    assert_eq!(
        matchday_income(u32::MAX, 1, u32::MAX, 1).unwrap(),
        (u64::from(u32::MAX) * u64::from(u32::MAX) / 100) as i64
    );
    // A per-match value past i64::MAX is refused even for no matches.
    assert!(matchday_income(u32::MAX, 0, u32::MAX, u32::MAX).is_err());
}

#[test]
fn season_payout_books_prize_money_and_clears_form() {
    let mut account = state();
    account.season_income = 1_000;
    season_payout(&mut account, Date::parse("2027-05-31").unwrap(), 2026, 2, 250_000).unwrap();
    assert_eq!(account.season_income, 251_000);
    assert!(account.form.is_empty());
    let entry = account.financial_ledger.last().unwrap();
    assert_eq!(entry.date, "2027-05-31");
    assert_eq!(
        entry.description,
        "be.msg.seasonPayout.ledgerDescription?season=2026&position=2&suffix=nd"
    );
    assert_eq!(entry.amount, 250_000);
    assert_eq!(entry.kind, FinancialTransactionKind::PrizeMoney);
    season_payout(&mut account, Date::parse("2027-05-31").unwrap(), 2026, 11, 1).unwrap();
    assert!(account.financial_ledger.last().unwrap().description.ends_with("position=11&suffix=th"));
    let before = account.clone();
    assert_eq!(
        season_payout(&mut account, Date::parse("2027-05-31").unwrap(), 2026, 1, i64::MAX),
        Err("Season income overflow".to_string())
    );
    assert_eq!(account, before);
}
