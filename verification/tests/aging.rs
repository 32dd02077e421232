use management::aging::{
    age_players, decrease_attribute, increase_attribute, player_age_on, retirement_chance,
    technical_growth, veteran_pace_loss, AgingPlayer, growth_on_draw, pace_loss_on_draw,
    retires_on_draw,
};
use management::dates::Date;

fn date(text: &str) -> Date {
    Date::parse(text).unwrap()
}

fn player() -> AgingPlayer {
    AgingPlayer {
        id: "a-p".into(),
        date_of_birth: "1993-01-01".into(),
        pace: 60,
        passing: 60,
        vision: 60,
        decisions: 60,
        composure: 60,
        ovr: 70,
        contract_end: Some("2028-01-01".into()),
        team_id: Some("club".into()),
        appearances: 20,
        low_average_rating: false,
        high_average_rating: false,
        retired: false,
        transfer_listed: true,
        loan_listed: false,
        transfer_offers: vec!["offer".into()],
    }
}

#[test]
fn source_age_curves_and_retirement_modifiers_are_exact() {
    let today = date("2026-06-01");
    let mut p = player();
    assert_eq!(retirement_chance(&p, 33, today), 12);
    p.contract_end = None;
    assert_eq!(retirement_chance(&p, 33, today), 30);
    p.team_id = None;
    assert_eq!(retirement_chance(&p, 33, today), 40);
    p.appearances = 9;
    p.low_average_rating = true;
    assert_eq!(retirement_chance(&p, 33, today), 56);
    p.low_average_rating = false;
    p.high_average_rating = true;
    p.ovr = 80;
    assert_eq!(retirement_chance(&p, 33, today), 23);
    assert_eq!(retirement_chance(&p, 32, today), 0);
    assert_eq!(veteran_pace_loss("p", 29, 1), 0);
    assert!((1..=3).contains(&veteran_pace_loss("p", 30, 1)));
    assert_eq!(technical_growth("p", 33, 1), 0);
    assert!(technical_growth("p", 32, 1) <= 1);
    let mut low = 1;
    decrease_attribute(&mut low, 3);
    assert_eq!(low, 1);
    let mut high = 99;
    increase_attribute(&mut high, 1);
    assert_eq!(high, 99);
}

#[test]
fn ages_compare_days_of_the_year_and_default_to_thirty() {
    assert_eq!(player_age_on(date("2026-06-01"), "1993-01-01"), 33);
    assert_eq!(player_age_on(date("2026-06-01"), "1993-12-31"), 32);
    assert_eq!(player_age_on(date("2026-06-01"), "not a date"), 30);
}

#[test]
fn expired_contracts_and_certain_retirement_clear_the_club() {
    let today = date("2026-06-01");
    let mut expired = player();
    expired.contract_end = Some("2026-05-31".into());
    assert_eq!(retirement_chance(&expired, 33, today), 30);
    let mut veteran = player();
    veteran.date_of_birth = "1980-01-01".into();
    let mut retired = player();
    retired.retired = true;
    retired.date_of_birth = "1970-01-01".into();
    let mut young = player();
    young.date_of_birth = "2005-01-01".into();
    let mut players = vec![veteran, retired.clone(), young];
    let departures = age_players(&mut players, today, 2026);
    assert!(players[0].retired);
    assert_eq!(players[0].team_id, None);
    assert_eq!(players[0].contract_end, None);
    assert!(!players[0].transfer_listed);
    assert!(players[0].transfer_offers.is_empty());
    assert!(players[0].pace < 60 && players[0].pace >= 57);
    assert_eq!(players[1], retired);
    assert!(!players[2].retired);
    assert_eq!(players[2].pace, 60);
    assert_eq!(departures, vec![("a-p".to_string(), "club".to_string())]);
}

#[test]
fn draws_decide_retirement_pace_and_growth() {
    assert!(!retires_on_draw(0, 0));
    assert!(retires_on_draw(12, 111));
    assert!(!retires_on_draw(12, 112));
    assert!(retires_on_draw(100, 99));
    assert_eq!(pace_loss_on_draw(29, 5), 0);
    assert_eq!(pace_loss_on_draw(30, 5), 3);
    assert_eq!(pace_loss_on_draw(30, 6), 1);
    assert_eq!(growth_on_draw(32, 7), 1);
    assert_eq!(growth_on_draw(32, 8), 0);
    assert_eq!(growth_on_draw(33, 7), 0);
}
