use management::bot_training::{choose_training, Focus, Intensity, PlayStyle};

// An intense schedule trains on weekdays 0, 1 and 3; a balanced one rests on weekday 2.
const TRAINS: bool = true;
const RESTS: bool = false;

#[test]
fn exact_condition_and_congestion_boundaries() {
    for (condition, expected) in [
        (9, (Focus::Recovery, Intensity::Low)),
        (39, (Focus::Recovery, Intensity::Low)),
        (40, (Focus::Technical, Intensity::Medium)),
        (70, (Focus::Technical, Intensity::Medium)),
        (71, (Focus::Technical, Intensity::High)),
    ] {
        assert_eq!(
            choose_training(PlayStyle::Balanced, TRAINS, 1, &[condition], None, 0).unwrap(),
            Some(expected)
        );
    }
    assert_eq!(
        choose_training(PlayStyle::Balanced, TRAINS, 1, &[90], Some(2), 0).unwrap(),
        Some((Focus::Tactical, Intensity::Medium))
    );
    assert_eq!(
        choose_training(PlayStyle::Balanced, TRAINS, 1, &[60], None, 2).unwrap(),
        Some((Focus::Recovery, Intensity::Low))
    );
    assert_eq!(
        choose_training(PlayStyle::Balanced, TRAINS, 0, &[90], None, 0).unwrap(),
        Some((Focus::Physical, Intensity::Medium))
    );
}

#[test]
fn rest_days_and_styles_preserve_source_cycle() {
    assert_eq!(choose_training(PlayStyle::Balanced, RESTS, 2, &[9], None, 0).unwrap(), None);
    assert_eq!(
        choose_training(PlayStyle::Attacking, TRAINS, 3, &[90], None, 0).unwrap(),
        Some((Focus::Attacking, Intensity::High))
    );
    assert_eq!(
        choose_training(PlayStyle::Counter, TRAINS, 3, &[90], None, 0).unwrap(),
        Some((Focus::Technical, Intensity::High))
    );
    assert!(choose_training(PlayStyle::Balanced, TRAINS, 7, &[90], None, 0).is_err());
}

#[test]
fn averages_are_taken_over_the_whole_squad() {
    // 9 and 11 average exactly 10: not exhausted, but low.
    assert_eq!(
        choose_training(PlayStyle::Balanced, TRAINS, 1, &[9, 11], None, 0).unwrap(),
        Some((Focus::Recovery, Intensity::Low))
    );
    // An empty squad counts as fully fit.
    assert_eq!(
        choose_training(PlayStyle::HighPress, TRAINS, 4, &[], None, 0).unwrap(),
        Some((Focus::Tactical, Intensity::High))
    );
    assert_eq!(
        choose_training(PlayStyle::HighPress, TRAINS, 5, &[], None, 0).unwrap(),
        Some((Focus::Physical, Intensity::Medium))
    );
    assert!(choose_training(PlayStyle::Balanced, TRAINS, 1, &[50, 101], None, 0).is_err());
    assert!(choose_training(PlayStyle::Balanced, RESTS, 1, &[101], None, 0).is_err());
}
