use management::board::{validate_warning_history, BoardState, BoardWarning, Decision, ObjectiveTargets};

#[test]
fn exact_reputation_thresholds_use_league_size() {
    for (rep, position, wins, goals) in [
        (0, 15, 3, 10),
        (399, 15, 3, 10),
        (400, 10, 11, 10),
        (649, 10, 11, 10),
        (650, 5, 17, 19),
        (799, 5, 17, 19),
        (800, 1, 22, 57),
        (1000, 1, 22, 57),
    ] {
        assert_eq!(
            ObjectiveTargets::new(rep, 20).unwrap(),
            ObjectiveTargets {
                expected_pos: position,
                win_target: wins,
                goals_target: goals,
                finance_target: 100
            }
        );
    }
    for rep in [0, 400, 650, 800] {
        let solo = ObjectiveTargets::new(rep, 1).unwrap();
        assert_eq!(
            (solo.expected_pos, solo.win_target, solo.goals_target),
            (1, 0, 0)
        );
        let pair = ObjectiveTargets::new(rep, 2).unwrap();
        assert_eq!(pair.win_target, 1);
        assert!(pair.expected_pos <= 2);
    }
    assert!(ObjectiveTargets::new(800, 440).is_err());
}

#[test]
fn matches_saturate_and_identical_manager_boards_remain_equal() {
    let mut a = BoardState::new(650, 20, 99).unwrap();
    let mut b = a.clone();
    for (scored, conceded, satisfaction) in [(2, 1, 100), (0, 0, 99), (0, 1, 96)] {
        a.after_match(scored, conceded);
        b.after_match(scored, conceded);
        assert_eq!(a, b);
        assert_eq!(a.satisfaction, satisfaction);
    }
    a.satisfaction = 1;
    a.after_match(0, 255);
    assert_eq!(a.satisfaction, 0);
    a.after_match(255, 255);
    assert_eq!(a.satisfaction, 0);
}

#[test]
fn firing_thresholds_and_prior_warning_are_exact() {
    for (sat, first, stage, second) in [
        (26, Decision::NoAction, 0, Decision::NoAction),
        (25, Decision::Warning, 1, Decision::NoAction),
        (19, Decision::Warning, 1, Decision::NoAction),
        (18, Decision::FinalWarning, 2, Decision::NoAction),
        (11, Decision::FinalWarning, 2, Decision::NoAction),
        (10, Decision::Warning, 1, Decision::Fired),
        (0, Decision::Warning, 1, Decision::Fired),
    ] {
        let mut board = BoardState::new(500, 20, sat).unwrap();
        assert_eq!(board.evaluate_firing(), first);
        assert_eq!(board.warning_stage, stage);
        assert_eq!(board.evaluate_firing(), second);
        assert_eq!(board.warning_stage, stage);
        assert_eq!(board.satisfaction, sat);
    }
    let mut board = BoardState::new(500, 20, 25).unwrap();
    board.evaluate_firing();
    board.satisfaction = 18;
    assert_eq!(board.evaluate_firing(), Decision::FinalWarning);
    board.satisfaction = 100;
    assert_eq!(board.evaluate_firing(), Decision::NoAction);
    assert_eq!(board.warning_stage, 2);
    board.satisfaction = 10;
    assert_eq!(board.evaluate_firing(), Decision::Fired);
    assert_eq!(board.warning_stage, 2);
}

#[test]
fn season_objective_boundaries_and_delta_counts() {
    for (position, wins, goals, wage, debt, delta) in [
        (1, 22, 57, 100, false, 15),
        (2, 22, 57, 100, false, 5),
        (2, 21, 57, 100, false, -5),
        (2, 21, 56, 100, false, -5),
        (2, 21, 56, 101, false, -15),
        (2, 21, 56, 0, true, -15),
    ] {
        let mut board = BoardState::new(800, 20, 50).unwrap();
        let outcome = board
            .evaluate_season(position, wins, goals, wage, debt)
            .unwrap();
        assert_eq!(outcome.satisfaction_delta, delta);
        assert_eq!(board.satisfaction, (50 + delta) as u8);
        assert_eq!(outcome.position_met, position == 1);
        assert_eq!(outcome.wins_met, wins >= 22);
        assert_eq!(outcome.goals_met, goals >= 57);
        assert_eq!(outcome.finance_met, wage <= 100 && !debt);
    }
    let mut board = BoardState::new(800, 20, 99).unwrap();
    board.evaluate_season(1, 22, 57, 100, false).unwrap();
    assert_eq!(board.satisfaction, 100);
    board.satisfaction = 1;
    board.evaluate_season(20, 0, 0, 101, false).unwrap();
    assert_eq!(board.satisfaction, 0);
}

#[test]
fn reset_preserves_warning_and_satisfaction_and_errors_are_atomic() {
    let mut board = BoardState::new(800, 20, 10).unwrap();
    board.evaluate_firing();
    board.reset_objectives(0, 2).unwrap();
    assert_eq!(
        (board.satisfaction, board.warning_stage, board.league_size),
        (10, 1, 2)
    );
    assert_eq!(board.objectives, ObjectiveTargets::new(0, 2).unwrap());
    let original = board.clone();
    assert!(board.reset_objectives(1001, 2).is_err());
    assert!(board.evaluate_season(0, 0, 0, 0, false).is_err());
    assert!(board.evaluate_season(3, 0, 0, 0, false).is_err());
    assert_eq!(board, original);
    assert!(BoardState::new(0, 0, 0).is_err());
    assert!(BoardState::new(0, 129, 0).is_err());
    assert!(BoardState::new(0, 20, 101).is_err());
}

#[test]
fn fired_needs_an_earlier_warning_and_stage_never_drops() {
    let mut board = BoardState::new(500, 20, 5).unwrap();
    assert_eq!(board.evaluate_firing(), Decision::Warning);
    assert_eq!(board.evaluate_firing(), Decision::Fired);
    assert_eq!(board.warning_stage, 1);
    board.satisfaction = 100;
    board.after_match(3, 0);
    assert_eq!(board.satisfaction, 100);
    assert_eq!(board.evaluate_firing(), Decision::NoAction);
    assert_eq!(board.warning_stage, 1);
}

#[test]
fn objective_formula_examples() {
    let t = ObjectiveTargets::new(300, 128).unwrap();
    assert_eq!(t.expected_pos, 96);
    assert_eq!(t.win_target, 25);
    assert_eq!(t.goals_target, 50);
    let t = ObjectiveTargets::new(700, 8).unwrap();
    assert_eq!((t.expected_pos, t.win_target, t.goals_target), (2, 6, 15));
}

#[test]
fn warning_histories_must_climb_in_order_before_today() {
    let w = |decision: Decision, day: u32| BoardWarning { decision, day };
    assert_eq!(validate_warning_history(&vec![], 0, 10), Ok(()));
    assert_eq!(
        validate_warning_history(&vec![w(Decision::Warning, 3), w(Decision::FinalWarning, 5)], 2, 10),
        Ok(())
    );
    assert_eq!(
        validate_warning_history(&vec![w(Decision::Fired, 3)], 0, 10),
        Err("Invalid checkpoint private warning type".to_string())
    );
    assert_eq!(
        validate_warning_history(&vec![w(Decision::FinalWarning, 3), w(Decision::Warning, 5)], 1, 10),
        Err("Invalid checkpoint warning chronology".to_string())
    );
    assert_eq!(
        validate_warning_history(&vec![w(Decision::Warning, 5), w(Decision::FinalWarning, 5)], 2, 10),
        Err("Invalid checkpoint warning chronology".to_string())
    );
    assert_eq!(
        validate_warning_history(&vec![w(Decision::Warning, 10)], 1, 10),
        Err("Invalid checkpoint warning chronology".to_string())
    );
    assert_eq!(
        validate_warning_history(&vec![w(Decision::Warning, 3)], 2, 10),
        Err("Checkpoint warning stage/history mismatch".to_string())
    );
}
