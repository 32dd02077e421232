use management::finances::weekly_finance_penalty;

#[test]
fn wage_boundaries_preserve_strict_source_comparisons() {
    for usage in [0, 84, 85, 99, 100] {
        assert_eq!(weekly_finance_penalty(1_000_000, usage, 0), 0);
    }
    for usage in [101, 110] {
        assert_eq!(weekly_finance_penalty(1_000_000, usage, 0), 2);
    }
    for usage in [111, u32::MAX] {
        assert_eq!(weekly_finance_penalty(1_000_000, usage, 0), 4);
    }
}

#[test]
fn runway_uses_integer_weeks_and_worst_pressure_not_sum() {
    for cash in [0, 400, 499] {
        assert_eq!(weekly_finance_penalty(cash, 0, -100), 4);
    }
    for cash in [500, 800, 899] {
        assert_eq!(weekly_finance_penalty(cash, 0, -100), 2);
    }
    for cash in [900, 1200, 1300] {
        assert_eq!(weekly_finance_penalty(cash, 0, -100), 0);
    }
    assert_eq!(weekly_finance_penalty(400, 111, -100), 4);
    assert_eq!(weekly_finance_penalty(800, 101, -100), 2);
}

#[test]
fn debt_and_nonnegative_cashflow_match_source_without_overflow() {
    assert_eq!(weekly_finance_penalty(-1, 0, 100), 4);
    assert_eq!(weekly_finance_penalty(0, 0, 0), 0);
    assert_eq!(weekly_finance_penalty(0, 0, 1), 0);
    assert_eq!(weekly_finance_penalty(i64::MAX, 0, i64::MIN), 4);
}

#[test]
fn penalty_is_the_worse_pressure_not_the_sum() {
    assert_eq!(weekly_finance_penalty(800, 111, -100), 4);
    assert_eq!(weekly_finance_penalty(1300, 105, -100), 2);
    assert_eq!(weekly_finance_penalty(-5, 50, 10), 4);
}
