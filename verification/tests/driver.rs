use quadrature::driver::{Driver, Failure, Step, MAX_ITERATIONS};
use quadrature::method::{Method, RectangleMode};

fn refined(step: Step) -> Driver {
    match step {
        Step::Refine(driver) => driver,
        other => panic!("another round was due, not {:?}", other),
    }
}

fn failed(step: Step) -> Failure {
    match step {
        Step::Failed(failure) => failure,
        other => panic!("a failure was due, not {:?}", other),
    }
}

#[test]
fn the_default_budget_is_a_hundred_thousand_rounds() {
    assert_eq!(MAX_ITERATIONS, 100_000);
    let driver = Driver::new(Method::Trapezoid, 5).unwrap();
    assert_eq!(driver.budget(), 100_000);
}

#[test]
fn simpson_refuses_one_split() {
    assert_eq!(
        Driver::new(Method::Simpson, 1).err(),
        Some(Failure::OddSplits { splits: 1 })
    );
}

#[test]
fn simpson_refuses_every_odd_split_count() {
    assert_eq!(
        Driver::new(Method::Simpson, 5).err(),
        Some(Failure::OddSplits { splits: 5 })
    );
    assert_eq!(
        Driver::with_budget(Method::Simpson, 99, 0).err(),
        Some(Failure::OddSplits { splits: 99 })
    );
}

#[test]
fn no_rule_starts_from_zero_splits() {
    for method in [
        Method::Rectangle(RectangleMode::Left),
        Method::Rectangle(RectangleMode::Center),
        Method::Rectangle(RectangleMode::Right),
        Method::Trapezoid,
        Method::Simpson,
    ] {
        assert_eq!(Driver::new(method, 0).err(), Some(Failure::NoSplits));
    }
}

#[test]
fn a_budget_of_no_rounds_is_spent_at_once() {
    assert_eq!(
        Driver::with_budget(Method::Trapezoid, 5, 0).err(),
        Some(Failure::Exhausted { budget: 0, splits: 5 })
    );
}

#[test]
fn a_start_whose_double_cannot_be_counted_overflows() {
    let initial = usize::MAX / 2 + 1;
    assert_eq!(
        Driver::new(Method::Trapezoid, initial).err(),
        Some(Failure::Overflow { splits: initial })
    );
}

#[test]
fn the_first_round_works_on_the_initial_splits_and_their_double() {
    let driver = Driver::new(Method::Rectangle(RectangleMode::Center), 5).unwrap();
    assert_eq!(driver.method(), Method::Rectangle(RectangleMode::Center));
    assert_eq!(driver.coarse_splits(), 5);
    assert_eq!(driver.fine_splits(), 10);
    assert_eq!(driver.rounds(), 0);
}

#[test]
fn agreement_ends_with_the_fine_split_count() {
    let driver = Driver::new(Method::Simpson, 6).unwrap();
    assert!(matches!(driver.advance(true), Step::Converged { splits: 12 }));
}

#[test]
fn a_refusal_quadruples_the_splits() {
    let first = Driver::new(Method::Trapezoid, 3).unwrap();
    let second = refined(first.advance(false));
    assert_eq!(second.coarse_splits(), 12);
    assert_eq!(second.fine_splits(), 24);
    assert_eq!(second.rounds(), 1);
    assert_eq!(second.budget(), first.budget());
    assert_eq!(second.method(), Method::Trapezoid);
    let third = refined(second.advance(false));
    assert_eq!(third.coarse_splits(), 48);
    assert_eq!(third.rounds(), 2);
    assert!(matches!(third.advance(true), Step::Converged { splits: 96 }));
}

#[test]
fn simpson_keeps_an_even_split_count() {
    let mut driver = Driver::new(Method::Simpson, 2).unwrap();
    for _ in 0..10 {
        assert!(driver.method().admits(driver.coarse_splits()));
        assert!(driver.method().admits(driver.fine_splits()));
        driver = refined(driver.advance(false));
    }
    assert_eq!(driver.coarse_splits(), 2 * 4usize.pow(10));
}

#[test]
fn the_budget_ends_the_refinement() {
    let first = Driver::with_budget(Method::Trapezoid, 3, 2).unwrap();
    let second = refined(first.advance(false));
    assert_eq!(
        failed(second.advance(false)),
        Failure::Exhausted { budget: 2, splits: 48 }
    );
}

#[test]
fn agreement_in_the_last_round_of_the_budget_still_counts() {
    let first = Driver::with_budget(Method::Trapezoid, 3, 2).unwrap();
    let second = refined(first.advance(false));
    assert!(matches!(second.advance(true), Step::Converged { splits: 24 }));
}

#[test]
fn a_refusal_overflows_when_four_times_the_splits_cannot_be_counted() {
    let splits = usize::MAX / 4 + 1;
    let driver = Driver::new(Method::Trapezoid, splits).unwrap();
    assert_eq!(
        failed(driver.advance(false)),
        Failure::Overflow { splits: 2 * splits }
    );
}

#[test]
fn a_refusal_overflows_when_the_next_fine_count_cannot_be_counted() {
    let splits = usize::MAX / 8 + 1;
    let driver = Driver::new(Method::Trapezoid, splits).unwrap();
    assert_eq!(
        failed(driver.advance(false)),
        Failure::Overflow { splits: 4 * splits }
    );
}

#[test]
fn a_spent_budget_is_reported_before_the_next_round_overflows() {
    let splits = usize::MAX / 8 + 1;
    let driver = Driver::with_budget(Method::Trapezoid, splits, 1).unwrap();
    assert_eq!(
        failed(driver.advance(false)),
        Failure::Exhausted { budget: 1, splits: 4 * splits }
    );
}

#[test]
fn refusals_alone_end_in_a_failure_within_the_budget() {
    let budget = 7;
    let method = Method::Rectangle(RectangleMode::Left);
    let mut driver = Driver::with_budget(method, 1, budget).unwrap();
    let mut rounds = 0;
    let failure = loop {
        rounds += 1;
        assert!(rounds <= budget);
        match driver.advance(false) {
            Step::Refine(next) => driver = next,
            Step::Failed(failure) => break failure,
            Step::Converged { .. } => unreachable!(),
        }
    };
    assert_eq!(rounds, budget);
    assert_eq!(failure, Failure::Exhausted { budget: 7, splits: 4usize.pow(7) });
}
