use quadrature::driver::Failure;
use quadrature::integrate::{integrate, integrate_within};
use quadrature::method::{Method, RectangleMode};
use quadrature::sampling::sum_samples;

const LEFT: Method = Method::Rectangle(RectangleMode::Left);
const CENTER: Method = Method::Rectangle(RectangleMode::Center);
const RIGHT: Method = Method::Rectangle(RectangleMode::Right);

/// The rule's approximation in double precision, from the samples and weights
/// that the library describes.
fn approximate(method: Method, f: fn(f64) -> f64, start: f64, end: f64, splits: usize) -> f64 {
    let step = (end - start) / splits as f64;
    let shift = step / 2.0 * method.half_steps() as f64;
    let sum = sum_samples(
        method,
        splits,
        0.0,
        |index| f(start + step * index as f64 + shift),
        |sum, weight, value| sum + weight as f64 * value,
    );
    step / method.divisor() as f64 * sum
}

fn estimate(method: Method, fine: f64, coarse: f64) -> f64 {
    (fine - coarse) / method.runge_denominator() as f64
}

/// Refines until the magnitude of the Runge estimate is below `epsilon`.
fn refine(
    method: Method,
    f: fn(f64) -> f64,
    start: f64,
    end: f64,
    initial_splits: usize,
    epsilon: f64,
) -> Result<(f64, usize), Failure> {
    integrate(
        method,
        initial_splits,
        |splits| approximate(method, f, start, end, splits),
        |coarse, fine| estimate(method, fine, coarse).abs() < epsilon,
    )
}

fn identity(x: f64) -> f64 {
    x
}

fn line(x: f64) -> f64 {
    3.0 * x + 2.0
}

fn cubic(x: f64) -> f64 {
    2.0 * x * x * x - 2.0 * x * x + 7.0 * x - 14.0
}

fn constant(_: f64) -> f64 {
    2.5
}

fn square(x: f64) -> f64 {
    x * x
}

fn fourth_power(x: f64) -> f64 {
    x * x * x * x
}

fn raised_sine(x: f64) -> f64 {
    x.sin() + 1.125
}

fn fast_wave(x: f64) -> f64 {
    (1000.0 * x).sin()
}

#[test]
fn samples_are_summed_in_order_with_their_weights() {
    let seen = std::cell::RefCell::new(Vec::new());
    let total = sum_samples(
        Method::Simpson,
        4,
        0u32,
        |index| index as u32,
        |sum, weight, value| {
            seen.borrow_mut().push((sum, weight, value));
            sum + weight as u32 * value
        },
    );
    // 1 * 0 + 4 * 1 + 2 * 2 + 4 * 3 + 1 * 4
    assert_eq!(total, 24);
    assert_eq!(
        seen.into_inner(),
        vec![(0, 1, 0), (0, 4, 1), (4, 2, 2), (8, 4, 3), (20, 1, 4)]
    );
}

#[test]
fn the_sum_starts_from_the_value_given() {
    let total = sum_samples(
        Method::Rectangle(RectangleMode::Right),
        3,
        100u32,
        |index| 10 * index as u32,
        |sum, weight, value| sum + weight as u32 * value,
    );
    assert_eq!(total, 130);
}

#[test]
fn simpson_on_two_splits_of_a_square() {
    // (1 / 3) * (0 + 4 * 1 + 4)
    assert_eq!(approximate(Method::Simpson, square, 0.0, 2.0, 2), 8.0 / 3.0);
}

#[test]
fn trapezoid_on_two_splits_of_a_square() {
    // (1 / 2) * (0 + 2 * 1 + 4)
    assert_eq!(approximate(Method::Trapezoid, square, 0.0, 2.0, 2), 3.0);
}

#[test]
fn rectangles_on_two_splits_of_a_square() {
    assert_eq!(approximate(LEFT, square, 0.0, 2.0, 2), 1.0);
    assert_eq!(approximate(CENTER, square, 0.0, 2.0, 2), 2.5);
    assert_eq!(approximate(RIGHT, square, 0.0, 2.0, 2), 5.0);
}

#[test]
fn trapezoid_and_center_rectangle_are_exact_on_a_line() {
    // The integral of 3 x + 2 from 1 to 4 is 28.5.
    for splits in [1usize, 2, 7, 100] {
        assert!((approximate(Method::Trapezoid, line, 1.0, 4.0, splits) - 28.5).abs() < 1e-12);
        assert!((approximate(CENTER, line, 1.0, 4.0, splits) - 28.5).abs() < 1e-12);
    }
}

#[test]
fn a_reversed_interval_changes_the_sign() {
    for method in [LEFT, CENTER, RIGHT, Method::Trapezoid, Method::Simpson] {
        let forward = approximate(method, constant, 1.0, 4.0, 6);
        let backward = approximate(method, constant, 4.0, 1.0, 6);
        assert_eq!(forward, 7.5);
        assert_eq!(backward, -7.5);
    }
    assert!((approximate(Method::Trapezoid, line, 4.0, 1.0, 7) + 28.5).abs() < 1e-12);
}

#[test]
fn simpson_is_exact_on_a_cubic() {
    // The integral of 2 x^3 - 2 x^2 + 7 x - 14 from -1 to 2 is -30.
    for splits in [2usize, 4, 6, 100] {
        assert!((approximate(Method::Simpson, cubic, -1.0, 2.0, splits) + 30.0).abs() < 1e-11);
    }
}

#[test]
fn every_rule_is_exact_on_a_constant() {
    for method in [LEFT, CENTER, RIGHT, Method::Trapezoid, Method::Simpson] {
        for splits in [2usize, 8, 64] {
            assert_eq!(approximate(method, constant, -3.0, 5.0, splits), 20.0);
        }
    }
}

#[test]
fn doubling_the_splits_shrinks_the_estimate_with_the_order() {
    for (method, factor) in [(Method::Trapezoid, 4.0), (CENTER, 4.0), (Method::Simpson, 16.0)] {
        let on = |splits: usize| approximate(method, f64::sin, 0.0, 1.0, splits);
        let coarse = estimate(method, on(16), on(8));
        let fine = estimate(method, on(32), on(16));
        let ratio = coarse / fine;
        assert!((ratio - factor).abs() < 0.03 * factor, "{:?}: {}", method, ratio);
    }
}

#[test]
fn on_a_parabola_the_estimate_of_a_rule_of_second_order_is_the_error() {
    for method in [Method::Trapezoid, CENTER] {
        let coarse = approximate(method, square, 0.0, 1.0, 4);
        let fine = approximate(method, square, 0.0, 1.0, 8);
        assert!((estimate(method, fine, coarse) - (1.0 / 3.0 - fine)).abs() < 1e-15);
    }
    assert_eq!(approximate(Method::Trapezoid, square, 0.0, 1.0, 4), 0.34375);
    assert_eq!(approximate(CENTER, square, 0.0, 1.0, 4), 0.328125);
}

#[test]
fn on_a_parabola_doubling_the_splits_quarters_the_estimate() {
    for method in [Method::Trapezoid, CENTER] {
        let on = |splits: usize| approximate(method, square, 0.0, 1.0, splits);
        assert_eq!(
            estimate(method, on(8), on(4)),
            4.0 * estimate(method, on(16), on(8))
        );
    }
}

#[test]
fn on_a_fourth_power_the_estimate_of_simpson_is_the_error() {
    let coarse = approximate(Method::Simpson, fourth_power, 0.0, 1.0, 2);
    let fine = approximate(Method::Simpson, fourth_power, 0.0, 1.0, 4);
    let finer = approximate(Method::Simpson, fourth_power, 0.0, 1.0, 8);
    let first = estimate(Method::Simpson, fine, coarse);
    let second = estimate(Method::Simpson, finer, fine);
    assert!((first - (0.2 - fine)).abs() < 1e-15);
    assert!((first - 16.0 * second).abs() < 1e-15);
}

#[test]
fn the_one_sided_rectangles_only_halve_the_estimate() {
    for method in [LEFT, RIGHT] {
        let on = |splits: usize| approximate(method, f64::sin, 0.0, 1.0, splits);
        let ratio = estimate(method, on(16), on(8)) / estimate(method, on(32), on(16));
        assert!((ratio - 2.0).abs() < 0.05, "{:?}: {}", method, ratio);
    }
}

#[test]
fn integration_gives_the_same_result_every_time() {
    let first = refine(Method::Simpson, raised_sine, 0.0, 3.0, 2, 1e-9);
    let second = refine(Method::Simpson, raised_sine, 0.0, 3.0, 2, 1e-9);
    assert!(first.is_ok());
    assert_eq!(first, second);
}

#[test]
fn a_line_converges_in_the_first_round_with_the_rules_that_are_exact_on_it() {
    assert_eq!(refine(Method::Trapezoid, identity, 0.0, 1.0, 1, 0.001), Ok((0.5, 2)));
    assert_eq!(refine(CENTER, identity, 0.0, 1.0, 1, 0.001), Ok((0.5, 2)));
}

#[test]
fn a_line_takes_the_one_sided_rectangles_five_rounds() {
    assert_eq!(refine(LEFT, identity, 0.0, 1.0, 1, 0.001), Ok((0.4990234375, 512)));
    assert_eq!(refine(RIGHT, identity, 0.0, 1.0, 1, 0.001), Ok((0.5009765625, 512)));
}

#[test]
fn a_signed_estimate_below_zero_ends_the_refinement_at_once() {
    let result = integrate(
        RIGHT,
        1,
        |splits| approximate(RIGHT, identity, 0.0, 1.0, splits),
        |coarse, fine| estimate(RIGHT, fine, coarse) < 0.001,
    );
    assert_eq!(result, Ok((0.75, 2)));
}

#[test]
fn simpson_refuses_an_odd_start() {
    assert_eq!(
        refine(Method::Simpson, identity, 0.0, 1.0, 1, 0.001),
        Err(Failure::OddSplits { splits: 1 })
    );
}

#[test]
fn no_rule_integrates_on_zero_splits() {
    assert_eq!(refine(Method::Trapezoid, identity, 0.0, 1.0, 0, 0.001), Err(Failure::NoSplits));
}

#[test]
fn simpson_integrates_a_raised_sine() {
    let (value, splits) = refine(
        Method::Simpson,
        raised_sine,
        0.0,
        std::f64::consts::PI,
        2,
        1e-6,
    )
    .unwrap();
    assert_eq!(splits, 64);
    assert!((value - (2.0 + 1.125 * std::f64::consts::PI)).abs() < 1e-6);
}

#[test]
fn a_wave_too_fast_for_the_samples_spends_the_budget() {
    let result = integrate_within(
        Method::Trapezoid,
        1,
        4,
        |splits| approximate(Method::Trapezoid, fast_wave, 0.0, 1.0, splits),
        |coarse, fine| estimate(Method::Trapezoid, fine, coarse).abs() < 1e-300,
    );
    assert_eq!(result, Err(Failure::Exhausted { budget: 4, splits: 256 }));
}

#[test]
fn approximations_that_never_agree_end_in_a_failure() {
    let mut rounds = std::cell::Cell::new(0usize);
    let result = integrate(
        Method::Simpson,
        2,
        |splits| splits,
        |_, _| {
            rounds.set(rounds.get() + 1);
            false
        },
    );
    let reached = match result {
        Err(Failure::Overflow { splits }) => splits,
        other => panic!("an overflow was due, not {:?}", other),
    };
    assert!(reached > usize::MAX / 2);
    assert!(*rounds.get_mut() <= 100_000);
}

#[test]
fn the_rounds_see_four_times_the_splits_each() {
    let seen = std::cell::RefCell::new(Vec::new());
    let result = integrate_within(
        Method::Trapezoid,
        3,
        10,
        |splits| {
            seen.borrow_mut().push(splits);
            splits
        },
        |coarse, _| coarse >= 48,
    );
    assert_eq!(result, Ok((96, 96)));
    assert_eq!(seen.into_inner(), vec![3, 6, 12, 24, 48, 96]);
}
