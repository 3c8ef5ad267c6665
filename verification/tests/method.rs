use quadrature::method::{Method, RectangleMode};

const METHODS: [Method; 5] = [
    Method::Rectangle(RectangleMode::Left),
    Method::Rectangle(RectangleMode::Center),
    Method::Rectangle(RectangleMode::Right),
    Method::Trapezoid,
    Method::Simpson,
];

fn weights(method: Method, splits: usize) -> Vec<u8> {
    (0..method.sample_count(splits))
        .map(|index| method.weight(splits, index))
        .collect()
}

#[test]
fn rectangle_and_trapezoid_are_of_order_two() {
    assert_eq!(Method::Rectangle(RectangleMode::Left).order(), 2);
    assert_eq!(Method::Rectangle(RectangleMode::Center).order(), 2);
    assert_eq!(Method::Rectangle(RectangleMode::Right).order(), 2);
    assert_eq!(Method::Trapezoid.order(), 2);
}

#[test]
fn simpson_is_of_order_four() {
    assert_eq!(Method::Simpson.order(), 4);
}

#[test]
fn runge_denominator_is_two_to_the_order_less_one() {
    for method in METHODS {
        assert_eq!(method.runge_denominator(), 2u32.pow(method.order()) - 1);
    }
    assert_eq!(Method::Trapezoid.runge_denominator(), 3);
    assert_eq!(Method::Simpson.runge_denominator(), 15);
}

#[test]
fn divisors_are_one_two_and_three() {
    assert_eq!(Method::Rectangle(RectangleMode::Center).divisor(), 1);
    assert_eq!(Method::Trapezoid.divisor(), 2);
    assert_eq!(Method::Simpson.divisor(), 3);
}

#[test]
fn only_the_rectangle_rule_shifts_its_samples() {
    assert_eq!(RectangleMode::Left.half_steps(), 0);
    assert_eq!(RectangleMode::Center.half_steps(), 1);
    assert_eq!(RectangleMode::Right.half_steps(), 2);
    assert_eq!(Method::Rectangle(RectangleMode::Left).half_steps(), 0);
    assert_eq!(Method::Rectangle(RectangleMode::Center).half_steps(), 1);
    assert_eq!(Method::Rectangle(RectangleMode::Right).half_steps(), 2);
    assert_eq!(Method::Trapezoid.half_steps(), 0);
    assert_eq!(Method::Simpson.half_steps(), 0);
}

#[test]
fn rectangle_takes_one_sample_for_each_split() {
    assert_eq!(Method::Rectangle(RectangleMode::Left).sample_count(1), 1);
    assert_eq!(Method::Rectangle(RectangleMode::Right).sample_count(8), 8);
}

#[test]
fn trapezoid_and_simpson_sample_every_bound() {
    assert_eq!(Method::Trapezoid.sample_count(1), 2);
    assert_eq!(Method::Trapezoid.sample_count(8), 9);
    assert_eq!(Method::Simpson.sample_count(2), 3);
    assert_eq!(Method::Simpson.sample_count(8), 9);
}

#[test]
fn rectangle_weighs_every_sample_once() {
    assert_eq!(weights(Method::Rectangle(RectangleMode::Left), 4), vec![1, 1, 1, 1]);
    assert_eq!(weights(Method::Rectangle(RectangleMode::Center), 1), vec![1]);
    assert_eq!(weights(Method::Rectangle(RectangleMode::Right), 3), vec![1, 1, 1]);
}

#[test]
fn trapezoid_weighs_the_ends_once_and_the_rest_twice() {
    assert_eq!(weights(Method::Trapezoid, 1), vec![1, 1]);
    assert_eq!(weights(Method::Trapezoid, 2), vec![1, 2, 1]);
    assert_eq!(weights(Method::Trapezoid, 5), vec![1, 2, 2, 2, 2, 1]);
}

#[test]
fn simpson_weighs_by_parity() {
    assert_eq!(weights(Method::Simpson, 2), vec![1, 4, 1]);
    assert_eq!(weights(Method::Simpson, 4), vec![1, 4, 2, 4, 1]);
    assert_eq!(weights(Method::Simpson, 6), vec![1, 4, 2, 4, 2, 4, 1]);
}

#[test]
fn weights_add_up_to_the_divisor_times_the_splits() {
    for method in METHODS {
        for splits in [2usize, 4, 10, 64] {
            let total: usize = weights(method, splits).iter().map(|&weight| weight as usize).sum();
            assert_eq!(total, method.divisor() as usize * splits);
        }
    }
}

#[test]
fn no_rule_admits_zero_splits() {
    for method in METHODS {
        assert!(!method.admits(0));
    }
}

#[test]
fn simpson_admits_even_splits_only() {
    assert!(!Method::Simpson.admits(1));
    assert!(Method::Simpson.admits(2));
    assert!(!Method::Simpson.admits(5));
    assert!(Method::Simpson.admits(100));
    assert!(!Method::Simpson.admits(usize::MAX));
}

#[test]
fn the_other_rules_admit_every_positive_split_count() {
    for method in [
        Method::Rectangle(RectangleMode::Left),
        Method::Rectangle(RectangleMode::Center),
        Method::Rectangle(RectangleMode::Right),
        Method::Trapezoid,
    ] {
        assert!(method.admits(1));
        assert!(method.admits(5));
        assert!(method.admits(usize::MAX));
    }
}
