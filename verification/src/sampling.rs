//! The weighted sum of a rule's samples: how it is gathered, and that the
//! weights and sample points that `Method` hands out add up to the rules.

use vstd::prelude::*;
use crate::algebra::{lemma_commutes, lemma_congruent, lemma_over, lemma_same_product};
use crate::method::{Method, RectangleMode};
use crate::model::{
    approximation,
    node,
    sample_point,
    step_length,
    sum_at_nodes,
    sum_at_parity,
    weighted_approximation,
    weighted_sum,
};
use crate::telescoping::{lemma_first_node, lemma_last_node};

verus! {

/// Whether the first `count` samples of `method` can add up to `total`, with
/// `sample` to take the sample of a given number and `accumulate` to add a
/// weighted sample to a sum that starts at `zero`.
pub open spec fn samples_add_up_to<T, S: Fn(usize) -> T, F: Fn(T, u8, T) -> T>(
    method: Method,
    splits: nat,
    sample: S,
    accumulate: F,
    zero: T,
    count: nat,
    total: T,
) -> bool
    decreases count,
{
    if count == 0 {
        total == zero
    } else {
        let index = (count - 1) as nat;
        exists|before: T, value: T|
            {
                &&& samples_add_up_to(method, splits, sample, accumulate, zero, index, before)
                &&& call_ensures(sample, (index as usize,), value)
                &&& #[trigger] call_ensures(
                    accumulate,
                    (before, method.spec_weight(splits, index) as u8, value),
                    total,
                )
            }
    }
}

/// Takes every sample of `method` on `splits` subintervals, in the order of
/// their numbers, and adds each with its weight to a sum that starts at `zero`.
///
/// `sample` returns the integrand's value at the sample of a given number;
/// `accumulate` takes the sum so far, a weight and a value, and returns the sum with
/// the weight times the value added.
pub fn sum_samples<T: Copy, S: Fn(usize) -> T, F: Fn(T, u8, T) -> T>(
    method: Method,
    splits: usize,
    zero: T,
    sample: S,
    accumulate: F,
) -> (total: T)
    requires
        splits < usize::MAX,
        forall|index: usize|
            index < method.spec_sample_count(splits as nat) ==> call_requires(sample, (index,)),
        forall|sum: T, weight: u8, value: T| call_requires(accumulate, (sum, weight, value)),
    ensures
        samples_add_up_to(
            method,
            splits as nat,
            sample,
            accumulate,
            zero,
            method.spec_sample_count(splits as nat),
            total,
        ),
{
    let count = method.sample_count(splits);
    let mut total = zero;
    let mut index: usize = 0;
    while index < count
        invariant
            index <= count,
            count == method.spec_sample_count(splits as nat),
            forall|index: usize| index < count ==> call_requires(sample, (index,)),
            forall|sum: T, weight: u8, value: T| call_requires(accumulate, (sum, weight, value)),
            samples_add_up_to(method, splits as nat, sample, accumulate, zero, index as nat, total),
        decreases count - index,
    {
        let value = sample(index);
        let weight = method.weight(splits, index);
        let longer = accumulate(total, weight, value);
        proof {
            let last = ((index + 1) - 1) as nat;
            assert(last as usize == index);
            assert(method.spec_weight(splits as nat, last) as u8 == weight);
            assert(samples_add_up_to(method, splits as nat, sample, accumulate, zero, last, total));
            assert(call_ensures(sample, (last as usize,), value));
            assert(call_ensures(
                accumulate,
                (total, method.spec_weight(splits as nat, last) as u8, value),
                longer,
            ));
            assert(samples_add_up_to(
                method,
                splits as nat,
                sample,
                accumulate,
                zero,
                (index + 1) as nat,
                longer,
            ));
        }
        total = longer;
        index += 1;
    }
    total
}

/// A weight times a value, for each weight that a rule uses.
proof fn lemma_weighs(weight: nat, t: real)
    ensures
        weight == 0 ==> (weight as real) * t == 0real,
        weight == 1 ==> (weight as real) * t == t,
        weight == 2 ==> (weight as real) * t == 2real * t,
        weight == 4 ==> (weight as real) * t == 4real * t,
{
    if weight == 0 {
        lemma_congruent(t, weight as real, 0real);
    } else if weight == 1 {
        lemma_congruent(t, weight as real, 1real);
    } else if weight == 2 {
        lemma_congruent(t, weight as real, 2real);
    } else if weight == 4 {
        lemma_congruent(t, weight as real, 4real);
    }
    lemma_commutes(t, weight as real);
}

/// The sample numbered `index` is taken at the node of that number, counted
/// from the first sample.
proof fn lemma_sample_is_node(method: Method, start: real, step: real, index: nat)
    ensures
        sample_point(method, start, step, index) == node(
            start + (method.spec_half_steps() as real) * (step / 2real),
            step,
            index as int,
        ),
{
    lemma_congruent(step, index as real, (index as int) as real);
    lemma_commutes(step, index as real);
    lemma_commutes(step, (index as int) as real);
}

/// The rectangle rule's first `count` samples, weighted, are their plain sum.
proof fn lemma_rectangle_weighted(
    mode: RectangleMode,
    f: spec_fn(real) -> real,
    start: real,
    step: real,
    splits: nat,
    count: nat,
)
    ensures
        weighted_sum(Method::Rectangle(mode), f, start, step, splits, count) == sum_at_nodes(
            f,
            start + (mode.spec_half_steps() as real) * (step / 2real),
            step,
            0,
            count as int,
        ),
    decreases count,
{
    let method = Method::Rectangle(mode);
    if count > 0 {
        let index = (count - 1) as nat;
        lemma_rectangle_weighted(mode, f, start, step, splits, index);
        lemma_sample_is_node(method, start, step, index);
        lemma_weighs(
            method.spec_weight(splits, index),
            f(sample_point(method, start, step, index)),
        );
    }
}

/// The samples of a rule that starts at the start of the interval lie on the
/// nodes counted from there.
proof fn lemma_sample_on_grid(method: Method, start: real, step: real, index: nat)
    requires
        method.spec_half_steps() == 0,
    ensures
        sample_point(method, start, step, index) == node(start, step, index as int),
{
    lemma_sample_is_node(method, start, step, index);
    lemma_weighs(method.spec_half_steps(), step / 2real);
}

/// The trapezoid rule's first `count` samples, weighted: the first once and
/// the others twice, as long as the last sample is not among them.
proof fn lemma_trapezoid_weighted(
    f: spec_fn(real) -> real,
    start: real,
    step: real,
    splits: nat,
    count: nat,
)
    requires
        1 <= count <= splits,
    ensures
        weighted_sum(Method::Trapezoid, f, start, step, splits, count) == f(node(start, step, 0))
            + 2real * sum_at_nodes(f, start, step, 1, count as int),
    decreases count,
{
    let method = Method::Trapezoid;
    let index = (count - 1) as nat;
    let value = f(sample_point(method, start, step, index));
    lemma_sample_on_grid(method, start, step, index);
    if count == 1 {
        assert(weighted_sum(method, f, start, step, splits, 0) == 0real);
        assert(sum_at_nodes(f, start, step, 1, 1) == 0real);
        lemma_weighs(method.spec_weight(splits, index), value);
    } else {
        lemma_trapezoid_weighted(f, start, step, splits, index);
        lemma_weighs(method.spec_weight(splits, index), value);
    }
}

/// Simpson's rule's first `count` samples, weighted: the first once, those of
/// odd number four times and the others twice, as long as the last sample is
/// not among them.
proof fn lemma_simpson_weighted(
    f: spec_fn(real) -> real,
    start: real,
    step: real,
    splits: nat,
    count: nat,
)
    requires
        1 <= count <= splits,
    ensures
        weighted_sum(Method::Simpson, f, start, step, splits, count) == f(node(start, step, 0))
            + 4real * sum_at_parity(f, start, step, 1, 1, count as int) + 2real * sum_at_parity(
            f,
            start,
            step,
            0,
            1,
            count as int,
        ),
    decreases count,
{
    let method = Method::Simpson;
    let index = (count - 1) as nat;
    let value = f(sample_point(method, start, step, index));
    lemma_sample_on_grid(method, start, step, index);
    if count == 1 {
        assert(weighted_sum(method, f, start, step, splits, 0) == 0real);
        assert(sum_at_parity(f, start, step, 1, 1, 1) == 0real);
        assert(sum_at_parity(f, start, step, 0, 1, 1) == 0real);
        lemma_weighs(method.spec_weight(splits, index), value);
    } else {
        lemma_simpson_weighted(f, start, step, splits, index);
        if index % 2 == 1 {
            lemma_weighs(method.spec_weight(splits, index), value);
        } else {
            lemma_weighs(method.spec_weight(splits, index), value);
        }
    }
}

/// The step over the rule's divisor, times the sum of the samples that
/// `Method` describes, each times its weight, is the rule's approximation.
///
/// A caller who takes `sample_count` samples, the one numbered `i` at `i`
/// steps and `half_steps` half steps past the start, and weighs each with
/// `weight`, computes in exact arithmetic what the rule defines.
pub proof fn lemma_weighted_sum_is_the_rule(
    method: Method,
    f: spec_fn(real) -> real,
    start: real,
    end: real,
    splits: nat,
)
    requires
        method.spec_admits(splits),
    ensures
        weighted_approximation(method, f, start, end, splits) == approximation(
            method,
            f,
            start,
            end,
            splits,
        ),
{
    let step = step_length(start, end, splits);
    let count = method.spec_sample_count(splits);
    let sum = weighted_sum(method, f, start, step, splits, count);
    let last = f(sample_point(method, start, step, splits));
    lemma_first_node(start, step);
    lemma_last_node(start, end, splits);
    if !(method is Rectangle) {
        assert(sum == weighted_sum(method, f, start, step, splits, splits) + (method.spec_weight(
            splits,
            splits,
        ) as real) * last);
    }
    match method {
        Method::Rectangle(mode) => {
            lemma_rectangle_weighted(mode, f, start, step, splits, splits);
            lemma_over(step, method.spec_divisor(), 1real);
            assert(step / 1real == step);
            lemma_same_product(
                step / (method.spec_divisor() as real),
                step,
                sum,
                sum_at_nodes(
                    f,
                    start + (mode.spec_half_steps() as real) * (step / 2real),
                    step,
                    0,
                    splits as int,
                ),
            );
        },
        Method::Trapezoid => {
            lemma_trapezoid_weighted(f, start, step, splits, splits);
            lemma_sample_on_grid(method, start, step, splits);
            lemma_weighs(method.spec_weight(splits, splits), last);
            lemma_over(step, method.spec_divisor(), 2real);
            lemma_same_product(
                step / (method.spec_divisor() as real),
                step / 2real,
                sum,
                f(start) + f(end) + 2real * sum_at_nodes(f, start, step, 1, splits as int),
            );
        },
        Method::Simpson => {
            lemma_simpson_weighted(f, start, step, splits, splits);
            lemma_sample_on_grid(method, start, step, splits);
            lemma_weighs(method.spec_weight(splits, splits), last);
            lemma_over(step, method.spec_divisor(), 3real);
            lemma_same_product(
                step / (method.spec_divisor() as real),
                step / 3real,
                sum,
                f(start) + 4real * sum_at_parity(f, start, step, 1, 1, splits as int) + 2real
                    * sum_at_parity(f, start, step, 0, 1, splits as int) + f(end),
            );
        },
    }
}

/// Where `sample` and `accumulate` compute without rounding, `sum_samples` gives the
/// weighted sum of the rule.
///
/// `value_of` says which real number a value of the caller's type stands for.
/// What is asked of `sample` is the value of `f` at the sample point, and of
/// `accumulate` the sum so far plus the weight times the value.
pub proof fn lemma_exact_arithmetic_adds_up<T, S: Fn(usize) -> T, F: Fn(T, u8, T) -> T>(
    method: Method,
    f: spec_fn(real) -> real,
    start: real,
    step: real,
    splits: nat,
    sample: S,
    accumulate: F,
    zero: T,
    count: nat,
    total: T,
    value_of: spec_fn(T) -> real,
)
    requires
        count <= usize::MAX,
        value_of(zero) == 0real,
        forall|index: usize, value: T| #[trigger]
            call_ensures(sample, (index,), value) ==> value_of(value) == f(
                sample_point(method, start, step, index as nat),
            ),
        forall|sum: T, weight: u8, value: T, total: T| #[trigger]
            call_ensures(accumulate, (sum, weight, value), total) ==> value_of(total) == value_of(sum) + (
            weight as real) * value_of(value),
        samples_add_up_to(method, splits, sample, accumulate, zero, count, total),
    ensures
        value_of(total) == weighted_sum(method, f, start, step, splits, count),
    decreases count,
{
    if count > 0 {
        let index = (count - 1) as nat;
        let (before, value) = choose|before: T, value: T|
            {
                &&& samples_add_up_to(method, splits, sample, accumulate, zero, index, before)
                &&& call_ensures(sample, (index as usize,), value)
                &&& #[trigger] call_ensures(
                    accumulate,
                    (before, method.spec_weight(splits, index) as u8, value),
                    total,
                )
            };
        lemma_exact_arithmetic_adds_up(
            method,
            f,
            start,
            step,
            splits,
            sample,
            accumulate,
            zero,
            index,
            before,
            value_of,
        );
        let weight = method.spec_weight(splits, index);
        lemma_same_product(
            (weight as u8) as real,
            weight as real,
            value_of(value),
            f(sample_point(method, start, step, index)),
        );
    }
}

/// Where `sample` and `accumulate` compute without rounding, the step over
/// the rule's divisor, times what `sum_samples` returns, is the rule's
/// approximation.
pub proof fn lemma_exact_arithmetic_gives_the_rule<T, S: Fn(usize) -> T, F: Fn(T, u8, T) -> T>(
    method: Method,
    f: spec_fn(real) -> real,
    start: real,
    end: real,
    splits: usize,
    sample: S,
    accumulate: F,
    zero: T,
    total: T,
    value_of: spec_fn(T) -> real,
)
    requires
        method.spec_admits(splits as nat),
        splits < usize::MAX,
        value_of(zero) == 0real,
        forall|index: usize, value: T| #[trigger]
            call_ensures(sample, (index,), value) ==> value_of(value) == f(
                sample_point(
                    method,
                    start,
                    step_length(start, end, splits as nat),
                    index as nat,
                ),
            ),
        forall|sum: T, weight: u8, value: T, total: T| #[trigger]
            call_ensures(accumulate, (sum, weight, value), total) ==> value_of(total) == value_of(
                sum,
            ) + (weight as real) * value_of(value),
        samples_add_up_to(
            method,
            splits as nat,
            sample,
            accumulate,
            zero,
            method.spec_sample_count(splits as nat),
            total,
        ),
    ensures
        step_length(start, end, splits as nat) / (method.spec_divisor() as real) * value_of(total)
            == approximation(method, f, start, end, splits as nat),
{
    let step = step_length(start, end, splits as nat);
    let count = method.spec_sample_count(splits as nat);
    lemma_exact_arithmetic_adds_up(
        method,
        f,
        start,
        step,
        splits as nat,
        sample,
        accumulate,
        zero,
        count,
        total,
        value_of,
    );
    lemma_weighted_sum_is_the_rule(method, f, start, end, splits as nat);
    lemma_congruent(
        step / (method.spec_divisor() as real),
        value_of(total),
        weighted_sum(method, f, start, step, splits as nat, count),
    );
}

} // verus!
