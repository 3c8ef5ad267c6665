//! The rules over the real numbers: what each approximation is, exactly.

use vstd::prelude::*;
use crate::method::{Method, RectangleMode};

verus! {

/// The signed length of one of `splits` equal parts of the interval from
/// `start` to `end`. It is negative where `end` lies before `start`, and it
/// says nothing where there is no part at all.
pub open spec fn step_length(start: real, end: real, splits: nat) -> real {
    (end - start) / (splits as real)
}

/// The point `index` steps past `origin`.
pub open spec fn node(origin: real, step: real, index: int) -> real {
    origin + (index as real) * step
}

/// The sum of `f` over the nodes numbered from `low` up to, not including, `high`.
pub open spec fn sum_at_nodes(
    f: spec_fn(real) -> real,
    origin: real,
    step: real,
    low: int,
    high: int,
) -> real
    decreases high - low,
{
    if high <= low {
        0real
    } else {
        sum_at_nodes(f, origin, step, low, high - 1) + f(node(origin, step, high - 1))
    }
}

/// The sum of `f` over those nodes numbered from `low` up to, not including,
/// `high`, whose number leaves the remainder `parity` when divided by two.
pub open spec fn sum_at_parity(
    f: spec_fn(real) -> real,
    origin: real,
    step: real,
    parity: int,
    low: int,
    high: int,
) -> real
    decreases high - low,
{
    if high <= low {
        0real
    } else if (high - 1) % 2 == parity {
        sum_at_parity(f, origin, step, parity, low, high - 1) + f(node(origin, step, high - 1))
    } else {
        sum_at_parity(f, origin, step, parity, low, high - 1)
    }
}

/// The rectangle rule: the step times the sum of one sample from each subinterval.
pub open spec fn rectangle(
    f: spec_fn(real) -> real,
    start: real,
    end: real,
    splits: nat,
    mode: RectangleMode,
) -> real {
    let step = step_length(start, end, splits);
    let first = start + (mode.spec_half_steps() as real) * (step / 2real);
    step * sum_at_nodes(f, first, step, 0, splits as int)
}

/// The trapezoid rule: half the step times the sum of the values at the two
/// ends and twice the values at the points between them.
pub open spec fn trapezoid(f: spec_fn(real) -> real, start: real, end: real, splits: nat) -> real {
    let step = step_length(start, end, splits);
    step / 2real * (f(start) + f(end) + 2real * sum_at_nodes(f, start, step, 1, splits as int))
}

/// Simpson's rule: a third of the step times the sum of the values at the two
/// ends, four times those at the inner points of odd number and twice those at
/// the inner points of even number.
pub open spec fn simpson(f: spec_fn(real) -> real, start: real, end: real, splits: nat) -> real {
    let step = step_length(start, end, splits);
    step / 3real * (f(start) + 4real * sum_at_parity(f, start, step, 1, 1, splits as int) + 2real
        * sum_at_parity(f, start, step, 0, 1, splits as int) + f(end))
}

/// What `method` gives for the integral of `f` from `start` to `end` on `splits` subintervals.
pub open spec fn approximation(
    method: Method,
    f: spec_fn(real) -> real,
    start: real,
    end: real,
    splits: nat,
) -> real {
    match method {
        Method::Rectangle(mode) => rectangle(f, start, end, splits, mode),
        Method::Trapezoid => trapezoid(f, start, end, splits),
        Method::Simpson => simpson(f, start, end, splits),
    }
}

/// The Runge estimate of the error of `fine`, the approximation on twice the
/// subintervals of `coarse`: their difference over `2^k - 1`, with `k` the
/// order of the rule.
pub open spec fn runge_estimate(method: Method, fine: real, coarse: real) -> real {
    (fine - coarse) / (method.spec_runge_denominator() as real)
}

/// The point at which the sample numbered `index` is taken.
pub open spec fn sample_point(method: Method, start: real, step: real, index: nat) -> real {
    start + (index as real) * step + (method.spec_half_steps() as real) * (step / 2real)
}

/// The sum of the first `count` samples of `f`, each times its weight.
pub open spec fn weighted_sum(
    method: Method,
    f: spec_fn(real) -> real,
    start: real,
    step: real,
    splits: nat,
    count: nat,
) -> real
    decreases count,
{
    if count == 0 {
        0real
    } else {
        let index = (count - 1) as nat;
        weighted_sum(method, f, start, step, splits, index) + (method.spec_weight(
            splits,
            index,
        ) as real) * f(sample_point(method, start, step, index))
    }
}

/// The approximation as a caller computes it from the samples and weights
/// that `Method` hands out: the step over the rule's divisor, times the
/// weighted sum of all samples.
pub open spec fn weighted_approximation(
    method: Method,
    f: spec_fn(real) -> real,
    start: real,
    end: real,
    splits: nat,
) -> real {
    let step = step_length(start, end, splits);
    step / (method.spec_divisor() as real) * weighted_sum(
        method,
        f,
        start,
        step,
        splits,
        method.spec_sample_count(splits),
    )
}

/// The value at `x` of the line `a x + b`.
pub open spec fn line(a: real, b: real, x: real) -> real {
    a * x + b
}

/// The value at `x` of that antiderivative of `a x + b` which is zero at zero.
pub open spec fn line_primitive(a: real, b: real, x: real) -> real {
    a * (x * x) / 2real + b * x
}

/// The integral of `a x + b` from `start` to `end`.
pub open spec fn line_integral(a: real, b: real, start: real, end: real) -> real {
    line_primitive(a, b, end) - line_primitive(a, b, start)
}

/// The value at `x` of the parabola `a x^2 + b x + c`.
pub open spec fn quadratic(a: real, b: real, c: real, x: real) -> real {
    a * (x * x) + b * x + c
}

/// The value at `x` of that antiderivative of `a x^2 + b x + c` which is zero at zero.
pub open spec fn quadratic_primitive(a: real, b: real, c: real, x: real) -> real {
    a * (x * x * x) / 3real + b * (x * x) / 2real + c * x
}

/// The integral of `a x^2 + b x + c` from `start` to `end`.
pub open spec fn quadratic_integral(a: real, b: real, c: real, start: real, end: real) -> real {
    quadratic_primitive(a, b, c, end) - quadratic_primitive(a, b, c, start)
}

/// The value at `x` of the polynomial `a x^3 + b x^2 + c x + d`.
pub open spec fn cubic(a: real, b: real, c: real, d: real, x: real) -> real {
    a * (x * x * x) + b * (x * x) + c * x + d
}

/// The value at `x` of that antiderivative of `a x^3 + b x^2 + c x + d` which is zero at zero.
pub open spec fn cubic_primitive(a: real, b: real, c: real, d: real, x: real) -> real {
    a * (x * x * x * x) / 4real + b * (x * x * x) / 3real + c * (x * x) / 2real + d * x
}

/// The integral of `a x^3 + b x^2 + c x + d` from `start` to `end`.
pub open spec fn cubic_integral(
    a: real,
    b: real,
    c: real,
    d: real,
    start: real,
    end: real,
) -> real {
    cubic_primitive(a, b, c, d, end) - cubic_primitive(a, b, c, d, start)
}

/// The value at `x` of the polynomial `e x^4 + a x^3 + b x^2 + c x + d`.
pub open spec fn quartic(e: real, a: real, b: real, c: real, d: real, x: real) -> real {
    e * (x * x * x * x) + cubic(a, b, c, d, x)
}

/// The value at `x` of that antiderivative of `e x^4 + a x^3 + b x^2 + c x + d`
/// which is zero at zero.
pub open spec fn quartic_primitive(e: real, a: real, b: real, c: real, d: real, x: real) -> real {
    e * (x * x * x * x * x) / 5real + cubic_primitive(a, b, c, d, x)
}

/// The integral of `e x^4 + a x^3 + b x^2 + c x + d` from `start` to `end`.
pub open spec fn quartic_integral(
    e: real,
    a: real,
    b: real,
    c: real,
    d: real,
    start: real,
    end: real,
) -> real {
    quartic_primitive(e, a, b, c, d, end) - quartic_primitive(e, a, b, c, d, start)
}

} // verus!
