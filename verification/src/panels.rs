//! Each rule on a single step, or on a pair of steps, taken of a polynomial:
//! what it gives, set against what the polynomial's primitive gains there.

use vstd::prelude::*;
use crate::algebra::{
    lemma_commutes,
    lemma_congruent,
    lemma_difference,
    lemma_distributes,
    lemma_distributes3,
    lemma_distributes4,
    lemma_fourth_power_is_a_square,
    lemma_half,
    lemma_same_fourth_power,
    lemma_same_product,
    lemma_scaled_combination,
    lemma_scaled_difference,
    lemma_squares_around,
    lemma_swaps,
    lemma_third,
};
use crate::model::{
    cubic,
    cubic_primitive,
    line,
    line_primitive,
    quadratic,
    quadratic_primitive,
    quartic,
    quartic_primitive,
};

verus! {

/// `k` times a line, coefficient by coefficient.
pub proof fn lemma_scaled_line(k: real, a: real, b: real, x: real)
    ensures
        k * line(a, b, x) == a * (k * x) + b * k,
{
    lemma_congruent(k, line(a, b, x), a * x + b);
    lemma_distributes(k, a * x, b);
    lemma_swaps(k, a, x);
}

/// `k` times a parabola, coefficient by coefficient.
pub proof fn lemma_scaled_quadratic(k: real, a: real, b: real, c: real, x: real)
    ensures
        k * quadratic(a, b, c, x) == a * (k * (x * x)) + b * (k * x) + c * k,
{
    lemma_congruent(k, quadratic(a, b, c, x), a * (x * x) + b * x + c);
    lemma_distributes3(k, a * (x * x), b * x, c);
    lemma_swaps(k, a, x * x);
    lemma_swaps(k, b, x);
    lemma_commutes(k, c);
}

/// `k` times a cubic, coefficient by coefficient.
pub proof fn lemma_scaled_cubic(k: real, a: real, b: real, c: real, d: real, x: real)
    ensures
        k * cubic(a, b, c, d, x) == a * (k * (x * x * x)) + b * (k * (x * x)) + c * (k * x) + d * k,
{
    lemma_congruent(k, cubic(a, b, c, d, x), a * (x * x * x) + b * (x * x) + c * x + d);
    lemma_distributes4(k, a * (x * x * x), b * (x * x), c * x, d);
    lemma_swaps(k, a, x * x * x);
    lemma_swaps(k, b, x * x);
    lemma_swaps(k, c, x);
}

/// What the primitive of a line gains over one step of length `h` from `u` on.
proof fn lemma_line_gain(a: real, b: real, u: real, h: real)
    ensures
        line_primitive(a, b, u + h) - line_primitive(a, b, u) == a * (u * h) + a * (h * h) / 2real
            + b * h,
{
    let v = u + h;
    lemma_squares_around(u, h);
    lemma_difference(a, v * v, u * u);
    lemma_congruent(a, v * v - u * u, 2real * (u * h) + h * h);
    lemma_distributes(a, 2real * (u * h), h * h);
    lemma_swaps(a, 2real, u * h);
    lemma_distributes(b, u, h);
}

/// The trapezoid rule on one step of length `h` from `u` on is exact on a line.
pub proof fn lemma_trapezoid_panel(a: real, b: real, u: real, h: real)
    ensures
        h / 2real * (line(a, b, u) + line(a, b, u + h)) == line_primitive(a, b, u + h)
            - line_primitive(a, b, u),
{
    let k = h / 2real;
    let v = u + h;
    lemma_distributes(k, line(a, b, u), line(a, b, v));
    lemma_scaled_line(k, a, b, u);
    lemma_scaled_line(k, a, b, v);
    lemma_line_gain(a, b, u, h);
    // Twice the sum of k * u and k * v is h * (u + v), which is 2 u h + h h.
    let sum = k * u + k * v;
    assert(2real * sum == 2real * (u * h) + h * h) by {
        lemma_distributes(k, u, v);
        lemma_half(h, u + v);
        lemma_congruent(h, u + v, u + u + h);
        lemma_distributes3(h, u, u, h);
    }
    assert(2real * (a * sum) == 2real * (a * (u * h)) + a * (h * h)) by {
        lemma_swaps(a, 2real, sum);
        lemma_congruent(a, 2real * sum, 2real * (u * h) + h * h);
        lemma_distributes(a, 2real * (u * h), h * h);
        lemma_swaps(a, 2real, u * h);
    }
    assert(a * sum == a * (k * u) + a * (k * v)) by {
        lemma_distributes(a, k * u, k * v);
    }
    assert(b * k == (b * h) / 2real) by {
        lemma_half(h, b);
    }
}

/// The rectangle on one step of length `h` from `u` on, sampled halfway, is
/// exact on a line.
pub proof fn lemma_center_panel(a: real, b: real, u: real, h: real)
    ensures
        h * line(a, b, u + h / 2real) == line_primitive(a, b, u + h) - line_primitive(a, b, u),
{
    let m = u + h / 2real;
    lemma_scaled_line(h, a, b, m);
    lemma_line_gain(a, b, u, h);
    assert(2real * (h * m) == 2real * (u * h) + h * h) by {
        lemma_congruent(h, m, u + h / 2real);
        lemma_distributes(h, u, h / 2real);
        lemma_half(h, h);
        lemma_commutes(h, u);
    }
    assert(2real * (a * (h * m)) == 2real * (a * (u * h)) + a * (h * h)) by {
        lemma_swaps(a, 2real, h * m);
        lemma_congruent(a, 2real * (h * m), 2real * (u * h) + h * h);
        lemma_distributes(a, 2real * (u * h), h * h);
        lemma_swaps(a, 2real, u * h);
    }
}

/// Simpson's rule on two steps, taken of `x`.
proof fn lemma_simpson_first_power(u: real, h: real)
    ensures
        2real * (h * (u + 4real * (u + h) + (u + 2real * h))) == 3real * ((u + 2real * h) * (u
            + 2real * h) - u * u),
{
    assert(2real * (h * (u + 4real * (u + h) + (u + 2real * h))) == 3real * ((u + 2real * h) * (u
        + 2real * h) - u * u)) by (nonlinear_arith);
}

/// Simpson's rule on two steps, taken of `x^2`.
proof fn lemma_simpson_second_power(u: real, h: real)
    ensures
        h * (u * u + 4real * ((u + h) * (u + h)) + (u + 2real * h) * (u + 2real * h)) == (u + 2real
            * h) * (u + 2real * h) * (u + 2real * h) - u * u * u,
{
    assert(h * (u * u + 4real * ((u + h) * (u + h)) + (u + 2real * h) * (u + 2real * h)) == (u
        + 2real * h) * (u + 2real * h) * (u + 2real * h) - u * u * u) by (nonlinear_arith);
}

/// Simpson's rule on two steps, taken of `x^3`.
proof fn lemma_simpson_third_power(u: real, h: real)
    ensures
        4real * (h * (u * u * u + 4real * ((u + h) * (u + h) * (u + h)) + (u + 2real * h) * (u
            + 2real * h) * (u + 2real * h))) == 3real * ((u + 2real * h) * (u + 2real * h) * (u
            + 2real * h) * (u + 2real * h) - u * u * u * u),
{
    assert(4real * (h * (u * u * u + 4real * ((u + h) * (u + h) * (u + h)) + (u + 2real * h) * (u
        + 2real * h) * (u + 2real * h))) == 3real * ((u + 2real * h) * (u + 2real * h) * (u + 2real
        * h) * (u + 2real * h) - u * u * u * u)) by (nonlinear_arith);
}

/// A third of the step `h`, times the sum of `p`, four times `q` and `r`:
/// the three terms apart, and the whole as a third of `h` times the sum.
pub proof fn lemma_simpson_weights(h: real, p: real, q: real, r: real)
    ensures
        h / 3real * p + 4real * (h / 3real * q) + h / 3real * r == (h * (p + 4real * q + r))
            / 3real,
        h / 3real * (p + 4real * q + r) == (h * (p + 4real * q + r)) / 3real,
{
    let k = h / 3real;
    lemma_distributes3(k, p, 4real * q, r);
    lemma_swaps(k, 4real, q);
    lemma_third(h, p + 4real * q + r);
}

/// Simpson's rule on two steps of length `h` from `u` on is exact on a cubic.
pub proof fn lemma_simpson_panel(a: real, b: real, c: real, d: real, u: real, h: real)
    ensures
        h / 3real * (cubic(a, b, c, d, u) + 4real * cubic(a, b, c, d, u + h) + cubic(
            a,
            b,
            c,
            d,
            u + 2real * h,
        )) == cubic_primitive(a, b, c, d, u + 2real * h) - cubic_primitive(a, b, c, d, u),
{
    let k = h / 3real;
    let v = u + h;
    let w = u + 2real * h;
    let fu = cubic(a, b, c, d, u);
    let fv = cubic(a, b, c, d, v);
    let fw = cubic(a, b, c, d, w);
    // The weighted sum, term by term, then coefficient by coefficient.
    lemma_distributes3(k, fu, 4real * fv, fw);
    lemma_swaps(k, 4real, fv);
    lemma_scaled_cubic(k, a, b, c, d, u);
    lemma_scaled_cubic(k, a, b, c, d, v);
    lemma_scaled_cubic(k, a, b, c, d, w);
    let q3 = k * (u * u * u) + 4real * (k * (v * v * v)) + k * (w * w * w);
    let q2 = k * (u * u) + 4real * (k * (v * v)) + k * (w * w);
    let q1 = k * u + 4real * (k * v) + k * w;
    assert(a * q3 == a * (k * (u * u * u)) + 4real * (a * (k * (v * v * v))) + a * (k * (w * w
        * w))) by {
        lemma_distributes3(a, k * (u * u * u), 4real * (k * (v * v * v)), k * (w * w * w));
        lemma_swaps(a, 4real, k * (v * v * v));
    }
    assert(b * q2 == b * (k * (u * u)) + 4real * (b * (k * (v * v))) + b * (k * (w * w))) by {
        lemma_distributes3(b, k * (u * u), 4real * (k * (v * v)), k * (w * w));
        lemma_swaps(b, 4real, k * (v * v));
    }
    assert(c * q1 == c * (k * u) + 4real * (c * (k * v)) + c * (k * w)) by {
        lemma_distributes3(c, k * u, 4real * (k * v), k * w);
        lemma_swaps(c, 4real, k * v);
    }
    assert(k * (fu + 4real * fv + fw) == a * q3 + b * q2 + c * q1 + 6real * (d * k));
    // Each power apart.
    assert(q3 == (w * w * w * w) / 4real - (u * u * u * u) / 4real) by {
        lemma_simpson_weights(h, u * u * u, v * v * v, w * w * w);
        lemma_simpson_third_power(u, h);
    }
    assert(q2 == (w * w * w) / 3real - (u * u * u) / 3real) by {
        lemma_simpson_weights(h, u * u, v * v, w * w);
        lemma_simpson_second_power(u, h);
    }
    assert(q1 == (w * w) / 2real - (u * u) / 2real) by {
        lemma_simpson_weights(h, u, v, w);
        lemma_simpson_first_power(u, h);
    }
    lemma_scaled_difference(a, 4real, q3, w * w * w * w, u * u * u * u);
    lemma_scaled_difference(b, 3real, q2, w * w * w, u * u * u);
    lemma_scaled_difference(c, 2real, q1, w * w, u * u);
    assert(6real * (d * k) == d * w - d * u) by {
        lemma_third(h, d);
        lemma_distributes(d, u, 2real * h);
        lemma_swaps(d, 2real, h);
    }
}

/// The trapezoid rule on one step, taken of `x`.
proof fn lemma_trapezoid_first_power(u: real, h: real)
    ensures
        h * (u + (u + h)) == (u + h) * (u + h) - u * u,
{
    assert(h * (u + (u + h)) == (u + h) * (u + h) - u * u) by (nonlinear_arith);
}

/// The trapezoid rule on one step, taken of `x^2`: beyond the integral by a
/// sixth of `h^3`.
proof fn lemma_trapezoid_second_power(u: real, h: real)
    ensures
        6real * (h * (u * u + (u + h) * (u + h))) == 4real * ((u + h) * (u + h) * (u + h)) - 4real
            * (u * u * u) + 2real * (h * h * h),
{
    assert(6real * (h * (u * u + (u + h) * (u + h))) == 4real * ((u + h) * (u + h) * (u + h))
        - 4real * (u * u * u) + 2real * (h * h * h)) by (nonlinear_arith);
}

/// The trapezoid rule on one step of length `h` from `u` on, taken of a
/// parabola, exceeds the integral by a sixth of `a h^3`.
pub proof fn lemma_trapezoid_panel_of_quadratic(a: real, b: real, c: real, u: real, h: real)
    ensures
        h / 2real * (quadratic(a, b, c, u) + quadratic(a, b, c, u + h)) == quadratic_primitive(
            a,
            b,
            c,
            u + h,
        ) - quadratic_primitive(a, b, c, u) + a * (h * h * h) / 6real,
{
    let k = h / 2real;
    let v = u + h;
    lemma_distributes(k, quadratic(a, b, c, u), quadratic(a, b, c, v));
    lemma_scaled_quadratic(k, a, b, c, u);
    lemma_scaled_quadratic(k, a, b, c, v);
    let q2 = k * (u * u) + k * (v * v);
    let q1 = k * u + k * v;
    lemma_distributes(a, k * (u * u), k * (v * v));
    lemma_distributes(b, k * u, k * v);
    assert(k * (quadratic(a, b, c, u) + quadratic(a, b, c, v)) == a * q2 + b * q1 + 2real * (c
        * k));
    assert(12real * q2 == 4real * (v * v * v) - 4real * (u * u * u) + 2real * (h * h * h)) by {
        lemma_distributes(k, u * u, v * v);
        lemma_half(h, u * u + v * v);
        lemma_trapezoid_second_power(u, h);
    }
    assert(12real * (a * q2) == 4real * (a * (v * v * v)) - 4real * (a * (u * u * u)) + 2real * (a
        * (h * h * h))) by {
        lemma_scaled_combination(
            a,
            12real,
            q2,
            4real * (v * v * v),
            4real * (u * u * u),
            2real * (h * h * h),
        );
        lemma_swaps(a, 4real, v * v * v);
        lemma_swaps(a, 4real, u * u * u);
        lemma_swaps(a, 2real, h * h * h);
    }
    assert(2real * (b * q1) == b * (v * v) - b * (u * u)) by {
        lemma_distributes(k, u, v);
        lemma_half(h, u + v);
        lemma_trapezoid_first_power(u, h);
        lemma_scaled_difference(b, 2real, q1, v * v, u * u);
    }
    assert(2real * (c * k) == c * v - c * u) by {
        lemma_half(h, c);
        lemma_distributes(c, u, h);
    }
}

/// The rectangle on one step, sampled halfway at `m`, taken of `x`.
proof fn lemma_center_first_power(u: real, h: real, m: real)
    requires
        2real * m == 2real * u + h,
    ensures
        2real * (h * m) == (u + h) * (u + h) - u * u,
{
    assert(2real * (h * m) == (u + h) * (u + h) - u * u) by (nonlinear_arith)
        requires
            2real * m == 2real * u + h,
    ;
}

/// The rectangle on one step, sampled halfway at `m`, taken of `x^2`: short
/// of the integral by a twelfth of `h^3`.
proof fn lemma_center_second_power(u: real, h: real, m: real)
    requires
        2real * m == 2real * u + h,
    ensures
        12real * (h * (m * m)) + h * h * h == 4real * ((u + h) * (u + h) * (u + h)) - 4real * (u
            * u * u),
{
    assert(12real * (h * (m * m)) + h * h * h == 4real * ((u + h) * (u + h) * (u + h)) - 4real
        * (u * u * u)) by (nonlinear_arith)
        requires
            2real * m == 2real * u + h,
    ;
}

/// The rectangle on one step of length `h` from `u` on, sampled halfway and
/// taken of a parabola, falls short of the integral by a twelfth of `a h^3`.
pub proof fn lemma_center_panel_of_quadratic(a: real, b: real, c: real, u: real, h: real)
    ensures
        h * quadratic(a, b, c, u + h / 2real) == quadratic_primitive(a, b, c, u + h)
            - quadratic_primitive(a, b, c, u) - a * (h * h * h) / 12real,
{
    let m = u + h / 2real;
    let v = u + h;
    lemma_scaled_quadratic(h, a, b, c, m);
    let q2 = h * (m * m);
    let q1 = h * m;
    assert(12real * (a * q2) == 4real * (a * (v * v * v)) - 4real * (a * (u * u * u)) - a * (h * h
        * h)) by {
        lemma_center_second_power(u, h, m);
        lemma_scaled_difference(
            a,
            1real,
            12real * q2 + h * h * h,
            4real * (v * v * v),
            4real * (u * u * u),
        );
        lemma_distributes(a, 12real * q2, h * h * h);
        lemma_swaps(a, 12real, q2);
        lemma_swaps(a, 4real, v * v * v);
        lemma_swaps(a, 4real, u * u * u);
    }
    assert(2real * (b * q1) == b * (v * v) - b * (u * u)) by {
        lemma_center_first_power(u, h, m);
        lemma_scaled_difference(b, 2real, q1, v * v, u * u);
    }
    assert(c * h == c * v - c * u) by {
        lemma_distributes(c, u, h);
    }
}

/// Products of degree four in `v` and `h`, each in the order in which the
/// powers are written elsewhere.
proof fn lemma_fourth_degree_products(v: real, h: real)
    ensures
        (2real * (v * h)) * (2real * (v * h)) == 4real * (v * v * h * h),
        (v * v) * (v * h) == v * v * v * h,
        (h * h) * (v * h) == v * h * h * h,
        (v * v) * (v * v) == v * v * v * v,
        (v * v) * (h * h) == v * v * h * h,
        (h * h) * (h * h) == h * h * h * h,
{
    assert((2real * (v * h)) * (2real * (v * h)) == 4real * (v * v * h * h)) by (nonlinear_arith);
    assert((v * v) * (v * h) == v * v * v * h) by (nonlinear_arith);
    assert((h * h) * (v * h) == v * h * h * h) by (nonlinear_arith);
    assert((v * v) * (v * v) == v * v * v * v) by (nonlinear_arith);
    assert((v * v) * (h * h) == v * v * h * h) by (nonlinear_arith);
    assert((h * h) * (h * h) == h * h * h * h) by (nonlinear_arith);
}

/// The sum and the difference of the fourth powers of `v + h` and `v - h`.
proof fn lemma_fourth_powers_around(v: real, h: real)
    ensures
        (v - h) * (v - h) * (v - h) * (v - h) + (v + h) * (v + h) * (v + h) * (v + h) == 2real * (v
            * v * v * v) + 12real * (v * v * h * h) + 2real * (h * h * h * h),
        (v + h) * (v + h) * (v + h) * (v + h) - (v - h) * (v - h) * (v - h) * (v - h) == 8real * (v
            * v * v * h) + 8real * (v * h * h * h),
{
    let s = v * v + h * h;
    let t = 2real * (v * h);
    let above = (v + h) * (v + h);
    let below = (v - h) * (v - h);
    lemma_squares_around(v, h);
    lemma_fourth_power_is_a_square(v + h);
    lemma_fourth_power_is_a_square(v - h);
    lemma_same_product(above, s + t, above, s + t);
    lemma_same_product(below, s - t, below, s - t);
    lemma_squares_around(s, t);
    lemma_fourth_degree_products(v, h);
    assert(s * s == v * v * v * v + 2real * (v * v * h * h) + h * h * h * h) by {
        lemma_squares_around(v * v, h * h);
    }
    assert(s * t == 2real * (v * v * v * h) + 2real * (v * h * h * h)) by {
        lemma_commutes(s, t);
        lemma_distributes(t, v * v, h * h);
        lemma_swaps(2real, v * h, v * v);
        lemma_swaps(2real, v * h, h * h);
        lemma_commutes(v * h, v * v);
        lemma_commutes(v * h, h * h);
    }
}

/// Products of degree five in `v` and `h`, each in the order in which the
/// powers are written elsewhere.
proof fn lemma_fifth_degree_products(v: real, h: real)
    ensures
        v * (v * v * v * h) == h * (v * v * v * v),
        v * (v * h * h * h) == h * (v * v * h * h),
        h * (h * h * h * h) == h * h * h * h * h,
{
    assert(v * (v * v * v * h) == h * (v * v * v * v)) by (nonlinear_arith);
    assert(v * (v * h * h * h) == h * (v * v * h * h)) by (nonlinear_arith);
    assert(h * (h * h * h * h) == h * h * h * h * h) by (nonlinear_arith);
}

/// Simpson's rule on two steps, taken of `x^4`: beyond the integral by four
/// fifteenths of `h^5`.
proof fn lemma_simpson_fourth_power(u: real, h: real)
    ensures
        5real * (h * (u * u * u * u + 4real * ((u + h) * (u + h) * (u + h) * (u + h)) + (u + 2real
            * h) * (u + 2real * h) * (u + 2real * h) * (u + 2real * h))) == 3real * ((u + 2real * h)
            * (u + 2real * h) * (u + 2real * h) * (u + 2real * h) * (u + 2real * h)) - 3real * (u
            * u * u * u * u) + 4real * (h * h * h * h * h),
{
    let v = u + h;
    let w = u + 2real * h;
    let u4 = u * u * u * u;
    let v4 = v * v * v * v;
    let w4 = w * w * w * w;
    let around = u4 + w4;
    let across = w4 - u4;
    lemma_fourth_powers_around(v, h);
    lemma_same_fourth_power(u, v - h);
    lemma_same_fourth_power(w, v + h);
    assert(around == 2real * v4 + 12real * (v * v * h * h) + 2real * (h * h * h * h));
    assert(across == 8real * (v * v * v * h) + 8real * (v * h * h * h));
    lemma_fifth_degree_products(v, h);
    let y1 = h * v4;
    let y2 = h * (v * v * h * h);
    let y3 = h * (h * h * h * h);
    // The difference of the fifth powers, through the fourth.
    assert(w4 * w - u4 * u == v * across + h * around) by {
        lemma_congruent(w4, w, v + h);
        lemma_distributes(w4, v, h);
        lemma_congruent(u4, u, v - h);
        lemma_difference(u4, v, h);
        lemma_difference(v, w4, u4);
        lemma_distributes(h, u4, w4);
        lemma_commutes(w4, v);
        lemma_commutes(w4, h);
        lemma_commutes(u4, v);
        lemma_commutes(u4, h);
    }
    assert(v * across == 8real * y1 + 8real * y2) by {
        lemma_congruent(v, across, 8real * (v * v * v * h) + 8real * (v * h * h * h));
        lemma_distributes(v, 8real * (v * v * v * h), 8real * (v * h * h * h));
        lemma_swaps(v, 8real, v * v * v * h);
        lemma_swaps(v, 8real, v * h * h * h);
    }
    assert(h * around == 2real * y1 + 12real * y2 + 2real * y3) by {
        lemma_congruent(h, around, 2real * v4 + 12real * (v * v * h * h) + 2real * (h * h * h * h));
        lemma_distributes3(h, 2real * v4, 12real * (v * v * h * h), 2real * (h * h * h * h));
        lemma_swaps(h, 2real, v4);
        lemma_swaps(h, 12real, v * v * h * h);
        lemma_swaps(h, 2real, h * h * h * h);
    }
    assert(h * (u4 + 4real * v4 + w4) == h * around + 4real * y1) by {
        lemma_congruent(h, u4 + 4real * v4 + w4, around + 4real * v4);
        lemma_distributes(h, around, 4real * v4);
        lemma_swaps(h, 4real, v4);
    }
}

/// Simpson's rule on two steps of length `h` from `u` on, taken of a
/// polynomial of degree four, exceeds the integral by four fifteenths of `e h^5`.
pub proof fn lemma_simpson_panel_of_quartic(
    e: real,
    a: real,
    b: real,
    c: real,
    d: real,
    u: real,
    h: real,
)
    ensures
        h / 3real * (quartic(e, a, b, c, d, u) + 4real * quartic(e, a, b, c, d, u + h) + quartic(
            e,
            a,
            b,
            c,
            d,
            u + 2real * h,
        )) == quartic_primitive(e, a, b, c, d, u + 2real * h) - quartic_primitive(e, a, b, c, d, u)
            + 4real * (e * (h * h * h * h * h)) / 15real,
{
    let k = h / 3real;
    let v = u + h;
    let w = u + 2real * h;
    let u4 = u * u * u * u;
    let v4 = v * v * v * v;
    let w4 = w * w * w * w;
    let h5 = h * h * h * h * h;
    let sum = u4 + 4real * v4 + w4;
    let rest = cubic(a, b, c, d, u) + 4real * cubic(a, b, c, d, v) + cubic(a, b, c, d, w);
    // The fourth power apart from the rest.
    assert(e * sum == e * u4 + 4real * (e * v4) + e * w4) by {
        lemma_distributes3(e, u4, 4real * v4, w4);
        lemma_swaps(e, 4real, v4);
    }
    lemma_congruent(
        k,
        quartic(e, a, b, c, d, u) + 4real * quartic(e, a, b, c, d, v) + quartic(e, a, b, c, d, w),
        e * sum + rest,
    );
    lemma_distributes(k, e * sum, rest);
    lemma_simpson_panel(a, b, c, d, u, h);
    assert(15real * (k * sum) == 3real * (w * w * w * w * w) - 3real * (u * u * u * u * u) + 4real
        * h5) by {
        lemma_third(h, sum);
        lemma_simpson_fourth_power(u, h);
    }
    assert(15real * (e * (k * sum)) == 3real * (e * (w * w * w * w * w)) - 3real * (e * (u * u * u
        * u * u)) + 4real * (e * h5)) by {
        lemma_scaled_combination(
            e,
            15real,
            k * sum,
            3real * (w * w * w * w * w),
            3real * (u * u * u * u * u),
            4real * h5,
        );
        lemma_swaps(e, 3real, w * w * w * w * w);
        lemma_swaps(e, 3real, u * u * u * u * u);
        lemma_swaps(e, 4real, h5);
    }
    lemma_swaps(k, e, sum);
}

} // verus!
