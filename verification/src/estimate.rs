//! What the Runge estimate is worth: on the polynomials of the lowest degree
//! that a rule gets wrong, it is the error itself.
//!
//! Those are the parabolas for the trapezoid rule and for the rectangle rule
//! sampled halfway, and the polynomials of degree four for Simpson's rule. The
//! rectangle rule sampled at a bound already errs on lines, in proportion to
//! the step and not to its square, and nothing of the kind holds of it.

use vstd::prelude::*;
use vstd::arithmetic::power2::lemma2_to64;
use crate::algebra::{
    lemma_commutes,
    lemma_congruent,
    lemma_difference,
    lemma_distributes,
    lemma_fourth_power_is_a_square,
    lemma_half,
    lemma_multiple,
    lemma_over,
    lemma_same_product,
    lemma_swaps,
};
use crate::method::{Method, RectangleMode};
use crate::model::{
    approximation,
    node,
    quadratic,
    quadratic_integral,
    quadratic_primitive,
    quartic,
    quartic_integral,
    quartic_primitive,
    rectangle,
    runge_estimate,
    simpson,
    step_length,
    sum_at_nodes,
    sum_at_parity,
    trapezoid,
};
use crate::panels::{
    lemma_center_panel_of_quadratic,
    lemma_simpson_panel_of_quartic,
    lemma_trapezoid_panel_of_quadratic,
};
use crate::telescoping::{
    lemma_first_node,
    lemma_last_node,
    lemma_next_node,
    lemma_rectangle_telescopes,
    lemma_simpson_telescopes,
    lemma_trapezoid_telescopes,
    rectangle_panel_exact,
    simpson_panel_exact,
    trapezoid_panel_exact,
};

verus! {

/// The coefficient `a` of a parabola's square, times the square of the step
/// and the signed length of the interval: six times the error of the
/// trapezoid rule, and minus twelve times that of the centred rectangle rule.
pub open spec fn curvature_term(a: real, start: real, end: real, splits: nat) -> real {
    let step = step_length(start, end, splits);
    a * (step * step) * (end - start)
}

/// What the rule gives beyond the integral of a parabola whose square has the
/// coefficient `a`.
pub open spec fn quadratic_excess(
    method: Method,
    a: real,
    start: real,
    end: real,
    splits: nat,
) -> real {
    match method {
        Method::Trapezoid => curvature_term(a, start, end, splits) / 6real,
        _ => -(curvature_term(a, start, end, splits) / 12real),
    }
}

/// Whether the rule is of second order: the trapezoid rule, or the rectangle
/// rule sampled halfway.
pub open spec fn of_second_order(method: Method) -> bool {
    method == Method::Trapezoid || method == Method::Rectangle(RectangleMode::Center)
}

/// One step, times what `a` and the square of the step make, is `a` times the cube of the step.
proof fn lemma_cube_of_step(a: real, h: real)
    ensures
        (a * (h * h)) * h == a * (h * h * h),
{
    lemma_swaps(a, h * h, h);
}

/// The trapezoid rule, taken of a parabola, exceeds the integral by a sixth
/// of `a h^2 (end - start)`, with `h` the step.
pub proof fn lemma_trapezoid_on_quadratics(
    f: spec_fn(real) -> real,
    a: real,
    b: real,
    c: real,
    start: real,
    end: real,
    splits: nat,
)
    requires
        splits >= 1,
        forall|x: real| #[trigger] f(x) == quadratic(a, b, c, x),
    ensures
        trapezoid(f, start, end, splits) == quadratic_integral(a, b, c, start, end)
            + curvature_term(a, start, end, splits) / 6real,
{
    let step = step_length(start, end, splits);
    let bend = a * (step * step);
    let primitive = |x: real| quadratic_primitive(a, b, c, x) + (bend * x) / 6real;
    assert forall|index: int| 0 <= index < splits implies #[trigger] trapezoid_panel_exact(
        f,
        primitive,
        start,
        step,
        index,
    ) by {
        let u = node(start, step, index);
        let v = node(start, step, index + 1);
        lemma_next_node(start, step, index);
        lemma_trapezoid_panel_of_quadratic(a, b, c, u, step);
        lemma_congruent(
            step / 2real,
            f(node(start, step, index)) + f(node(start, step, index + 1)),
            quadratic(a, b, c, u) + quadratic(a, b, c, u + step),
        );
        lemma_congruent(bend, v, u + step);
        lemma_distributes(bend, u, step);
        lemma_cube_of_step(a, step);
    }
    lemma_trapezoid_telescopes(f, primitive, start, step, splits);
    lemma_first_node(start, step);
    lemma_last_node(start, end, splits);
    lemma_congruent(
        step / 2real,
        f(start) + f(end) + 2real * sum_at_nodes(f, start, step, 1, splits as int),
        f(node(start, step, 0)) + f(node(start, step, splits as int)) + 2real * sum_at_nodes(
            f,
            start,
            step,
            1,
            splits as int,
        ),
    );
    lemma_difference(bend, end, start);
}

/// The rectangle rule sampled halfway, taken of a parabola, falls short of
/// the integral by a twelfth of `a h^2 (end - start)`, with `h` the step.
pub proof fn lemma_center_rectangle_on_quadratics(
    f: spec_fn(real) -> real,
    a: real,
    b: real,
    c: real,
    start: real,
    end: real,
    splits: nat,
)
    requires
        splits >= 1,
        forall|x: real| #[trigger] f(x) == quadratic(a, b, c, x),
    ensures
        rectangle(f, start, end, splits, RectangleMode::Center) == quadratic_integral(
            a,
            b,
            c,
            start,
            end,
        ) - curvature_term(a, start, end, splits) / 12real,
{
    let step = step_length(start, end, splits);
    let bend = a * (step * step);
    let shift = (RectangleMode::Center.spec_half_steps() as real) * (step / 2real);
    let primitive = |x: real| quadratic_primitive(a, b, c, x) - (bend * x) / 12real;
    assert(shift == step / 2real) by {
        lemma_congruent(step / 2real, RectangleMode::Center.spec_half_steps() as real, 1real);
        lemma_commutes(step / 2real, RectangleMode::Center.spec_half_steps() as real);
    }
    assert forall|index: int| 0 <= index < splits implies #[trigger] rectangle_panel_exact(
        f,
        primitive,
        start,
        shift,
        step,
        index,
    ) by {
        let u = node(start, step, index);
        let v = node(start, step, index + 1);
        lemma_next_node(start, step, index);
        lemma_center_panel_of_quadratic(a, b, c, u, step);
        lemma_congruent(
            step,
            f(node(start + shift, step, index)),
            quadratic(a, b, c, u + step / 2real),
        );
        lemma_congruent(bend, v, u + step);
        lemma_distributes(bend, u, step);
        lemma_cube_of_step(a, step);
    }
    lemma_rectangle_telescopes(f, primitive, start, shift, step, splits);
    lemma_first_node(start, step);
    lemma_last_node(start, end, splits);
    lemma_difference(bend, end, start);
}

/// A rule of second order, taken of a parabola, gives the integral and the
/// rule's excess.
pub proof fn lemma_second_order_on_quadratics(
    method: Method,
    f: spec_fn(real) -> real,
    a: real,
    b: real,
    c: real,
    start: real,
    end: real,
    splits: nat,
)
    requires
        of_second_order(method),
        splits >= 1,
        forall|x: real| #[trigger] f(x) == quadratic(a, b, c, x),
    ensures
        approximation(method, f, start, end, splits) == quadratic_integral(a, b, c, start, end)
            + quadratic_excess(method, a, start, end, splits),
{
    if method == Method::Trapezoid {
        lemma_trapezoid_on_quadratics(f, a, b, c, start, end, splits);
    } else {
        lemma_center_rectangle_on_quadratics(f, a, b, c, start, end, splits);
    }
}

/// Twice the subintervals make half the step.
pub proof fn lemma_half_step(start: real, end: real, splits: nat)
    requires
        splits >= 1,
    ensures
        step_length(start, end, 2 * splits) == step_length(start, end, splits) / 2real,
{
    let length = end - start;
    let count = splits as real;
    let twice = (2 * splits) as real;
    let step = step_length(start, end, splits);
    let half = step_length(start, end, 2 * splits);
    assert(count * step == length) by (nonlinear_arith)
        requires
            count >= 1real,
            step == length / count,
    ;
    assert(twice * half == length) by (nonlinear_arith)
        requires
            twice >= 1real,
            half == length / twice,
    ;
    assert(count * (2real * half) == count * step) by {
        lemma_same_product(twice, 2real * count, half, half);
        lemma_swaps(2real, count, half);
        lemma_swaps(count, 2real, half);
    }
    assert(2real * half == step) by (nonlinear_arith)
        requires
            count >= 1real,
            count * (2real * half) == count * step,
    ;
}

/// Twice the subintervals make a quarter of the curvature term.
pub proof fn lemma_quarter_term(a: real, start: real, end: real, splits: nat)
    requires
        splits >= 1,
    ensures
        4real * curvature_term(a, start, end, 2 * splits) == curvature_term(a, start, end, splits),
{
    let length = end - start;
    let step = step_length(start, end, splits);
    let half = step_length(start, end, 2 * splits);
    lemma_half_step(start, end, splits);
    assert(4real * (half * half) == step * step) by {
        lemma_same_product(half, step / 2real, half, half);
        lemma_half(step, half);
        lemma_congruent(step, half, step / 2real);
        lemma_half(step, step);
    }
    assert(4real * (a * (half * half)) == a * (step * step)) by {
        lemma_swaps(a, 4real, half * half);
        lemma_congruent(a, 4real * (half * half), step * step);
    }
    lemma_multiple(4real, a * (half * half), a * (step * step), length);
}

/// On a parabola the Runge estimate of a rule of second order is the error
/// itself: what the integral exceeds the finer approximation by.
pub proof fn lemma_runge_estimate_is_the_error(
    method: Method,
    f: spec_fn(real) -> real,
    a: real,
    b: real,
    c: real,
    start: real,
    end: real,
    splits: nat,
)
    requires
        of_second_order(method),
        splits >= 1,
        forall|x: real| #[trigger] f(x) == quadratic(a, b, c, x),
    ensures
        runge_estimate(
            method,
            approximation(method, f, start, end, 2 * splits),
            approximation(method, f, start, end, splits),
        ) == quadratic_integral(a, b, c, start, end) - approximation(
            method,
            f,
            start,
            end,
            2 * splits,
        ),
{
    let coarse = approximation(method, f, start, end, splits);
    let fine = approximation(method, f, start, end, 2 * splits);
    lemma_second_order_on_quadratics(method, f, a, b, c, start, end, splits);
    lemma_second_order_on_quadratics(method, f, a, b, c, start, end, 2 * splits);
    lemma_quarter_term(a, start, end, splits);
    lemma2_to64();
    lemma_over(fine - coarse, method.spec_runge_denominator(), 3real);
}

/// On a parabola, doubling the subintervals makes the Runge estimate of a
/// rule of second order a quarter of what it was.
pub proof fn lemma_doubling_quarters_the_estimate(
    method: Method,
    f: spec_fn(real) -> real,
    a: real,
    b: real,
    c: real,
    start: real,
    end: real,
    splits: nat,
)
    requires
        of_second_order(method),
        splits >= 1,
        forall|x: real| #[trigger] f(x) == quadratic(a, b, c, x),
    ensures
        4real * runge_estimate(
            method,
            approximation(method, f, start, end, 4 * splits),
            approximation(method, f, start, end, 2 * splits),
        ) == runge_estimate(
            method,
            approximation(method, f, start, end, 2 * splits),
            approximation(method, f, start, end, splits),
        ),
{
    lemma_runge_estimate_is_the_error(method, f, a, b, c, start, end, splits);
    lemma_runge_estimate_is_the_error(method, f, a, b, c, start, end, 2 * splits);
    lemma_second_order_on_quadratics(method, f, a, b, c, start, end, 2 * splits);
    lemma_second_order_on_quadratics(method, f, a, b, c, start, end, 4 * splits);
    lemma_quarter_term(a, start, end, 2 * splits);
    assert(2 * (2 * splits) == 4 * splits);
}

/// The coefficient `lead` of a polynomial's fourth power, times the fourth
/// power of the step and the signed length of the interval: fifteen halves of
/// the error of Simpson's rule.
pub open spec fn fourth_term(lead: real, start: real, end: real, splits: nat) -> real {
    let step = step_length(start, end, splits);
    lead * (step * step * step * step) * (end - start)
}

/// Simpson's rule, taken of a polynomial of degree four, exceeds the integral
/// by two fifteenths of `lead h^4 (end - start)`, with `h` the step.
pub proof fn lemma_simpson_on_quartics(
    f: spec_fn(real) -> real,
    lead: real,
    a: real,
    b: real,
    c: real,
    d: real,
    start: real,
    end: real,
    splits: nat,
)
    requires
        Method::Simpson.spec_admits(splits),
        forall|x: real| #[trigger] f(x) == quartic(lead, a, b, c, d, x),
    ensures
        simpson(f, start, end, splits) == quartic_integral(lead, a, b, c, d, start, end) + 2real
            * fourth_term(lead, start, end, splits) / 15real,
        approximation(Method::Simpson, f, start, end, splits) == quartic_integral(
            lead,
            a,
            b,
            c,
            d,
            start,
            end,
        ) + 2real * fourth_term(lead, start, end, splits) / 15real,
{
    let step = step_length(start, end, splits);
    let bend = lead * (step * step * step * step);
    let primitive = |x: real| quartic_primitive(lead, a, b, c, d, x) + 2real * (bend * x) / 15real;
    let pairs = (splits / 2) as nat;
    assert forall|pair: int| 0 <= pair < pairs implies #[trigger] simpson_panel_exact(
        f,
        primitive,
        start,
        step,
        pair,
    ) by {
        let u = node(start, step, 2 * pair);
        let w = node(start, step, 2 * pair + 2);
        lemma_next_node(start, step, 2 * pair);
        lemma_next_node(start, step, 2 * pair + 1);
        lemma_simpson_panel_of_quartic(lead, a, b, c, d, u, step);
        lemma_congruent(
            step / 3real,
            f(node(start, step, 2 * pair)) + 4real * f(node(start, step, 2 * pair + 1)) + f(
                node(start, step, 2 * pair + 2),
            ),
            quartic(lead, a, b, c, d, u) + 4real * quartic(lead, a, b, c, d, u + step) + quartic(
                lead,
                a,
                b,
                c,
                d,
                u + 2real * step,
            ),
        );
        lemma_congruent(bend, w, u + 2real * step);
        lemma_distributes(bend, u, 2real * step);
        lemma_swaps(bend, 2real, step);
        lemma_swaps(lead, step * step * step * step, step);
    }
    lemma_simpson_telescopes(f, primitive, start, step, pairs);
    lemma_first_node(start, step);
    lemma_last_node(start, end, splits);
    lemma_congruent(
        step / 3real,
        f(start) + 4real * sum_at_parity(f, start, step, 1, 1, splits as int) + 2real
            * sum_at_parity(f, start, step, 0, 1, splits as int) + f(end),
        f(node(start, step, 0)) + 4real * sum_at_parity(f, start, step, 1, 1, 2 * pairs as int)
            + 2real * sum_at_parity(f, start, step, 0, 1, 2 * pairs as int) + f(
            node(start, step, 2 * pairs as int),
        ),
    );
    lemma_difference(bend, end, start);
}

/// Twice the subintervals make a sixteenth of the fourth term.
pub proof fn lemma_sixteenth_term(lead: real, start: real, end: real, splits: nat)
    requires
        splits >= 1,
    ensures
        16real * fourth_term(lead, start, end, 2 * splits) == fourth_term(lead, start, end, splits),
{
    let length = end - start;
    let step = step_length(start, end, splits);
    let half = step_length(start, end, 2 * splits);
    let square = step * step;
    let small = half * half;
    lemma_half_step(start, end, splits);
    assert(4real * small == square) by {
        lemma_same_product(half, step / 2real, half, half);
        lemma_half(step, half);
        lemma_congruent(step, half, step / 2real);
        lemma_half(step, step);
    }
    assert(16real * (small * small) == square * square) by {
        lemma_multiple(4real, small, square, small);
        lemma_multiple(4real, small, square, square);
    }
    lemma_fourth_power_is_a_square(step);
    lemma_fourth_power_is_a_square(half);
    assert(16real * (lead * (half * half * half * half)) == lead * (step * step * step * step)) by {
        lemma_swaps(lead, 16real, half * half * half * half);
        lemma_congruent(lead, 16real * (half * half * half * half), step * step * step * step);
    }
    lemma_multiple(
        16real,
        lead * (half * half * half * half),
        lead * (step * step * step * step),
        length,
    );
}

/// On a polynomial of degree four the Runge estimate of Simpson's rule is the
/// error itself: what the integral exceeds the finer approximation by.
pub proof fn lemma_simpson_runge_estimate_is_the_error(
    f: spec_fn(real) -> real,
    lead: real,
    a: real,
    b: real,
    c: real,
    d: real,
    start: real,
    end: real,
    splits: nat,
)
    requires
        Method::Simpson.spec_admits(splits),
        forall|x: real| #[trigger] f(x) == quartic(lead, a, b, c, d, x),
    ensures
        runge_estimate(
            Method::Simpson,
            approximation(Method::Simpson, f, start, end, 2 * splits),
            approximation(Method::Simpson, f, start, end, splits),
        ) == quartic_integral(lead, a, b, c, d, start, end) - approximation(
            Method::Simpson,
            f,
            start,
            end,
            2 * splits,
        ),
{
    let coarse = approximation(Method::Simpson, f, start, end, splits);
    let fine = approximation(Method::Simpson, f, start, end, 2 * splits);
    lemma_simpson_on_quartics(f, lead, a, b, c, d, start, end, splits);
    lemma_simpson_on_quartics(f, lead, a, b, c, d, start, end, 2 * splits);
    lemma_sixteenth_term(lead, start, end, splits);
    lemma2_to64();
    lemma_over(fine - coarse, Method::Simpson.spec_runge_denominator(), 15real);
}

/// On a polynomial of degree four, doubling the subintervals makes the Runge
/// estimate of Simpson's rule a sixteenth of what it was.
pub proof fn lemma_doubling_sixteenths_the_estimate(
    f: spec_fn(real) -> real,
    lead: real,
    a: real,
    b: real,
    c: real,
    d: real,
    start: real,
    end: real,
    splits: nat,
)
    requires
        Method::Simpson.spec_admits(splits),
        forall|x: real| #[trigger] f(x) == quartic(lead, a, b, c, d, x),
    ensures
        16real * runge_estimate(
            Method::Simpson,
            approximation(Method::Simpson, f, start, end, 4 * splits),
            approximation(Method::Simpson, f, start, end, 2 * splits),
        ) == runge_estimate(
            Method::Simpson,
            approximation(Method::Simpson, f, start, end, 2 * splits),
            approximation(Method::Simpson, f, start, end, splits),
        ),
{
    lemma_simpson_runge_estimate_is_the_error(f, lead, a, b, c, d, start, end, splits);
    lemma_simpson_runge_estimate_is_the_error(f, lead, a, b, c, d, start, end, 2 * splits);
    lemma_simpson_on_quartics(f, lead, a, b, c, d, start, end, 2 * splits);
    lemma_simpson_on_quartics(f, lead, a, b, c, d, start, end, 4 * splits);
    lemma_sixteenth_term(lead, start, end, 2 * splits);
    assert(2 * (2 * splits) == 4 * splits);
}

} // verus!
