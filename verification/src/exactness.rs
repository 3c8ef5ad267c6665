//! The polynomials on which each rule gives the integral itself.

use vstd::prelude::*;
use crate::algebra::{lemma_commutes, lemma_congruent, lemma_difference, lemma_distributes};
use crate::method::{Method, RectangleMode};
use crate::model::{
    approximation,
    cubic,
    cubic_integral,
    cubic_primitive,
    line,
    line_integral,
    line_primitive,
    node,
    rectangle,
    simpson,
    step_length,
    sum_at_nodes,
    sum_at_parity,
    trapezoid,
};
use crate::panels::{lemma_center_panel, lemma_simpson_panel, lemma_trapezoid_panel};
use crate::telescoping::{
    lemma_first_node,
    lemma_last_node,
    lemma_next_node,
    lemma_rectangle_telescopes,
    lemma_simpson_telescopes,
    lemma_trapezoid_telescopes,
    rectangle_panel_exact,
    simpson_panel_exact,
    trapezoid_panel_exact,
};

verus! {

/// Simpson's rule on an even number of subintervals gives the integral of
/// every polynomial of degree three or less, whatever the interval.
pub proof fn lemma_simpson_exact_on_cubics(
    f: spec_fn(real) -> real,
    a: real,
    b: real,
    c: real,
    d: real,
    start: real,
    end: real,
    splits: nat,
)
    requires
        Method::Simpson.spec_admits(splits),
        forall|x: real| #[trigger] f(x) == cubic(a, b, c, d, x),
    ensures
        simpson(f, start, end, splits) == cubic_integral(a, b, c, d, start, end),
        approximation(Method::Simpson, f, start, end, splits) == cubic_integral(
            a,
            b,
            c,
            d,
            start,
            end,
        ),
{
    let step = step_length(start, end, splits);
    let primitive = |x: real| cubic_primitive(a, b, c, d, x);
    let pairs = (splits / 2) as nat;
    assert forall|pair: int| 0 <= pair < pairs implies #[trigger] simpson_panel_exact(
        f,
        primitive,
        start,
        step,
        pair,
    ) by {
        let u = node(start, step, 2 * pair);
        lemma_next_node(start, step, 2 * pair);
        lemma_next_node(start, step, 2 * pair + 1);
        lemma_simpson_panel(a, b, c, d, u, step);
        lemma_congruent(
            step / 3real,
            f(node(start, step, 2 * pair)) + 4real * f(node(start, step, 2 * pair + 1)) + f(
                node(start, step, 2 * pair + 2),
            ),
            cubic(a, b, c, d, u) + 4real * cubic(a, b, c, d, u + step) + cubic(
                a,
                b,
                c,
                d,
                u + 2real * step,
            ),
        );
    }
    lemma_simpson_telescopes(f, primitive, start, step, pairs);
    lemma_first_node(start, step);
    lemma_last_node(start, end, splits);
    lemma_congruent(
        step / 3real,
        f(start) + 4real * sum_at_parity(f, start, step, 1, 1, splits as int) + 2real
            * sum_at_parity(f, start, step, 0, 1, splits as int) + f(end),
        f(node(start, step, 0)) + 4real * sum_at_parity(f, start, step, 1, 1, 2 * pairs as int)
            + 2real * sum_at_parity(f, start, step, 0, 1, 2 * pairs as int) + f(
            node(start, step, 2 * pairs as int),
        ),
    );
}

/// The trapezoid rule gives the integral of every line, on any number of
/// subintervals and whatever the interval.
pub proof fn lemma_trapezoid_exact_on_lines(
    f: spec_fn(real) -> real,
    a: real,
    b: real,
    start: real,
    end: real,
    splits: nat,
)
    requires
        splits >= 1,
        forall|x: real| #[trigger] f(x) == line(a, b, x),
    ensures
        trapezoid(f, start, end, splits) == line_integral(a, b, start, end),
        approximation(Method::Trapezoid, f, start, end, splits) == line_integral(a, b, start, end),
{
    let step = step_length(start, end, splits);
    let primitive = |x: real| line_primitive(a, b, x);
    assert forall|index: int| 0 <= index < splits implies #[trigger] trapezoid_panel_exact(
        f,
        primitive,
        start,
        step,
        index,
    ) by {
        let u = node(start, step, index);
        lemma_next_node(start, step, index);
        lemma_trapezoid_panel(a, b, u, step);
        lemma_congruent(
            step / 2real,
            f(node(start, step, index)) + f(node(start, step, index + 1)),
            line(a, b, u) + line(a, b, u + step),
        );
    }
    lemma_trapezoid_telescopes(f, primitive, start, step, splits);
    lemma_first_node(start, step);
    lemma_last_node(start, end, splits);
    lemma_congruent(
        step / 2real,
        f(start) + f(end) + 2real * sum_at_nodes(f, start, step, 1, splits as int),
        f(node(start, step, 0)) + f(node(start, step, splits as int)) + 2real * sum_at_nodes(
            f,
            start,
            step,
            1,
            splits as int,
        ),
    );
}

/// The rectangle rule that samples each subinterval halfway gives the
/// integral of every line, on any number of subintervals and whatever the
/// interval.
pub proof fn lemma_center_rectangle_exact_on_lines(
    f: spec_fn(real) -> real,
    a: real,
    b: real,
    start: real,
    end: real,
    splits: nat,
)
    requires
        splits >= 1,
        forall|x: real| #[trigger] f(x) == line(a, b, x),
    ensures
        rectangle(f, start, end, splits, RectangleMode::Center) == line_integral(a, b, start, end),
        approximation(Method::Rectangle(RectangleMode::Center), f, start, end, splits)
            == line_integral(a, b, start, end),
{
    let step = step_length(start, end, splits);
    let shift = (RectangleMode::Center.spec_half_steps() as real) * (step / 2real);
    let primitive = |x: real| line_primitive(a, b, x);
    assert(shift == step / 2real) by {
        lemma_congruent(step / 2real, RectangleMode::Center.spec_half_steps() as real, 1real);
        lemma_commutes(step / 2real, RectangleMode::Center.spec_half_steps() as real);
    }
    assert forall|index: int| 0 <= index < splits implies #[trigger] rectangle_panel_exact(
        f,
        primitive,
        start,
        shift,
        step,
        index,
    ) by {
        let u = node(start, step, index);
        lemma_next_node(start, step, index);
        lemma_center_panel(a, b, u, step);
        lemma_congruent(step, f(node(start + shift, step, index)), line(a, b, u + step / 2real));
    }
    lemma_rectangle_telescopes(f, primitive, start, shift, step, splits);
    lemma_first_node(start, step);
    lemma_last_node(start, end, splits);
}

/// Every rule gives the integral of a constant, `c` times the signed length
/// of the interval, on every number of subintervals that the rule admits.
pub proof fn lemma_exact_on_constants(
    method: Method,
    f: spec_fn(real) -> real,
    c: real,
    start: real,
    end: real,
    splits: nat,
)
    requires
        method.spec_admits(splits),
        forall|x: real| #[trigger] f(x) == c,
    ensures
        approximation(method, f, start, end, splits) == c * (end - start),
{
    let step = step_length(start, end, splits);
    lemma_difference(c, end, start);
    match method {
        Method::Rectangle(mode) => {
            let shift = (mode.spec_half_steps() as real) * (step / 2real);
            let primitive = |x: real| c * x;
            assert forall|index: int| 0 <= index < splits implies #[trigger] rectangle_panel_exact(
                f,
                primitive,
                start,
                shift,
                step,
                index,
            ) by {
                let u = node(start, step, index);
                lemma_next_node(start, step, index);
                lemma_congruent(step, f(node(start + shift, step, index)), c);
                lemma_commutes(step, c);
                lemma_distributes(c, u, step);
            }
            lemma_rectangle_telescopes(f, primitive, start, shift, step, splits);
            lemma_first_node(start, step);
            lemma_last_node(start, end, splits);
        },
        Method::Trapezoid => {
            assert forall|x: real| #[trigger] f(x) == line(0real, c, x) by {}
            lemma_trapezoid_exact_on_lines(f, 0real, c, start, end, splits);
        },
        Method::Simpson => {
            assert forall|x: real| #[trigger] f(x) == cubic(0real, 0real, 0real, c, x) by {}
            lemma_simpson_exact_on_cubics(f, 0real, 0real, 0real, c, start, end, splits);
        },
    }
}

} // verus!
