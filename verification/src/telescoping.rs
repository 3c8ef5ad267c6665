//! Sums over the nodes of a subdivision that collapse: where a rule is exact
//! on each piece, the pieces add up to what the primitive gains from end to end.

use vstd::prelude::*;
use crate::algebra::{lemma_commutes, lemma_congruent, lemma_distributes};
use crate::model::{node, step_length, sum_at_nodes, sum_at_parity};

verus! {

/// The node after the one numbered `index` lies one step further.
pub proof fn lemma_next_node(origin: real, step: real, index: int)
    ensures
        node(origin, step, index + 1) == node(origin, step, index) + step,
{
    lemma_congruent(step, (index + 1) as real, (index as real) + 1real);
    lemma_distributes(step, index as real, 1real);
    lemma_commutes(step, (index + 1) as real);
    lemma_commutes(step, index as real);
}

/// The node numbered zero is the origin.
pub proof fn lemma_first_node(origin: real, step: real)
    ensures
        node(origin, step, 0) == origin,
{
    lemma_congruent(step, 0int as real, 0real);
    lemma_commutes(step, 0int as real);
}

/// The node numbered `splits` is the end of the interval.
pub proof fn lemma_last_node(start: real, end: real, splits: nat)
    requires
        splits >= 1,
    ensures
        node(start, step_length(start, end, splits), splits as int) == end,
{
    let count = splits as real;
    let length = end - start;
    let step = step_length(start, end, splits);
    assert(count * step == length) by (nonlinear_arith)
        requires
            count >= 1real,
            step == length / count,
    ;
    lemma_congruent(step, (splits as int) as real, count);
    lemma_commutes(step, count);
}

/// What `primitive` gains from the node numbered `low` to the node numbered `high`.
pub open spec fn gain(
    primitive: spec_fn(real) -> real,
    origin: real,
    step: real,
    low: int,
    high: int,
) -> real {
    primitive(node(origin, step, high)) - primitive(node(origin, step, low))
}

/// Whether the rectangle over the subinterval numbered `index`, sampled
/// `shift` past its left bound, is what `primitive` gains over it.
pub open spec fn rectangle_panel_exact(
    f: spec_fn(real) -> real,
    primitive: spec_fn(real) -> real,
    start: real,
    shift: real,
    step: real,
    index: int,
) -> bool {
    step * f(node(start + shift, step, index)) == gain(primitive, start, step, index, index + 1)
}

/// Whether the trapezoid over the subinterval numbered `index` is what
/// `primitive` gains over it.
pub open spec fn trapezoid_panel_exact(
    f: spec_fn(real) -> real,
    primitive: spec_fn(real) -> real,
    start: real,
    step: real,
    index: int,
) -> bool {
    step / 2real * (f(node(start, step, index)) + f(node(start, step, index + 1))) == gain(
        primitive,
        start,
        step,
        index,
        index + 1,
    )
}

/// Whether Simpson's rule over the pair of subintervals numbered `pair` is
/// what `primitive` gains over the two.
pub open spec fn simpson_panel_exact(
    f: spec_fn(real) -> real,
    primitive: spec_fn(real) -> real,
    start: real,
    step: real,
    pair: int,
) -> bool {
    step / 3real * (f(node(start, step, 2 * pair)) + 4real * f(node(start, step, 2 * pair + 1))
        + f(node(start, step, 2 * pair + 2))) == gain(
        primitive,
        start,
        step,
        2 * pair,
        2 * pair + 2,
    )
}

/// Rectangles that are each exact add up to what the primitive gains over all of them.
pub proof fn lemma_rectangle_telescopes(
    f: spec_fn(real) -> real,
    primitive: spec_fn(real) -> real,
    start: real,
    shift: real,
    step: real,
    count: nat,
)
    requires
        forall|index: int|
            0 <= index < count ==> #[trigger] rectangle_panel_exact(
                f,
                primitive,
                start,
                shift,
                step,
                index,
            ),
    ensures
        step * sum_at_nodes(f, start + shift, step, 0, count as int) == gain(
            primitive,
            start,
            step,
            0,
            count as int,
        ),
    decreases count,
{
    if count == 0 {
        lemma_congruent(step, sum_at_nodes(f, start + shift, step, 0, 0), 0real);
    } else {
        let before = (count - 1) as nat;
        lemma_rectangle_telescopes(f, primitive, start, shift, step, before);
        assert(rectangle_panel_exact(f, primitive, start, shift, step, before as int));
        let sum = sum_at_nodes(f, start + shift, step, 0, before as int);
        let last = f(node(start + shift, step, before as int));
        lemma_congruent(step, sum_at_nodes(f, start + shift, step, 0, count as int), sum + last);
        lemma_distributes(step, sum, last);
    }
}

/// Trapezoids that are each exact add up to what the primitive gains over all of them.
pub proof fn lemma_trapezoid_telescopes(
    f: spec_fn(real) -> real,
    primitive: spec_fn(real) -> real,
    start: real,
    step: real,
    count: nat,
)
    requires
        count >= 1,
        forall|index: int|
            0 <= index < count ==> #[trigger] trapezoid_panel_exact(
                f,
                primitive,
                start,
                step,
                index,
            ),
    ensures
        step / 2real * (f(node(start, step, 0)) + f(node(start, step, count as int)) + 2real
            * sum_at_nodes(f, start, step, 1, count as int)) == gain(
            primitive,
            start,
            step,
            0,
            count as int,
        ),
    decreases count,
{
    let half = step / 2real;
    let first = f(node(start, step, 0));
    let last = f(node(start, step, count as int));
    let whole = first + last + 2real * sum_at_nodes(f, start, step, 1, count as int);
    if count == 1 {
        assert(trapezoid_panel_exact(f, primitive, start, step, 0));
        assert(sum_at_nodes(f, start, step, 1, 1) == 0real);
        lemma_congruent(half, whole, first + last);
    } else {
        let before = (count - 1) as nat;
        lemma_trapezoid_telescopes(f, primitive, start, step, before);
        assert(trapezoid_panel_exact(f, primitive, start, step, before as int));
        let joint = f(node(start, step, before as int));
        let inner = sum_at_nodes(f, start, step, 1, before as int);
        assert(sum_at_nodes(f, start, step, 1, count as int) == inner + joint);
        lemma_congruent(half, whole, (first + joint + 2real * inner) + (joint + last));
        lemma_distributes(half, first + joint + 2real * inner, joint + last);
    }
}

/// Pairs of subintervals on which Simpson's rule is exact add up to what the
/// primitive gains over all of them.
pub proof fn lemma_simpson_telescopes(
    f: spec_fn(real) -> real,
    primitive: spec_fn(real) -> real,
    start: real,
    step: real,
    pairs: nat,
)
    requires
        pairs >= 1,
        forall|pair: int|
            0 <= pair < pairs ==> #[trigger] simpson_panel_exact(f, primitive, start, step, pair),
    ensures
        step / 3real * (f(node(start, step, 0)) + 4real * sum_at_parity(
            f,
            start,
            step,
            1,
            1,
            2 * pairs as int,
        ) + 2real * sum_at_parity(f, start, step, 0, 1, 2 * pairs as int) + f(
            node(start, step, 2 * pairs as int),
        )) == gain(primitive, start, step, 0, 2 * pairs as int),
    decreases pairs,
{
    let third = step / 3real;
    let top = 2 * pairs as int;
    let first = f(node(start, step, 0));
    let middle = f(node(start, step, top - 1));
    let last = f(node(start, step, top));
    let odd = sum_at_parity(f, start, step, 1, 1, top);
    let even = sum_at_parity(f, start, step, 0, 1, top);
    let whole = first + 4real * odd + 2real * even + last;
    assert(simpson_panel_exact(f, primitive, start, step, pairs - 1));
    assert(odd == sum_at_parity(f, start, step, 1, 1, top - 2) + middle) by {
        assert(sum_at_parity(f, start, step, 1, 1, top - 1) == sum_at_parity(
            f,
            start,
            step,
            1,
            1,
            top - 2,
        ));
    }
    if pairs == 1 {
        assert(sum_at_parity(f, start, step, 1, 1, 1) == 0real);
        assert(even == 0real) by {
            assert(sum_at_parity(f, start, step, 0, 1, 1) == 0real);
        }
        lemma_congruent(third, whole, first + 4real * middle + last);
    } else {
        let before = (pairs - 1) as nat;
        lemma_simpson_telescopes(f, primitive, start, step, before);
        let joint = f(node(start, step, top - 2));
        let odd_before = sum_at_parity(f, start, step, 1, 1, top - 2);
        let even_before = sum_at_parity(f, start, step, 0, 1, top - 2);
        assert(even == even_before + joint) by {
            assert(sum_at_parity(f, start, step, 0, 1, top - 1) == even_before + joint);
        }
        lemma_congruent(
            third,
            whole,
            (first + 4real * odd_before + 2real * even_before + joint) + (joint + 4real * middle
                + last),
        );
        lemma_distributes(
            third,
            first + 4real * odd_before + 2real * even_before + joint,
            joint + 4real * middle + last,
        );
    }
}

} // verus!
