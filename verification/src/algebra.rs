//! Identities of real arithmetic that the proofs about the rules lean on.
//!
//! The solver takes a product of two unknowns for an unknown of its own, so
//! each step that multiplies out, or moves a factor, is spelled out here.

use vstd::prelude::*;

verus! {

/// The factors of a product may change places.
pub proof fn lemma_commutes(a: real, b: real)
    ensures
        a * b == b * a,
{
    assert(a * b == b * a) by (nonlinear_arith);
}

/// Equal numbers give equal products with `a`.
pub proof fn lemma_congruent(a: real, x: real, y: real)
    requires
        x == y,
    ensures
        a * x == a * y,
{
}

/// Equal factors give equal products.
pub proof fn lemma_same_product(a: real, b: real, x: real, y: real)
    requires
        a == b,
        x == y,
    ensures
        a * x == b * y,
{
}

/// `a` times a sum.
pub proof fn lemma_distributes(a: real, b: real, c: real)
    ensures
        a * (b + c) == a * b + a * c,
{
    assert(a * (b + c) == a * b + a * c) by (nonlinear_arith);
}

/// `k` times a sum of three.
pub proof fn lemma_distributes3(k: real, p: real, q: real, r: real)
    ensures
        k * (p + q + r) == k * p + k * q + k * r,
{
    lemma_distributes(k, p + q, r);
    lemma_distributes(k, p, q);
}

/// `k` times a sum of four.
pub proof fn lemma_distributes4(k: real, p: real, q: real, r: real, s: real)
    ensures
        k * (p + q + r + s) == k * p + k * q + k * r + k * s,
{
    lemma_distributes(k, p + q + r, s);
    lemma_distributes3(k, p, q, r);
}

/// `a` times a difference.
pub proof fn lemma_difference(a: real, p: real, q: real)
    ensures
        a * (p - q) == a * p - a * q,
{
    lemma_distributes(a, p - q, q);
    lemma_congruent(a, (p - q) + q, p);
}

/// In a product of three, a factor may move past its neighbour, and the
/// brackets may move.
pub proof fn lemma_swaps(a: real, b: real, c: real)
    ensures
        a * (b * c) == b * (a * c),
        (a * b) * c == a * (b * c),
{
    assert(a * (b * c) == b * (a * c)) by (nonlinear_arith);
    assert((a * b) * c == a * (b * c)) by (nonlinear_arith);
}

/// If `n * x` is `p - q`, then `n * (a * x)` is `a * p - a * q`.
pub proof fn lemma_scaled_difference(a: real, n: real, x: real, p: real, q: real)
    requires
        n * x == p - q,
    ensures
        n * (a * x) == a * p - a * q,
{
    lemma_swaps(a, n, x);
    lemma_congruent(a, n * x, p - q);
    lemma_difference(a, p, q);
}

/// If `n * x` is `p - q + r`, then `n * (a * x)` is `a * p - a * q + a * r`.
pub proof fn lemma_scaled_combination(a: real, n: real, x: real, p: real, q: real, r: real)
    requires
        n * x == p - q + r,
    ensures
        n * (a * x) == a * p - a * q + a * r,
{
    lemma_swaps(a, n, x);
    lemma_congruent(a, n * x, (p - q) + r);
    lemma_distributes(a, p - q, r);
    lemma_difference(a, p, q);
}

/// If `n * k` is `h`, then `n` times the product of `k` and `t` is the
/// product of `h` and `t`.
pub proof fn lemma_multiple(n: real, k: real, h: real, t: real)
    requires
        n * k == h,
    ensures
        n * (k * t) == h * t,
        n * (t * k) == t * h,
{
    lemma_swaps(n, k, t);
    lemma_swaps(k, n, t);
    assert((n * k) * t == h * t);
    lemma_commutes(k, t);
    lemma_commutes(h, t);
}

/// Half of `h`, times `t`, is half of `h` times `t`.
pub proof fn lemma_half(h: real, t: real)
    ensures
        (h / 2real) * t == (h * t) / 2real,
        t * (h / 2real) == (t * h) / 2real,
{
    lemma_multiple(2real, h / 2real, h, t);
}

/// A third of `h`, times `t`, is a third of `h` times `t`.
pub proof fn lemma_third(h: real, t: real)
    ensures
        (h / 3real) * t == (h * t) / 3real,
        t * (h / 3real) == (t * h) / 3real,
{
    lemma_multiple(3real, h / 3real, h, t);
}

/// `x` over a whole number, with the number written as the real `m`.
pub proof fn lemma_over(x: real, n: nat, m: real)
    requires
        n as real == m,
    ensures
        x / (n as real) == x / m,
{
}

/// The squares of a sum and of a difference.
pub proof fn lemma_squares_around(s: real, t: real)
    ensures
        (s + t) * (s + t) == s * s + 2real * (s * t) + t * t,
        (s - t) * (s - t) == s * s - 2real * (s * t) + t * t,
{
    assert((s + t) * (s + t) == s * s + 2real * (s * t) + t * t) by (nonlinear_arith);
    assert((s - t) * (s - t) == s * s - 2real * (s * t) + t * t) by (nonlinear_arith);
}

/// The fourth power of `x`, as the square of its square.
pub proof fn lemma_fourth_power_is_a_square(x: real)
    ensures
        x * x * x * x == (x * x) * (x * x),
{
    lemma_swaps(x * x, x, x);
}

/// Equal numbers have equal fourth powers.
pub proof fn lemma_same_fourth_power(x: real, y: real)
    requires
        x == y,
    ensures
        x * x * x * x == y * y * y * y,
{
}

} // verus!
