//! The quadrature rules as data: sample points, weights and orders.

use vstd::prelude::*;
use vstd::arithmetic::power2::{lemma2_to64, pow2};

verus! {

/// Where inside its subinterval the rectangle rule samples the integrand.
#[derive(Clone, Copy, Debug, PartialEq, Eq, Structural)]
pub enum RectangleMode {
    /// At the left bound.
    Left,
    /// Halfway between the bounds.
    Center,
    /// At the right bound.
    Right,
}

/// A quadrature rule.
#[derive(Clone, Copy, Debug, PartialEq, Eq, Structural)]
pub enum Method {
    /// One sample per subinterval, each weighted alike.
    Rectangle(RectangleMode),
    /// The mean of the values at the two bounds of each subinterval.
    Trapezoid,
    /// A parabola through every three neighbouring points; needs an even split count.
    Simpson,
}

impl RectangleMode {
    /// The distance from a subinterval's left bound to its sample, in half steps.
    pub open spec fn spec_half_steps(self) -> nat {
        match self {
            RectangleMode::Left => 0,
            RectangleMode::Center => 1,
            RectangleMode::Right => 2,
        }
    }

    /// The distance from a subinterval's left bound to its sample, in half steps.
    pub fn half_steps(self) -> (halves: u8)
        ensures
            halves == self.spec_half_steps(),
    {
        match self {
            RectangleMode::Left => 0,
            RectangleMode::Center => 1,
            RectangleMode::Right => 2,
        }
    }
}

impl Method {
    /// The exponent `k` with which the rule's error shrinks as the step `h` does: like `h^k`.
    pub open spec fn spec_order(self) -> nat {
        match self {
            Method::Rectangle(_) | Method::Trapezoid => 2,
            Method::Simpson => 4,
        }
    }

    /// The exponent `k` with which the rule's error shrinks as the step `h` does: like `h^k`.
    pub fn order(self) -> (k: u32)
        ensures
            k == self.spec_order(),
    {
        match self {
            Method::Rectangle(_) | Method::Trapezoid => 2,
            Method::Simpson => 4,
        }
    }

    /// What the Runge rule divides the difference of two approximations by: `2^k - 1`.
    pub open spec fn spec_runge_denominator(self) -> nat {
        (pow2(self.spec_order()) - 1) as nat
    }

    /// What the Runge rule divides the difference of two approximations by: `2^k - 1`.
    pub fn runge_denominator(self) -> (denominator: u32)
        ensures
            denominator == self.spec_runge_denominator(),
            denominator == 3 || denominator == 15,
    {
        proof {
            lemma2_to64();
        }
        match self {
            Method::Rectangle(_) | Method::Trapezoid => 3,
            Method::Simpson => 15,
        }
    }

    /// Whether the rule can work on `splits` subintervals: at least one, and
    /// for Simpson's rule an even number of them.
    pub open spec fn spec_admits(self, splits: nat) -> bool {
        splits >= 1 && (self is Simpson ==> splits % 2 == 0)
    }

    /// Whether the rule can work on `splits` subintervals.
    pub fn admits(self, splits: usize) -> (admitted: bool)
        ensures
            admitted == self.spec_admits(splits as nat),
    {
        match self {
            Method::Simpson => splits >= 1 && splits % 2 == 0,
            _ => splits >= 1,
        }
    }

    /// The number by which the step is divided before it multiplies the weighted sum.
    pub open spec fn spec_divisor(self) -> nat {
        match self {
            Method::Rectangle(_) => 1,
            Method::Trapezoid => 2,
            Method::Simpson => 3,
        }
    }

    /// The number by which the step is divided before it multiplies the weighted sum.
    pub fn divisor(self) -> (divisor: u8)
        ensures
            divisor == self.spec_divisor(),
    {
        match self {
            Method::Rectangle(_) => 1,
            Method::Trapezoid => 2,
            Method::Simpson => 3,
        }
    }

    /// The distance from the start of the interval to the first sample, in half steps.
    pub open spec fn spec_half_steps(self) -> nat {
        match self {
            Method::Rectangle(mode) => mode.spec_half_steps(),
            _ => 0,
        }
    }

    /// The distance from the start of the interval to the first sample, in half steps.
    pub fn half_steps(self) -> (halves: u8)
        ensures
            halves == self.spec_half_steps(),
    {
        match self {
            Method::Rectangle(mode) => mode.half_steps(),
            _ => 0,
        }
    }

    /// How many samples the rule takes on `splits` subintervals: one in each
    /// for the rectangle rule, one at each of their bounds for the others.
    pub open spec fn spec_sample_count(self, splits: nat) -> nat {
        match self {
            Method::Rectangle(_) => splits,
            _ => splits + 1,
        }
    }

    /// How many samples the rule takes on `splits` subintervals.
    pub fn sample_count(self, splits: usize) -> (count: usize)
        requires
            splits < usize::MAX,
        ensures
            count == self.spec_sample_count(splits as nat),
    {
        match self {
            Method::Rectangle(_) => splits,
            _ => splits + 1,
        }
    }

    /// The weight of the sample numbered `index`, counted from zero.
    ///
    /// The rectangle rule weighs every sample alike. The trapezoid rule counts
    /// the two ends of the interval once and every point between them twice.
    /// Simpson's rule counts the two ends once, the points of odd number four
    /// times and the others twice.
    pub open spec fn spec_weight(self, splits: nat, index: nat) -> nat {
        match self {
            Method::Rectangle(_) => 1,
            Method::Trapezoid => if index == 0 || index == splits { 1 } else { 2 },
            Method::Simpson => if index == 0 || index == splits {
                1
            } else if index % 2 == 1 {
                4
            } else {
                2
            },
        }
    }

    /// The weight of the sample numbered `index`, counted from zero.
    pub fn weight(self, splits: usize, index: usize) -> (weight: u8)
        ensures
            weight == self.spec_weight(splits as nat, index as nat),
    {
        match self {
            Method::Rectangle(_) => 1,
            Method::Trapezoid => if index == 0 || index == splits { 1 } else { 2 },
            Method::Simpson => if index == 0 || index == splits {
                1
            } else if index % 2 == 1 {
                4
            } else {
                2
            },
        }
    }
}

} // verus!
