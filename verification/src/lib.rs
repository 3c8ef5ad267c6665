//! Adaptive numerical quadrature of a real function of one variable.
//!
//! The crate holds everything about the classical rules (rectangle, trapezoid,
//! Simpson) that is exact: which points a rule samples and with which weights,
//! how the subdivision is refined until two successive approximations agree,
//! and when the refinement gives up. Rounded arithmetic is left to the caller,
//! who evaluates the integrand and sums the samples in whatever number type
//! suits.
//!
//! - `method` describes the rules: the samples, their weights, the order.
//! - `sampling` walks through the samples of a rule and adds them up with
//!   the caller's arithmetic.
//! - `driver` refines the subdivision round by round, and `integrate` runs
//!   the rounds with the caller's approximations until they agree.
//! - `model` says over the real numbers what each rule computes; `sampling`
//!   proves that the samples and weights of `method` add up to it.
//! - `exactness` proves each rule exact on the polynomials it is known for,
//!   and `estimate` that the Runge estimate is the error itself on the
//!   polynomials one degree beyond.
//! - `algebra`, `panels` and `telescoping` carry the arithmetic of those proofs.

pub mod algebra;
pub mod driver;
pub mod estimate;
pub mod exactness;
pub mod integrate;
pub mod method;
pub mod model;
pub mod panels;
pub mod sampling;
pub mod telescoping;
