//! The arithmetic that rounds.
//!
//! Nothing in this library adds, multiplies or converts floating-point values
//! itself: it is handed an [`Arithmetic`] and states which operation it put to
//! which values. The methods carry no contract, so what is proved of a caller
//! holds whatever they compute.

use crate::scalar::{Double, Single};
use vstd::prelude::*;

verus! {

/// Floating-point operations.
pub trait Arithmetic {
    /// `a + b`.
    fn plus(&self, a: Single, b: Single) -> Single;

    /// `a - b`.
    fn minus(&self, a: Single, b: Single) -> Single;

    /// `a * b`.
    fn times(&self, a: Single, b: Single) -> Single;

    /// `a / b`.
    fn over(&self, a: Single, b: Single) -> Single;

    /// The remainder of `a` by `b` that is not negative.
    fn rem_euclid(&self, a: Single, b: Single) -> Single;

    /// The length of the vector `(x, y)`.
    fn length(&self, x: Single, y: Single) -> Single;

    /// The vector `(x, y)` scaled to length one, or zero where it has no
    /// direction.
    fn unit(&self, x: Single, y: Single) -> (Single, Single);

    /// `a - b`, in double precision.
    fn double_minus(&self, a: Double, b: Double) -> Double;

    /// The same number in double precision.
    fn widen(&self, a: Single) -> Double;

    /// The nearest number in single precision.
    fn narrow(&self, a: Double) -> Single;
}

/// `r` is what `math` makes of `a + b`.
pub open spec fn sum<M: Arithmetic>(math: &M, a: Single, b: Single, r: Single) -> bool {
    call_ensures(M::plus, (math, a, b), r)
}

/// `r` is what `math` makes of `a - b`.
pub open spec fn difference<M: Arithmetic>(math: &M, a: Single, b: Single, r: Single) -> bool {
    call_ensures(M::minus, (math, a, b), r)
}

/// `r` is what `math` makes of `a * b`.
pub open spec fn product<M: Arithmetic>(math: &M, a: Single, b: Single, r: Single) -> bool {
    call_ensures(M::times, (math, a, b), r)
}

/// `r` is what `math` makes of `a / b`.
pub open spec fn quotient<M: Arithmetic>(math: &M, a: Single, b: Single, r: Single) -> bool {
    call_ensures(M::over, (math, a, b), r)
}

/// `r` is what `math` makes of the remainder of `a` by `b`.
pub open spec fn remainder<M: Arithmetic>(math: &M, a: Single, b: Single, r: Single) -> bool {
    call_ensures(M::rem_euclid, (math, a, b), r)
}

/// `r` is what `math` makes of the length of `(x, y)`.
pub open spec fn norm<M: Arithmetic>(math: &M, x: Single, y: Single, r: Single) -> bool {
    call_ensures(M::length, (math, x, y), r)
}

/// `r` is what `math` makes of `(x, y)` scaled to length one.
pub open spec fn direction<M: Arithmetic>(
    math: &M,
    x: Single,
    y: Single,
    r: (Single, Single),
) -> bool {
    call_ensures(M::unit, (math, x, y), r)
}

/// `r` is what `math` makes of `a - b` in double precision.
pub open spec fn double_difference<M: Arithmetic>(
    math: &M,
    a: Double,
    b: Double,
    r: Double,
) -> bool {
    call_ensures(M::double_minus, (math, a, b), r)
}

/// `r` is what `math` makes of `a` in double precision.
pub open spec fn widened<M: Arithmetic>(math: &M, a: Single, r: Double) -> bool {
    call_ensures(M::widen, (math, a), r)
}

/// `r` is what `math` makes of `a` in single precision.
pub open spec fn narrowed<M: Arithmetic>(math: &M, a: Double, r: Single) -> bool {
    call_ensures(M::narrow, (math, a), r)
}

} // verus!
