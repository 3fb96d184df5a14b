//! What some laws ask of an arithmetic.
//!
//! The library asks nothing of the [`Arithmetic`] it is handed. Where a law
//! speaks of numbers rather than of operations, it names here what it needs:
//! facts that IEEE 754 arithmetic has, each on the values it is stated for.

use crate::arithmetic;
use crate::arithmetic::Arithmetic;
use crate::scalar;
use crate::scalar::Single;
use vstd::prelude::*;

verus! {

/// The number one, in units of the smallest positive single.
pub open spec fn unit() -> int {
    (Single { bits: scalar::ONE }).number()
}

/// The distance between two numbers.
pub open spec fn distance(a: int, b: int) -> int {
    if a < b {
        b - a
    } else {
        a - b
    }
}

/// A finite value, at most `bound` away from zero.
pub open spec fn bounded(value: Single, bound: int) -> bool {
    value.finite() && distance(value.number(), 0) <= bound
}

/// Differences, quotients and remainders have one result each.
pub open spec fn settled<M: Arithmetic>(math: &M) -> bool {
    &&& forall|a: Single, b: Single, r: Single, s: Single|
        #[trigger] arithmetic::difference(math, a, b, r) && #[trigger] arithmetic::difference(
            math,
            a,
            b,
            s,
        ) ==> r == s
    &&& forall|a: Single, b: Single, r: Single, s: Single|
        #[trigger] arithmetic::quotient(math, a, b, r) && #[trigger] arithmetic::quotient(
            math,
            a,
            b,
            s,
        ) ==> r == s
    &&& forall|a: Single, b: Single, r: Single, s: Single|
        #[trigger] arithmetic::remainder(math, a, b, r) && #[trigger] arithmetic::remainder(
            math,
            a,
            b,
            s,
        ) ==> r == s
}

/// Sums, differences and products of values up to `bound` are off by at most
/// `error`. Singles are off by at most half the distance between neighbours at
/// the size of the result.
pub open spec fn rounds<M: Arithmetic>(math: &M, bound: int, error: int) -> bool {
    &&& forall|a: Single, b: Single, r: Single| #[trigger]
        arithmetic::sum(math, a, b, r) && bounded(a, bound) && bounded(b, bound) ==> r.finite()
            && distance(r.number(), a.number() + b.number()) <= error
    &&& forall|a: Single, b: Single, r: Single| #[trigger]
        arithmetic::difference(math, a, b, r) && bounded(a, bound) && bounded(b, bound)
            ==> r.finite() && distance(r.number(), a.number() - b.number()) <= error
    &&& forall|a: Single, b: Single, r: Single| #[trigger]
        arithmetic::product(math, a, b, r) && bounded(a, bound) && bounded(b, bound)
            ==> r.finite() && distance(unit() * r.number(), a.number() * b.number()) <= unit()
            * error
}

/// A product with zero is zero, and so are the sum and the difference of two
/// zeros.
pub open spec fn annihilates<M: Arithmetic>(math: &M) -> bool {
    let zero = Single { bits: scalar::ZERO };
    &&& forall|a: Single, b: Single, r: Single| #[trigger]
        arithmetic::product(math, a, b, r) && a.finite() && b.finite() && (a.same(zero) || b.same(
            zero,
        )) ==> r.same(zero)
    &&& forall|a: Single, b: Single, r: Single| #[trigger]
        arithmetic::sum(math, a, b, r) && a.same(zero) && b.same(zero) ==> r.same(zero)
    &&& forall|a: Single, b: Single, r: Single| #[trigger]
        arithmetic::difference(math, a, b, r) && a.same(zero) && b.same(zero) ==> r.same(zero)
}

/// How far a value is from `low` towards `high` is from 0 to 1, where the way
/// between them is finite and not too short to tell.
pub open spec fn shares<M: Arithmetic>(math: &M) -> bool {
    forall|low: Single, value: Single, high: Single, part: Single, whole: Single, share: Single|
        #[trigger] arithmetic::difference(math, value, low, part)
            && #[trigger] arithmetic::difference(math, high, low, whole)
            && #[trigger] arithmetic::quotient(math, part, whole, share) && low.within(value)
            && value.within(high) && whole.finite() && (Single { bits: scalar::EPSILON }).below(
            whole,
        ) ==> (Single { bits: scalar::ZERO }).within(share) && share.within(
            Single { bits: scalar::ONE },
        )
}

/// Lengths and directions make sense: a component that is not finite has no
/// finite length, and a finite length that is not zero divides the components
/// into finite ones.
pub open spec fn measures<M: Arithmetic>(math: &M) -> bool {
    &&& forall|x: Single, y: Single, length: Single| #[trigger]
        arithmetic::norm(math, x, y, length) && length.finite() ==> x.finite() && y.finite()
    &&& forall|x: Single, y: Single, length: Single, r: Single|
        #[trigger] arithmetic::norm(math, x, y, length) && length.finite() && (Single {
            bits: scalar::ZERO,
        }).below(length) && #[trigger] arithmetic::quotient(math, x, length, r) ==> r.finite()
    &&& forall|x: Single, y: Single, length: Single, r: Single|
        #[trigger] arithmetic::norm(math, x, y, length) && length.finite() && (Single {
            bits: scalar::ZERO,
        }).below(length) && #[trigger] arithmetic::quotient(math, y, length, r) ==> r.finite()
}

/// Taking a smaller value that is not negative from a finite one leaves a
/// positive value that is not larger; dividing a finite value by a positive
/// finite one, or multiplying two finite ones, gives a number.
pub open spec fn stays_a_number<M: Arithmetic>(math: &M) -> bool {
    let zero = Single { bits: scalar::ZERO };
    &&& forall|a: Single, b: Single, r: Single| #[trigger]
        arithmetic::difference(math, a, b, r) && a.finite() && zero.within(b) && b.below(a)
            ==> zero.below(r) && r.within(a)
    &&& forall|a: Single, b: Single, r: Single| #[trigger]
        arithmetic::quotient(math, a, b, r) && a.finite() && b.finite() && zero.below(b)
            ==> !r.nan()
    &&& forall|a: Single, b: Single, r: Single| #[trigger]
        arithmetic::product(math, a, b, r) && a.finite() && b.finite() ==> !r.nan()
}

/// The sign bit is clear.
pub open spec fn unsigned(value: Single) -> bool {
    value.bits < scalar::SINGLE_SIGN
}

/// A remainder is exact: a whole number of `d` on top of a `t` below it leaves
/// `t`.
pub open spec fn wraps<M: Arithmetic>(math: &M) -> bool {
    forall|x: Single, d: Single, r: Single, t: Single, k: int|
        #[trigger] arithmetic::remainder(math, x, d, r) && #[trigger] turns(x, d, t, k) ==> r == t
}

/// `x` is `k` times `d` after `t`, which is from 0 to before `d`.
pub open spec fn turns(x: Single, d: Single, t: Single, k: int) -> bool {
    &&& unsigned(x) && unsigned(t)
    &&& x.finite() && d.finite() && t.finite()
    &&& t.below(d)
    &&& 0 <= k
    &&& x.number() == t.number() + k * d.number()
}

/// Taking the same from a larger value leaves no less, and a value over one
/// that is positive and not larger is at least 1.
pub open spec fn ascends<M: Arithmetic>(math: &M) -> bool {
    &&& forall|a: Single, b: Single, c: Single, r: Single, s: Single|
        #[trigger] arithmetic::difference(math, a, c, r) && #[trigger] arithmetic::difference(
            math,
            b,
            c,
            s,
        ) && a.finite() && b.finite() && c.finite() && a.within(b) ==> r.within(s)
    &&& forall|a: Single, b: Single, r: Single| #[trigger]
        arithmetic::quotient(math, a, b, r) && a.finite() && b.finite() && (Single {
            bits: scalar::ZERO,
        }).below(b) && b.within(a) ==> (Single { bits: scalar::ONE }).within(r)
    &&& forall|a: Single, b: Single, c: Single, r: Single, s: Single|
        #[trigger] arithmetic::quotient(math, a, c, r) && #[trigger] arithmetic::quotient(
            math,
            b,
            c,
            s,
        ) && a.finite() && b.finite() && c.finite() && (Single { bits: scalar::ZERO }).below(c)
            && a.within(b) ==> r.within(s)
}

/// How many times the smallest share that counts fits into one.
pub const SHARES: u32 = 0x0080_0000;

/// A value over a positive one keeps its sign, and is no less than the smallest
/// share that counts where it is that share of it; the product of two values
/// that are no less than that share keeps the signs, too.
pub open spec fn keeps_signs<M: Arithmetic>(math: &M) -> bool {
    let zero = Single { bits: scalar::ZERO };
    let least = Single { bits: scalar::EPSILON };
    &&& forall|a: Single, b: Single, r: Single| #[trigger]
        arithmetic::quotient(math, a, b, r) && a.finite() && b.finite() && zero.below(b)
            && SHARES * a.number() >= b.number() ==> least.within(r)
    &&& forall|a: Single, b: Single, r: Single| #[trigger]
        arithmetic::quotient(math, a, b, r) && a.finite() && b.finite() && zero.below(b)
            && -(SHARES * a.number()) >= b.number() ==> least.within(r.unsigned()) && r.below(zero)
    &&& forall|a: Single, b: Single, r: Single| #[trigger]
        arithmetic::product(math, a, b, r) && a.finite() && b.finite() && least.within(b)
            && least.within(a) ==> zero.below(r)
    &&& forall|a: Single, b: Single, r: Single| #[trigger]
        arithmetic::product(math, a, b, r) && a.finite() && b.finite() && least.within(b)
            && least.within(a.unsigned()) && a.below(zero) ==> r.below(zero)
}

} // verus!
