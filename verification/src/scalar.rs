//! Floating-point values held by their bits.
//!
//! The library orders, clamps and tests such values, and hands them to an
//! [`Arithmetic`] for everything that rounds. Orders and tests are decided on
//! the bits alone, in the IEEE 754 layout: one sign bit, then the exponent,
//! then the fraction. A value whose exponent is all ones and whose fraction is
//! not zero is a NaN, and compares to nothing.

use vstd::prelude::*;

verus! {

/// The sign bit of a [`Single`].
pub const SINGLE_SIGN: u32 = 0x8000_0000;

/// Infinity as a [`Single`]; every larger magnitude is a NaN.
pub const SINGLE_INFINITY: u32 = 0x7f80_0000;

/// How many fractions share one exponent of a [`Single`].
pub const SINGLE_FRACTIONS: u32 = 0x0080_0000;

/// The sign bit of a [`Double`].
pub const DOUBLE_SIGN: u64 = 0x8000_0000_0000_0000;

/// Infinity as a [`Double`]; every larger magnitude is a NaN.
pub const DOUBLE_INFINITY: u64 = 0x7ff0_0000_0000_0000;

/// How many fractions share one exponent of a [`Double`].
pub const DOUBLE_FRACTIONS: u64 = 0x0010_0000_0000_0000;

/// `0.0` as a [`Single`].
pub const ZERO: u32 = 0;

/// `1.0` as a [`Single`].
pub const ONE: u32 = 0x3f80_0000;

/// The distance from `1.0` to the next larger [`Single`].
pub const EPSILON: u32 = 0x3400_0000;

/// A single-precision value, by its bits.
#[derive(Debug, Clone, Copy)]
pub struct Single {
    /// The IEEE 754 binary32 encoding.
    pub bits: u32,
}

/// A double-precision value, by its bits.
#[derive(Debug, Clone, Copy)]
pub struct Double {
    /// The IEEE 754 binary64 encoding.
    pub bits: u64,
}

/// The number that a finite magnitude encodes, in units of the smallest
/// positive one. `fractions` is how many fractions share one exponent.
pub open spec fn encoded(magnitude: int, fractions: int) -> int {
    let exponent = magnitude / fractions;
    let fraction = magnitude % fractions;
    if exponent == 0 {
        fraction
    } else {
        (fractions + fraction) * vstd::arithmetic::power2::pow2((exponent - 1) as nat)
    }
}

impl Single {
    /// The bits without the sign.
    pub open spec fn magnitude(self) -> int {
        if self.bits < SINGLE_SIGN {
            self.bits as int
        } else {
            self.bits - SINGLE_SIGN
        }
    }

    /// Not a number.
    pub open spec fn nan(self) -> bool {
        self.magnitude() > SINGLE_INFINITY
    }

    /// Where the value stands among all values that are not NaN. Both zeros
    /// stand at 0.
    pub open spec fn rank(self) -> int {
        if self.bits < SINGLE_SIGN {
            self.magnitude()
        } else {
            -self.magnitude()
        }
    }

    /// Neither infinite nor a NaN.
    pub open spec fn finite(self) -> bool {
        self.magnitude() < SINGLE_INFINITY
    }

    /// The number encoded, in units of the smallest positive one.
    pub open spec fn number(self) -> int {
        if self.bits < SINGLE_SIGN {
            encoded(self.magnitude(), SINGLE_FRACTIONS as int)
        } else {
            -encoded(self.magnitude(), SINGLE_FRACTIONS as int)
        }
    }

    /// `self < other`; false where either is a NaN.
    pub open spec fn below(self, other: Single) -> bool {
        !self.nan() && !other.nan() && self.rank() < other.rank()
    }

    /// `self <= other`; false where either is a NaN.
    pub open spec fn within(self, other: Single) -> bool {
        !self.nan() && !other.nan() && self.rank() <= other.rank()
    }

    /// The same number; false where either is a NaN.
    pub open spec fn same(self, other: Single) -> bool {
        !self.nan() && !other.nan() && self.rank() == other.rank()
    }

    /// The larger of the two; a NaN yields to the other.
    pub open spec fn larger(self, other: Single) -> Single {
        if self.nan() || self.below(other) {
            other
        } else {
            self
        }
    }

    /// Moved up to `low` and down to `high`; a NaN stays.
    pub open spec fn clamped(self, low: Single, high: Single) -> Single {
        if self.below(low) {
            low
        } else if high.below(self) {
            high
        } else {
            self
        }
    }

    /// Without its sign.
    pub open spec fn unsigned(self) -> Single {
        if self.bits < SINGLE_SIGN {
            self
        } else {
            Single { bits: (self.bits - SINGLE_SIGN) as u32 }
        }
    }

    /// The value with the given encoding.
    pub fn from_bits(bits: u32) -> (r: Single)
        ensures
            r == (Single { bits }),
    {
        Single { bits }
    }

    /// The encoding of the value.
    pub fn to_bits(self) -> (r: u32)
        ensures
            r == self.bits,
    {
        self.bits
    }

    /// Whether the value is a NaN.
    pub fn is_nan(self) -> (r: bool)
        ensures
            r == self.nan(),
    {
        if self.bits < SINGLE_SIGN {
            self.bits > SINGLE_INFINITY
        } else {
            self.bits - SINGLE_SIGN > SINGLE_INFINITY
        }
    }

    /// Whether the value is neither infinite nor a NaN.
    pub fn is_finite(self) -> (r: bool)
        ensures
            r == self.finite(),
    {
        if self.bits < SINGLE_SIGN {
            self.bits < SINGLE_INFINITY
        } else {
            self.bits - SINGLE_SIGN < SINGLE_INFINITY
        }
    }

    /// `self < other`.
    pub fn less_than(self, other: Single) -> (r: bool)
        ensures
            r == self.below(other),
    {
        if self.is_nan() || other.is_nan() {
            false
        } else if self.bits < SINGLE_SIGN {
            other.bits < SINGLE_SIGN && self.bits < other.bits
        } else if other.bits < SINGLE_SIGN {
            self.bits != SINGLE_SIGN || other.bits != 0
        } else {
            other.bits < self.bits
        }
    }

    /// `self <= other`.
    pub fn at_most(self, other: Single) -> (r: bool)
        ensures
            r == self.within(other),
    {
        !self.is_nan() && !other.is_nan() && !other.less_than(self)
    }

    /// `self == other`, as numbers.
    pub fn equals(self, other: Single) -> (r: bool)
        ensures
            r == self.same(other),
    {
        self.at_most(other) && other.at_most(self)
    }

    /// The larger of the two; a NaN yields to the other.
    pub fn max(self, other: Single) -> (r: Single)
        ensures
            r == self.larger(other),
    {
        if self.is_nan() || self.less_than(other) {
            other
        } else {
            self
        }
    }

    /// Moved up to `low` and down to `high`; a NaN stays.
    pub fn clamp(self, low: Single, high: Single) -> (r: Single)
        requires
            low.within(high),
        ensures
            r == self.clamped(low, high),
    {
        if self.less_than(low) {
            low
        } else if high.less_than(self) {
            high
        } else {
            self
        }
    }

    /// Without its sign.
    pub fn abs(self) -> (r: Single)
        ensures
            r == self.unsigned(),
    {
        if self.bits < SINGLE_SIGN {
            self
        } else {
            Single { bits: self.bits - SINGLE_SIGN }
        }
    }
}

impl Double {
    /// The bits without the sign.
    pub open spec fn magnitude(self) -> int {
        if self.bits < DOUBLE_SIGN {
            self.bits as int
        } else {
            self.bits - DOUBLE_SIGN
        }
    }

    /// Not a number.
    pub open spec fn nan(self) -> bool {
        self.magnitude() > DOUBLE_INFINITY
    }

    /// Where the value stands among all values that are not NaN. Both zeros
    /// stand at 0.
    pub open spec fn rank(self) -> int {
        if self.bits < DOUBLE_SIGN {
            self.magnitude()
        } else {
            -self.magnitude()
        }
    }

    /// Neither infinite nor a NaN.
    pub open spec fn finite(self) -> bool {
        self.magnitude() < DOUBLE_INFINITY
    }

    /// The number encoded, in units of the smallest positive one.
    pub open spec fn number(self) -> int {
        if self.bits < DOUBLE_SIGN {
            encoded(self.magnitude(), DOUBLE_FRACTIONS as int)
        } else {
            -encoded(self.magnitude(), DOUBLE_FRACTIONS as int)
        }
    }

    /// `self < other`; false where either is a NaN.
    pub open spec fn below(self, other: Double) -> bool {
        !self.nan() && !other.nan() && self.rank() < other.rank()
    }

    /// `self <= other`; false where either is a NaN.
    pub open spec fn within(self, other: Double) -> bool {
        !self.nan() && !other.nan() && self.rank() <= other.rank()
    }

    /// The same number; false where either is a NaN.
    pub open spec fn same(self, other: Double) -> bool {
        !self.nan() && !other.nan() && self.rank() == other.rank()
    }

    /// The larger of the two; a NaN yields to the other.
    pub open spec fn larger(self, other: Double) -> Double {
        if self.nan() || self.below(other) {
            other
        } else {
            self
        }
    }

    /// The value with the given encoding.
    pub fn from_bits(bits: u64) -> (r: Double)
        ensures
            r == (Double { bits }),
    {
        Double { bits }
    }

    /// The encoding of the value.
    pub fn to_bits(self) -> (r: u64)
        ensures
            r == self.bits,
    {
        self.bits
    }

    /// Whether the value is a NaN.
    pub fn is_nan(self) -> (r: bool)
        ensures
            r == self.nan(),
    {
        if self.bits < DOUBLE_SIGN {
            self.bits > DOUBLE_INFINITY
        } else {
            self.bits - DOUBLE_SIGN > DOUBLE_INFINITY
        }
    }

    /// `self < other`.
    pub fn less_than(self, other: Double) -> (r: bool)
        ensures
            r == self.below(other),
    {
        if self.is_nan() || other.is_nan() {
            false
        } else if self.bits < DOUBLE_SIGN {
            other.bits < DOUBLE_SIGN && self.bits < other.bits
        } else if other.bits < DOUBLE_SIGN {
            self.bits != DOUBLE_SIGN || other.bits != 0
        } else {
            other.bits < self.bits
        }
    }

    /// `self <= other`.
    pub fn at_most(self, other: Double) -> (r: bool)
        ensures
            r == self.within(other),
    {
        !self.is_nan() && !other.is_nan() && !other.less_than(self)
    }

    /// `self == other`, as numbers.
    pub fn equals(self, other: Double) -> (r: bool)
        ensures
            r == self.same(other),
    {
        self.at_most(other) && other.at_most(self)
    }

    /// The larger of the two; a NaN yields to the other.
    pub fn max(self, other: Double) -> (r: Double)
        ensures
            r == self.larger(other),
    {
        if self.is_nan() || self.less_than(other) {
            other
        } else {
            self
        }
    }
}

/// `==` compares numbers: the two zeros are equal, and a NaN equals nothing.
impl PartialEq for Single {
    fn eq(&self, other: &Single) -> (r: bool) {
        self.equals(*other)
    }
}

impl vstd::std_specs::cmp::PartialEqSpecImpl for Single {
    open spec fn obeys_eq_spec() -> bool {
        true
    }

    open spec fn eq_spec(&self, other: &Single) -> bool {
        self.same(*other)
    }
}

/// `==` compares numbers: the two zeros are equal, and a NaN equals nothing.
impl PartialEq for Double {
    fn eq(&self, other: &Double) -> (r: bool) {
        self.equals(*other)
    }
}

impl vstd::std_specs::cmp::PartialEqSpecImpl for Double {
    open spec fn obeys_eq_spec() -> bool {
        true
    }

    open spec fn eq_spec(&self, other: &Double) -> bool {
        self.same(*other)
    }
}

/// Clamping leaves nothing outside the bounds, and changes nothing inside
/// them: what is below goes to the lower bound, what is above to the upper.
pub proof fn law_clamped_is_within_bounds(value: Single, low: Single, high: Single)
    requires
        !value.nan(),
        low.within(high),
    ensures
        low.within(value.clamped(low, high)),
        value.clamped(low, high).within(high),
        low.within(value) && value.within(high) ==> value.clamped(low, high) == value,
        value.below(low) ==> value.clamped(low, high) == low,
        high.below(value) ==> value.clamped(low, high) == high,
{
}

/// The larger of two values is one of them, and not below a value that is not
/// a NaN. A NaN yields to the other.
pub proof fn law_larger_is_an_upper_bound(a: Single, b: Single)
    ensures
        a.larger(b) == a || a.larger(b) == b,
        !a.nan() ==> a.within(a.larger(b)),
        !b.nan() ==> b.within(a.larger(b)),
        a.nan() ==> a.larger(b) == b,
        b.nan() ==> a.larger(b) == a || a.nan(),
{
}

/// A larger magnitude encodes a larger number.
pub proof fn lemma_encoded_increases(small: int, large: int, fractions: int)
    requires
        0 <= small < large,
        0 < fractions,
    ensures
        encoded(small, fractions) < encoded(large, fractions),
{
    let e1 = small / fractions;
    let f1 = small % fractions;
    let e2 = large / fractions;
    let f2 = large % fractions;
    assert(small == fractions * e1 + f1 && 0 <= f1 < fractions) by (nonlinear_arith)
        requires
            0 < fractions,
            e1 == small / fractions,
            f1 == small % fractions,
    ;
    assert(large == fractions * e2 + f2 && 0 <= f2 < fractions) by (nonlinear_arith)
        requires
            0 < fractions,
            e2 == large / fractions,
            f2 == large % fractions,
    ;
    assert(0 <= e1 <= e2 && (e1 == e2 ==> f1 < f2)) by (nonlinear_arith)
        requires
            0 <= small < large,
            small == fractions * e1 + f1,
            large == fractions * e2 + f2,
            0 <= f1 < fractions,
            0 <= f2 < fractions,
    ;
    if e1 == e2 {
        if e1 > 0 {
            let p = vstd::arithmetic::power2::pow2((e1 - 1) as nat) as int;
            vstd::arithmetic::power2::lemma_pow2_pos((e1 - 1) as nat);
            assert((fractions + f1) * p < (fractions + f2) * p) by (nonlinear_arith)
                requires
                    f1 < f2,
                    0 < p,
            ;
        }
    } else {
        let q = vstd::arithmetic::power2::pow2((e2 - 1) as nat) as int;
        vstd::arithmetic::power2::lemma_pow2_pos((e2 - 1) as nat);
        assert(fractions * q <= (fractions + f2) * q) by (nonlinear_arith)
            requires
                0 <= f2,
                0 < q,
        ;
        if e1 == 0 {
            assert(fractions <= fractions * q) by (nonlinear_arith)
                requires
                    0 < fractions,
                    0 < q,
            ;
        } else {
            let p = vstd::arithmetic::power2::pow2((e1 - 1) as nat) as int;
            vstd::arithmetic::power2::lemma_pow2_pos((e1 - 1) as nat);
            vstd::arithmetic::power2::lemma_pow2_unfold(e1 as nat);
            if e1 < e2 - 1 {
                vstd::arithmetic::power2::lemma_pow2_strictly_increases(e1 as nat, (e2 - 1) as nat);
            }
            assert(2 * p <= q);
            assert((fractions + f1) * p < fractions * q) by (nonlinear_arith)
                requires
                    0 <= f1 < fractions,
                    0 < p,
                    2 * p <= q,
            ;
        }
    }
}

proof fn lemma_encoded_of_zero(fractions: int)
    requires
        0 < fractions,
    ensures
        encoded(0, fractions) == 0,
{
    assert(0int / fractions == 0 && 0int % fractions == 0) by (nonlinear_arith)
        requires
            0 < fractions,
    ;
}

/// Zero encodes 0, and one a positive number.
pub proof fn lemma_zero_and_one()
    ensures
        (Single { bits: ZERO }).number() == 0,
        (Single { bits: ONE }).number() > 0,
{
    lemma_encoded_of_zero(SINGLE_FRACTIONS as int);
    law_single_order_is_numeric(Single { bits: ZERO }, Single { bits: ONE });
}

/// Ranks order finite singles as the numbers they encode.
pub proof fn law_single_order_is_numeric(a: Single, b: Single)
    requires
        a.finite(),
        b.finite(),
    ensures
        a.below(b) <==> a.number() < b.number(),
        a.within(b) <==> a.number() <= b.number(),
        a.same(b) <==> a.number() == b.number(),
{
    lemma_encoded_of_zero(SINGLE_FRACTIONS as int);
    let zero = 0int;
    let m = a.magnitude();
    let n = b.magnitude();
    if m < n {
        lemma_encoded_increases(m, n, SINGLE_FRACTIONS as int);
    }
    if n < m {
        lemma_encoded_increases(n, m, SINGLE_FRACTIONS as int);
    }
    if zero < m {
        lemma_encoded_increases(zero, m, SINGLE_FRACTIONS as int);
    }
    if zero < n {
        lemma_encoded_increases(zero, n, SINGLE_FRACTIONS as int);
    }
}

/// Ranks order finite doubles as the numbers they encode.
pub proof fn law_double_order_is_numeric(a: Double, b: Double)
    requires
        a.finite(),
        b.finite(),
    ensures
        a.below(b) <==> a.number() < b.number(),
        a.within(b) <==> a.number() <= b.number(),
        a.same(b) <==> a.number() == b.number(),
{
    lemma_encoded_of_zero(DOUBLE_FRACTIONS as int);
    let zero = 0int;
    let m = a.magnitude();
    let n = b.magnitude();
    if m < n {
        lemma_encoded_increases(m, n, DOUBLE_FRACTIONS as int);
    }
    if n < m {
        lemma_encoded_increases(n, m, DOUBLE_FRACTIONS as int);
    }
    if zero < m {
        lemma_encoded_increases(zero, m, DOUBLE_FRACTIONS as int);
    }
    if zero < n {
        lemma_encoded_increases(zero, n, DOUBLE_FRACTIONS as int);
    }
}

/// What a value is without its sign: the number itself or its opposite,
/// whichever is not negative.
pub proof fn law_a_magnitude_is_not_negative(value: Single)
    ensures
        value.unsigned().nan() == value.nan(),
        value.unsigned().finite() == value.finite(),
        !value.nan() ==> (Single { bits: ZERO }).within(value.unsigned()),
        (Single { bits: ZERO }).within(value) ==> value.unsigned().same(value),
        value.unsigned().number() == value.number() || value.unsigned().number()
            == -value.number(),
{
}

/// Infinities stand beyond every finite value, and a NaN compares to nothing.
pub proof fn law_infinities_are_the_ends(value: Single, other: Single)
    ensures
        value.finite() ==> value.below(Single { bits: SINGLE_INFINITY }) && (Single {
            bits: (SINGLE_SIGN + SINGLE_INFINITY) as u32,
        }).below(value),
        value.nan() ==> !value.below(other) && !other.below(value) && !value.within(other)
            && !other.within(value) && !value.same(other),
        !value.nan() && !other.nan() ==> value.below(other) || value.same(other) || other.below(
            value,
        ),
{
}

} // verus!
