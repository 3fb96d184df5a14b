//! What holds of the levels of a pattern.

use crate::arithmetic;
use crate::arithmetic::Arithmetic;
use crate::pattern;
use crate::pattern::{PatternView, RumbleKey};
use crate::rounding;
use crate::scalar;
use crate::scalar::Single;
use vstd::prelude::*;

verus! {

/// Both motors are finite at every key.
pub open spec fn finite_levels(keys: Seq<RumbleKey>) -> bool {
    forall|i: int|
        0 <= i < keys.len() ==> (#[trigger] keys[i]).strong.finite() && keys[i].weak.finite()
}

/// Both motors are within `bound` of zero at every key.
pub open spec fn bounded_levels(keys: Seq<RumbleKey>, bound: int) -> bool {
    forall|i: int|
        0 <= i < keys.len() ==> rounding::bounded((#[trigger] keys[i]).strong, bound)
            && rounding::bounded(keys[i].weak, bound)
}

/// The time from a key to a later one is finite.
pub open spec fn finite_spans<M: Arithmetic>(math: &M, keys: Seq<RumbleKey>) -> bool {
    forall|i: int, j: int, span: Single|
        0 <= i < j < keys.len() && #[trigger] arithmetic::difference(
            math,
            keys[j].at,
            keys[i].at,
            span,
        ) ==> span.finite()
}

/// The fraction by which a level is interpolated is from 0 to 1.
proof fn lemma_fraction_in_range<M: Arithmetic>(
    math: &M,
    keys: Seq<RumbleKey>,
    next: int,
    u: Single,
    span: Single,
    f: Single,
)
    requires
        rounding::shares(math),
        pattern::timed(keys),
        finite_spans(math, keys),
        pattern::next_key(keys, u, next),
        !u.nan(),
        arithmetic::difference(math, keys[next].at, keys[next - 1].at, span),
        pattern::fraction(math, keys[next - 1], span, u, f),
    ensures
        (Single { bits: scalar::ZERO }).within(f),
        f.within(Single { bits: scalar::ONE }),
{
    let a = keys[next - 1];
    let b = keys[next];
    assert(a.at.within(u));
    assert(!b.at.nan());
    assert(span.finite());
    if !span.within(Single { bits: scalar::EPSILON }) {
        let d = choose|d: Single| #[trigger]
            arithmetic::difference(math, u, a.at, d) && arithmetic::quotient(math, d, span, f);
        assert(arithmetic::difference(math, u, a.at, d));
        assert(arithmetic::quotient(math, d, span, f));
    }
}

/// A factor of 0 or below silences the pattern at any time: both motors are at
/// zero.
pub proof fn law_a_factor_of_nothing_silences<M: Arithmetic>(
    math: &M,
    factor: Single,
    pattern: PatternView,
    scaled: PatternView,
    t: Single,
    level: (Single, Single),
)
    requires
        rounding::annihilates(math),
        rounding::shares(math),
        factor.nan() || factor.within(Single { bits: scalar::ZERO }),
        pattern::timed(pattern.keys),
        finite_levels(pattern.keys),
        finite_spans(math, pattern.keys),
        pattern::scaled_keys(
            math,
            factor.larger(Single { bits: scalar::ZERO }),
            pattern.keys,
            scaled.keys,
        ),
        scaled.sampled(math, t, level),
    ensures
        level.0.same(Single { bits: scalar::ZERO }),
        level.1.same(Single { bits: scalar::ZERO }),
{
    let zero = Single { bits: scalar::ZERO };
    let keys = scaled.keys;
    assert forall|i: int| 0 <= i < keys.len() implies (#[trigger] keys[i]).strong.same(zero)
        && keys[i].weak.same(zero) by {
        assert(pattern.keys[i].strong.finite());
    }
    if keys.len() > 0 {
        let u = choose|u: Single| #[trigger]
            scaled.wrapped(math, t, u) && scaled.level_at(math, u, level);
        if scaled.inside(u) {
            let next = choose|next: int|
                #[trigger] pattern::next_key(keys, u, next) && pattern::between(
                    math,
                    keys[next - 1],
                    keys[next],
                    u,
                    level,
                );
            let (span, f): (Single, Single) = choose|span: Single, f: Single|
                #[trigger] arithmetic::difference(math, keys[next].at, keys[next - 1].at, span)
                    && #[trigger] pattern::fraction(math, keys[next - 1], span, u, f)
                    && pattern::blend(
                    math,
                    keys[next - 1].strong,
                    keys[next].strong,
                    f,
                    level.0,
                ) && pattern::blend(math, keys[next - 1].weak, keys[next].weak, f, level.1);
            lemma_scaled_times(math, factor.larger(zero), pattern.keys, keys);
            lemma_fraction_in_range(math, keys, next, u, span, f);
            lemma_blend_of_zeros(math, keys[next - 1].strong, keys[next].strong, f, level.0);
            lemma_blend_of_zeros(math, keys[next - 1].weak, keys[next].weak, f, level.1);
        } else {
            assert(keys[0].strong.same(zero));
            assert(keys[keys.len() - 1].strong.same(zero));
        }
    }
}

proof fn lemma_scaled_times<M: Arithmetic>(
    math: &M,
    factor: Single,
    keys: Seq<RumbleKey>,
    scaled: Seq<RumbleKey>,
)
    requires
        pattern::scaled_keys(math, factor, keys, scaled),
        pattern::timed(keys),
        finite_spans(math, keys),
    ensures
        pattern::timed(scaled),
        finite_spans(math, scaled),
{
    assert forall|i: int| 0 <= i < scaled.len() implies !(#[trigger] scaled[i]).at.nan() by {
        assert(!keys[i].at.nan());
    }
    assert forall|i: int, j: int, span: Single|
        0 <= i < j < scaled.len() && #[trigger] arithmetic::difference(
            math,
            scaled[j].at,
            scaled[i].at,
            span,
        ) implies span.finite() by {
        assert(scaled[i].at == keys[i].at);
        assert(scaled[j].at == keys[j].at);
    }
}

proof fn lemma_blend_of_zeros<M: Arithmetic>(
    math: &M,
    a: Single,
    b: Single,
    f: Single,
    r: Single,
)
    requires
        rounding::annihilates(math),
        a.same(Single { bits: scalar::ZERO }),
        b.same(Single { bits: scalar::ZERO }),
        f.finite(),
        pattern::blend(math, a, b, f, r),
    ensures
        r.same(Single { bits: scalar::ZERO }),
{
    let (d, m): (Single, Single) = choose|d: Single, m: Single|
        #[trigger] arithmetic::difference(math, b, a, d) && #[trigger] arithmetic::product(
            math,
            d,
            f,
            m,
        ) && arithmetic::sum(math, a, m, r);
    assert(d.same(Single { bits: scalar::ZERO }));
    assert(m.same(Single { bits: scalar::ZERO }));
}

/// `scaled` is `factor` times `level`, but for rounding that is off by at most
/// `error` at a time, where the factor is at most `reach`.
pub open spec fn nearly_scaled(
    level: Single,
    factor: Single,
    scaled: Single,
    reach: int,
    error: int,
) -> bool {
    rounding::distance(rounding::unit() * scaled.number(), factor.number() * level.number()) <= 6
        * (rounding::unit() * error) + 3 * (reach * error)
}

proof fn lemma_product_bound(x: int, y: int, a: int, b: int)
    by (nonlinear_arith)
    requires
        -a <= x <= a,
        -b <= y <= b,
    ensures
        -(a * b) <= x * y <= a * b,
{
}

/// The rounding of an interpolation and of its scaled counterpart adds up.
proof fn lemma_errors_add_up(
    u: int,
    e: int,
    p: int,
    a: int,
    b: int,
    k: int,
    f: int,
    d: int,
    m: int,
    l: int,
    a2: int,
    b2: int,
    d2: int,
    m2: int,
    l2: int,
)
    requires
        0 < u,
        0 <= e,
        -p <= k <= p,
        0 <= f <= u,
        -e <= d - (b - a) <= e,
        -(u * e) <= u * m - d * f <= u * e,
        -e <= l - (a + m) <= e,
        -(u * e) <= u * a2 - a * k <= u * e,
        -(u * e) <= u * b2 - b * k <= u * e,
        -e <= d2 - (b2 - a2) <= e,
        -(u * e) <= u * m2 - d2 * f <= u * e,
        -e <= l2 - (a2 + m2) <= e,
    ensures
        rounding::distance(u * l2, k * l) <= 6 * (u * e) + 3 * (p * e),
{
    let t1 = d - (b - a);
    let r2 = u * m - d * f;
    let t3 = l - (a + m);
    let r4 = u * a2 - a * k;
    let r5 = u * b2 - b * k;
    let t6 = d2 - (b2 - a2);
    let r7 = u * m2 - d2 * f;
    let t8 = l2 - (a2 + m2);
    lemma_product_bound(k, t1, p, e);
    lemma_product_bound(u, t6, u, e);
    lemma_product_bound(k, t3, p, e);
    lemma_product_bound(u, t8, u, e);
    let slope = u * d2 - k * d;
    assert(slope == r5 - r4 + u * t6 - k * t1) by (nonlinear_arith)
        requires
            slope == u * d2 - k * d,
            t1 == d - (b - a),
            r4 == u * a2 - a * k,
            r5 == u * b2 - b * k,
            t6 == d2 - (b2 - a2),
    ;
    let bound = 3 * (u * e) + p * e;
    assert(-bound <= slope <= bound);
    lemma_product_bound(f, slope, u, bound);
    lemma_product_bound(k, r2, p, u * e);
    lemma_product_bound(u, r7, u, u * e);
    let rise = u * m2 - k * m;
    assert(u * rise == f * slope + u * r7 - k * r2) by {
        let s2 = u * m2;
        let s1 = u * m;
        let w2 = d2 * f;
        let w1 = d * f;
        assert(u * rise == u * s2 - k * s1) by (nonlinear_arith)
            requires
                rise == u * m2 - k * m,
                s2 == u * m2,
                s1 == u * m,
        ;
        assert(u * s2 == u * w2 + u * r7) by (nonlinear_arith)
            requires
                s2 == w2 + r7,
        ;
        assert(k * s1 == k * w1 + k * r2) by (nonlinear_arith)
            requires
                s1 == w1 + r2,
        ;
        assert(f * slope == u * w2 - k * w1) by (nonlinear_arith)
            requires
                slope == u * d2 - k * d,
                w2 == d2 * f,
                w1 == d * f,
        ;
    }
    let limit = 4 * (u * e) + 2 * (p * e);
    assert(u * bound + u * (u * e) + p * (u * e) == u * limit) by (nonlinear_arith)
        requires
            bound == 3 * (u * e) + p * e,
            limit == 4 * (u * e) + 2 * (p * e),
    ;
    assert(-(u * limit) <= u * rise <= u * limit);
    assert(-limit <= rise <= limit) by (nonlinear_arith)
        requires
            0 < u,
            -(u * limit) <= u * rise <= u * limit,
    ;
    assert(u * l2 - k * l == r4 + rise + u * t8 - k * t3) by (nonlinear_arith)
        requires
            r4 == u * a2 - a * k,
            rise == u * m2 - k * m,
            t3 == l - (a + m),
            t8 == l2 - (a2 + m2),
    ;
}

/// What is near `unit` times a value bounds the value.
proof fn lemma_scaled_bound(u: int, e: int, x: int, y: int, limit: int)
    requires
        0 < u,
        -(u * e) <= u * x - y <= u * e,
        -(u * limit) <= y <= u * limit,
    ensures
        -(limit + e) <= x <= limit + e,
{
    assert(u * (limit + e) == u * limit + u * e) by (nonlinear_arith);
    assert(-(limit + e) <= x <= limit + e) by (nonlinear_arith)
        requires
            0 < u,
            -(u * (limit + e)) <= u * x <= u * (limit + e),
    ;
}

/// One motor between two keys.
proof fn lemma_blend_scales<M: Arithmetic>(
    math: &M,
    bound: int,
    error: int,
    reach: int,
    factor: Single,
    a: Single,
    b: Single,
    f: Single,
    level: Single,
    scaled_a: Single,
    scaled_b: Single,
    scaled: Single,
)
    requires
        rounding::rounds(math, bound, error),
        0 <= error,
        0 <= reach,
        2 * rounding::unit() + 2 * reach + 4 * error <= bound,
        rounding::bounded(factor, reach),
        rounding::bounded(a, rounding::unit()),
        rounding::bounded(b, rounding::unit()),
        (Single { bits: scalar::ZERO }).within(f),
        f.within(Single { bits: scalar::ONE }),
        pattern::blend(math, a, b, f, level),
        arithmetic::product(math, a, factor, scaled_a),
        arithmetic::product(math, b, factor, scaled_b),
        pattern::blend(math, scaled_a, scaled_b, f, scaled),
    ensures
        nearly_scaled(level, factor, scaled, reach, error),
{
    let u = rounding::unit();
    let e = error;
    let p = reach;
    scalar::lemma_zero_and_one();
    scalar::law_single_order_is_numeric(Single { bits: scalar::ZERO }, f);
    scalar::law_single_order_is_numeric(f, Single { bits: scalar::ONE });
    let (d, m): (Single, Single) = choose|d: Single, m: Single|
        #[trigger] arithmetic::difference(math, b, a, d) && #[trigger] arithmetic::product(
            math,
            d,
            f,
            m,
        ) && arithmetic::sum(math, a, m, level);
    let (d2, m2): (Single, Single) = choose|d: Single, m: Single|
        #[trigger] arithmetic::difference(math, scaled_b, scaled_a, d)
            && #[trigger] arithmetic::product(math, d, f, m) && arithmetic::sum(
            math,
            scaled_a,
            m,
            scaled,
        );
    assert(rounding::bounded(d, 2 * u + e));
    lemma_product_bound(d.number(), f.number(), 2 * u + e, u);
    assert((2 * u + e) * u == u * (2 * u + e)) by (nonlinear_arith);
    lemma_scaled_bound(u, e, m.number(), d.number() * f.number(), 2 * u + e);
    lemma_product_bound(a.number(), factor.number(), u, p);
    lemma_product_bound(b.number(), factor.number(), u, p);
    lemma_scaled_bound(u, e, scaled_a.number(), a.number() * factor.number(), p);
    lemma_scaled_bound(u, e, scaled_b.number(), b.number() * factor.number(), p);
    assert(rounding::bounded(d2, 2 * p + 3 * e));
    lemma_product_bound(d2.number(), f.number(), 2 * p + 3 * e, u);
    assert((2 * p + 3 * e) * u == u * (2 * p + 3 * e)) by (nonlinear_arith);
    lemma_scaled_bound(u, e, m2.number(), d2.number() * f.number(), 2 * p + 3 * e);
    lemma_errors_add_up(
        u,
        e,
        p,
        a.number(),
        b.number(),
        factor.number(),
        f.number(),
        d.number(),
        m.number(),
        level.number(),
        scaled_a.number(),
        scaled_b.number(),
        d2.number(),
        m2.number(),
        scaled.number(),
    );
}

/// Scaling a pattern scales its level at any time, up to rounding: where each
/// operation is off by at most `error`, the level of the scaled pattern is off
/// by a few times that.
pub proof fn law_scaling_scales_the_level<M: Arithmetic>(
    math: &M,
    bound: int,
    error: int,
    reach: int,
    factor: Single,
    pattern: PatternView,
    scaled: PatternView,
    t: Single,
    level: (Single, Single),
    scaled_level: (Single, Single),
)
    requires
        rounding::settled(math),
        rounding::shares(math),
        rounding::rounds(math, bound, error),
        0 <= error,
        0 <= reach,
        2 * rounding::unit() + 2 * reach + 4 * error <= bound,
        rounding::bounded(factor, reach),
        pattern::timed(pattern.keys),
        bounded_levels(pattern.keys, rounding::unit()),
        finite_spans(math, pattern.keys),
        pattern::scaled_keys(math, factor, pattern.keys, scaled.keys),
        scaled.duration == pattern.duration,
        scaled.repeat == pattern.repeat,
        pattern.sampled(math, t, level),
        scaled.sampled(math, t, scaled_level),
    ensures
        nearly_scaled(level.0, factor, scaled_level.0, reach, error),
        nearly_scaled(level.1, factor, scaled_level.1, reach, error),
{
    scalar::lemma_zero_and_one();
    let keys = pattern.keys;
    let unit = rounding::unit();
    assert(0 <= unit * error) by (nonlinear_arith)
        requires
            0 < unit,
            0 <= error,
    ;
    assert(0 <= reach * error) by (nonlinear_arith)
        requires
            0 <= reach,
            0 <= error,
    ;
    if keys.len() == 0 {
        assert(unit * 0 == 0) by (nonlinear_arith);
        assert(factor.number() * 0 == 0) by (nonlinear_arith);
    } else {
        let u = choose|u: Single| #[trigger]
            pattern.wrapped(math, t, u) && pattern.level_at(math, u, level);
        let v = choose|v: Single| #[trigger]
            scaled.wrapped(math, t, v) && scaled.level_at(math, v, scaled_level);
        assert(u == v);
        if pattern.inside(u) {
            lemma_inside_scales(
                math,
                bound,
                error,
                reach,
                factor,
                keys,
                scaled.keys,
                u,
                level,
                scaled_level,
            );
        } else {
            let i = if u.nan() || u.within(keys[0].at) {
                0
            } else {
                keys.len() - 1
            };
            let a = keys[i];
            let b = scaled.keys[i];
            assert(b.at == a.at);
            assert(scaled.keys[0].at == keys[0].at);
            assert(scaled.keys[keys.len() - 1].at == keys[keys.len() - 1].at);
            assert(level == (a.strong, a.weak));
            assert(scaled_level == (b.strong, b.weak));
            assert(rounding::bounded(a.strong, unit));
            vstd::arithmetic::mul::lemma_mul_is_commutative(a.strong.number(), factor.number());
            vstd::arithmetic::mul::lemma_mul_is_commutative(a.weak.number(), factor.number());
        }
    }
}

proof fn lemma_inside_scales<M: Arithmetic>(
    math: &M,
    bound: int,
    error: int,
    reach: int,
    factor: Single,
    keys: Seq<RumbleKey>,
    scaled: Seq<RumbleKey>,
    u: Single,
    level: (Single, Single),
    scaled_level: (Single, Single),
)
    requires
        rounding::settled(math),
        rounding::shares(math),
        rounding::rounds(math, bound, error),
        0 <= error,
        0 <= reach,
        2 * rounding::unit() + 2 * reach + 4 * error <= bound,
        rounding::bounded(factor, reach),
        pattern::timed(keys),
        bounded_levels(keys, rounding::unit()),
        finite_spans(math, keys),
        pattern::scaled_keys(math, factor, keys, scaled),
        !u.nan(),
        exists|next: int|
            #[trigger] pattern::next_key(keys, u, next) && pattern::between(
                math,
                keys[next - 1],
                keys[next],
                u,
                level,
            ),
        exists|next: int|
            #[trigger] pattern::next_key(scaled, u, next) && pattern::between(
                math,
                scaled[next - 1],
                scaled[next],
                u,
                scaled_level,
            ),
    ensures
        nearly_scaled(level.0, factor, scaled_level.0, reach, error),
        nearly_scaled(level.1, factor, scaled_level.1, reach, error),
{
    let next = choose|next: int|
        #[trigger] pattern::next_key(keys, u, next) && pattern::between(
            math,
            keys[next - 1],
            keys[next],
            u,
            level,
        );
    let other = choose|next: int|
        #[trigger] pattern::next_key(scaled, u, next) && pattern::between(
            math,
            scaled[next - 1],
            scaled[next],
            u,
            scaled_level,
        );
    assert(scaled[next].at == keys[next].at);
    assert(scaled[other].at == keys[other].at);
    if next < other {
        assert(scaled[next].at.within(u));
    } else if other < next {
        assert(keys[other].at.within(u));
    }
    let a = keys[next - 1];
    let b = keys[next];
    let c = scaled[next - 1];
    let d = scaled[next];
    assert(c.at == a.at && d.at == b.at);
    let (span, f): (Single, Single) = choose|span: Single, f: Single|
        #[trigger] arithmetic::difference(math, b.at, a.at, span) && #[trigger] pattern::fraction(
            math,
            a,
            span,
            u,
            f,
        ) && pattern::blend(math, a.strong, b.strong, f, level.0) && pattern::blend(
            math,
            a.weak,
            b.weak,
            f,
            level.1,
        );
    let (span2, f2): (Single, Single) = choose|span: Single, f: Single|
        #[trigger] arithmetic::difference(math, d.at, c.at, span) && #[trigger] pattern::fraction(
            math,
            c,
            span,
            u,
            f,
        ) && pattern::blend(math, c.strong, d.strong, f, scaled_level.0) && pattern::blend(
            math,
            c.weak,
            d.weak,
            f,
            scaled_level.1,
        );
    assert(span == span2);
    assert(f == f2) by {
        if !span.within(Single { bits: scalar::EPSILON }) {
            let x = choose|x: Single| #[trigger]
                arithmetic::difference(math, u, a.at, x) && arithmetic::quotient(
                    math,
                    x,
                    span,
                    f,
                );
            let y = choose|y: Single| #[trigger]
                arithmetic::difference(math, u, c.at, y) && arithmetic::quotient(
                    math,
                    y,
                    span,
                    f2,
                );
            assert(x == y);
        }
    }
    lemma_fraction_in_range(math, keys, next, u, span, f);
    assert(rounding::bounded(a.strong, rounding::unit()));
    assert(rounding::bounded(b.strong, rounding::unit()));
    lemma_blend_scales(
        math,
        bound,
        error,
        reach,
        factor,
        a.strong,
        b.strong,
        f,
        level.0,
        c.strong,
        d.strong,
        scaled_level.0,
    );
    lemma_blend_scales(
        math,
        bound,
        error,
        reach,
        factor,
        a.weak,
        b.weak,
        f,
        level.1,
        c.weak,
        d.weak,
        scaled_level.1,
    );
}

/// A loop repeats with its own duration: a whole number of durations after a
/// time within it, its level is that of the pattern without looping at that
/// time.
pub proof fn law_loops_repeat_with_their_duration<M: Arithmetic>(
    math: &M,
    pattern: PatternView,
    t: Single,
    k: int,
    x: Single,
    level: (Single, Single),
)
    requires
        rounding::wraps(math),
        pattern.repeat,
        rounding::turns(x, pattern.duration, t, k),
        pattern.sampled(math, x, level),
    ensures
        (PatternView { repeat: false, ..pattern }).sampled(math, t, level),
{
    let once = PatternView { repeat: false, ..pattern };
    if pattern.keys.len() > 0 {
        let u = choose|u: Single| #[trigger]
            pattern.wrapped(math, x, u) && pattern.level_at(math, u, level);
        assert((Single { bits: scalar::ZERO }).below(pattern.duration));
        assert(u == t);
        assert(once.wrapped(math, t, t));
        assert(once.level_at(math, t, level));
    }
}

/// Two times a whole number of durations apart give the same level of a loop:
/// what it does at the one it can do at the other.
pub proof fn law_a_loop_is_the_same_in_every_round<M: Arithmetic>(
    math: &M,
    pattern: PatternView,
    t: Single,
    k: int,
    x: Single,
    n: int,
    y: Single,
    r: Single,
    level: (Single, Single),
)
    requires
        rounding::wraps(math),
        pattern.repeat,
        rounding::turns(x, pattern.duration, t, k),
        rounding::turns(y, pattern.duration, t, n),
        arithmetic::remainder(math, y, pattern.duration, r),
        pattern.sampled(math, x, level),
    ensures
        pattern.sampled(math, y, level),
{
    if pattern.keys.len() > 0 {
        let u = choose|u: Single| #[trigger]
            pattern.wrapped(math, x, u) && pattern.level_at(math, u, level);
        assert(r == t);
        assert(pattern.wrapped(math, y, t));
    }
}

/// A loop without a length, and a pattern that does not loop, take a time as it
/// is.
pub proof fn law_only_loops_with_a_length_wrap<M: Arithmetic>(
    math: &M,
    pattern: PatternView,
    t: Single,
    level: (Single, Single),
)
    requires
        !(Single { bits: scalar::ZERO }).below(pattern.duration) || !pattern.repeat,
    ensures
        pattern.sampled(math, t, level) <==> (PatternView { repeat: false, ..pattern }).sampled(
            math,
            t,
            level,
        ),
{
    let once = PatternView { repeat: false, ..pattern };
    if pattern.keys.len() > 0 {
        if pattern.sampled(math, t, level) {
            assert(once.wrapped(math, t, t));
            assert(once.level_at(math, t, level));
        }
        if once.sampled(math, t, level) {
            assert(pattern.wrapped(math, t, t));
            assert(pattern.level_at(math, t, level));
        }
    }
}

/// `level` is `a` moved towards `b` by the fraction `f`, but for rounding that
/// is off by at most `error` at a time.
pub open spec fn nearly_between(
    a: Single,
    b: Single,
    f: Single,
    level: Single,
    error: int,
) -> bool {
    rounding::distance(
        rounding::unit() * level.number(),
        rounding::unit() * a.number() + (b.number() - a.number()) * f.number(),
    ) <= 3 * (rounding::unit() * error)
}

/// Between two neighbouring keys the level is on the line from the one to the
/// other, up to rounding: as far along as the time is from the first key to
/// the second, on both motors alike.
pub proof fn law_levels_run_straight_between_keys<M: Arithmetic>(
    math: &M,
    bound: int,
    error: int,
    pattern: PatternView,
    i: int,
    t: Single,
    level: (Single, Single),
)
    requires
        rounding::shares(math),
        rounding::rounds(math, bound, error),
        0 <= error,
        2 * rounding::unit() + 2 * error <= bound,
        !pattern.repeat,
        pattern::timed(pattern.keys),
        pattern::in_order(pattern.keys),
        bounded_levels(pattern.keys, rounding::unit()),
        finite_spans(math, pattern.keys),
        0 <= i < pattern.keys.len() - 1,
        pattern.keys[0].at.below(t),
        pattern.keys[i].at.within(t),
        t.below(pattern.keys[i + 1].at),
        pattern.sampled(math, t, level),
    ensures
        exists|whole: Single, f: Single|
            #[trigger] arithmetic::difference(
                math,
                pattern.keys[i + 1].at,
                pattern.keys[i].at,
                whole,
            ) && #[trigger] nearly_between(
                pattern.keys[i].strong,
                pattern.keys[i + 1].strong,
                f,
                level.0,
                error,
            ) && nearly_between(
                pattern.keys[i].weak,
                pattern.keys[i + 1].weak,
                f,
                level.1,
                error,
            ) && {
                &&& (Single { bits: scalar::ZERO }).within(f)
                &&& f.within(Single { bits: scalar::ONE })
                &&& !whole.within(Single { bits: scalar::EPSILON }) ==> exists|part: Single|
                    #[trigger] arithmetic::difference(math, t, pattern.keys[i].at, part)
                        && arithmetic::quotient(math, part, whole, f)
                &&& whole.within(Single { bits: scalar::EPSILON }) ==> f.same(
                    Single { bits: scalar::ZERO },
                )
            },
{
    let keys = pattern.keys;
    let u = choose|u: Single| #[trigger]
        pattern.wrapped(math, t, u) && pattern.level_at(math, u, level);
    assert(u == t);
    assert(!keys.last().at.within(t)) by {
        if i + 1 < keys.len() - 1 {
            assert(!keys[keys.len() - 1].at.below(keys[i + 1].at));
        }
    }
    let next = choose|next: int|
        #[trigger] pattern::next_key(keys, t, next) && pattern::between(
            math,
            keys[next - 1],
            keys[next],
            t,
            level,
        );
    if next <= i {
        assert(!keys[next].at.within(t));
        if next < i {
            assert(!keys[i].at.below(keys[next].at));
        }
    } else if i + 1 < next {
        assert(keys[i + 1].at.within(t));
    }
    assert(next == i + 1);
    let a = keys[i];
    let b = keys[i + 1];
    let (whole, f): (Single, Single) = choose|whole: Single, f: Single|
        #[trigger] arithmetic::difference(math, b.at, a.at, whole) && #[trigger] pattern::fraction(
            math,
            a,
            whole,
            t,
            f,
        ) && pattern::blend(math, a.strong, b.strong, f, level.0) && pattern::blend(
            math,
            a.weak,
            b.weak,
            f,
            level.1,
        );
    lemma_fraction_in_range(math, keys, next, t, whole, f);
    lemma_blend_is_straight(math, bound, error, a.strong, b.strong, f, level.0);
    lemma_blend_is_straight(math, bound, error, a.weak, b.weak, f, level.1);
    assert(nearly_between(a.strong, b.strong, f, level.0, error));
    assert(arithmetic::difference(math, b.at, a.at, whole));
}

proof fn lemma_blend_is_straight<M: Arithmetic>(
    math: &M,
    bound: int,
    error: int,
    a: Single,
    b: Single,
    f: Single,
    r: Single,
)
    requires
        rounding::rounds(math, bound, error),
        0 <= error,
        2 * rounding::unit() + 2 * error <= bound,
        rounding::bounded(a, rounding::unit()),
        rounding::bounded(b, rounding::unit()),
        (Single { bits: scalar::ZERO }).within(f),
        f.within(Single { bits: scalar::ONE }),
        pattern::blend(math, a, b, f, r),
    ensures
        nearly_between(a, b, f, r, error),
{
    let u = rounding::unit();
    let e = error;
    scalar::lemma_zero_and_one();
    scalar::law_single_order_is_numeric(Single { bits: scalar::ZERO }, f);
    scalar::law_single_order_is_numeric(f, Single { bits: scalar::ONE });
    let (d, m): (Single, Single) = choose|d: Single, m: Single|
        #[trigger] arithmetic::difference(math, b, a, d) && #[trigger] arithmetic::product(
            math,
            d,
            f,
            m,
        ) && arithmetic::sum(math, a, m, r);
    lemma_product_bound(d.number(), f.number(), 2 * u + e, u);
    assert((2 * u + e) * u == u * (2 * u + e)) by (nonlinear_arith);
    lemma_scaled_bound(u, e, m.number(), d.number() * f.number(), 2 * u + e);
    let t1 = d.number() - (b.number() - a.number());
    let t3 = r.number() - (a.number() + m.number());
    lemma_product_bound(t1, f.number(), e, u);
    assert(e * u == u * e) by (nonlinear_arith);
    lemma_product_bound(u, t3, u, e);
    let gap = b.number() - a.number();
    assert(d.number() * f.number() == gap * f.number() + t1 * f.number()) by (nonlinear_arith)
        requires
            d.number() == gap + t1,
    ;
    assert(u * r.number() == u * a.number() + u * m.number() + u * t3) by (nonlinear_arith)
        requires
            r.number() == a.number() + m.number() + t3,
    ;
}

/// A pattern made of keys with times is as long as its last key is late: no
/// key is after its end, and one is at it.
pub proof fn law_a_pattern_ends_with_its_last_key(keys: Seq<RumbleKey>, pattern: PatternView)
    requires
        pattern::timed(keys),
        keys.len() > 0,
        pattern::made_of(keys, pattern),
    ensures
        forall|i: int|
            0 <= i < keys.len() ==> (#[trigger] keys[i]).at.within(pattern.duration),
        exists|i: int| 0 <= i < keys.len() && (#[trigger] keys[i]).at == pattern.duration,
        pattern.keys.len() == keys.len(),
        !pattern.repeat,
{
    let sorted = pattern.keys;
    keys.to_multiset_ensures();
    sorted.to_multiset_ensures();
    assert forall|i: int| 0 <= i < keys.len() implies (#[trigger] keys[i]).at.within(
        pattern.duration,
    ) by {
        assert(keys.contains(keys[i]));
        assert(sorted.to_multiset().count(keys[i]) > 0);
        assert(sorted.contains(keys[i]));
        let j = choose|j: int| 0 <= j < sorted.len() && sorted[j] == keys[i];
        if j < sorted.len() - 1 {
            assert(!sorted[sorted.len() - 1].at.below(sorted[j].at));
        }
    }
    let last = sorted[sorted.len() - 1];
    assert(sorted.contains(last));
    assert(keys.to_multiset().count(last) > 0);
    assert(keys.contains(last));
    let i = choose|i: int| 0 <= i < keys.len() && keys[i] == last;
    assert(keys[i].at == pattern.duration);
}

/// What the presets feel like. A hit and an explosion start at full strength
/// and are over with their last key. A heartbeat is two thumps of the strong
/// motor with silence after each, and a texture a steady buzz of the weak one.
/// Their keys follow each other, the first one at once.
pub proof fn law_presets_feel_as_they_are_called(
    strength: Single,
    a: Single,
    b: Single,
    c: Single,
)
    ensures
        ({
            let zero = Single { bits: scalar::ZERO };
            let hit = pattern::hit_keys(strength, a, b);
            let explosion = pattern::explosion_keys(strength, a, b, c);
            let heartbeat = pattern::heartbeat_keys(strength, a);
            let texture = pattern::texture_keys(strength);
            &&& ascending(hit) && ascending(explosion) && ascending(heartbeat) && ascending(
                texture,
            )
            &&& hit[0].strong == strength && hit[0].weak == a
            &&& hit[1].strong == strength && hit[1].weak == b
            &&& hit.len() == 3 && hit.last().strong == zero && hit.last().weak == zero
            &&& explosion[0].strong == strength && explosion[0].weak == strength
            &&& explosion[1].strong == a && explosion[1].weak == b
            &&& explosion[2].strong == c
            &&& explosion.len() == 4 && explosion.last().strong == zero && explosion.last().weak
                == zero
            &&& forall|i: int| 0 <= i < heartbeat.len() ==> (#[trigger] heartbeat[i]).weak == zero
            &&& heartbeat.len() == 5 && heartbeat[0].strong == strength && heartbeat[2].strong == a
            &&& heartbeat[1].strong == zero && heartbeat[3].strong == zero && heartbeat[4].strong
                == zero
            &&& forall|i: int|
                0 <= i < texture.len() ==> (#[trigger] texture[i]).weak == strength
                    && texture[i].strong == zero
            &&& texture.len() == 2
        }),
{
}

/// Every key is later than the one before, and the first one is at once.
pub open spec fn ascending(keys: Seq<RumbleKey>) -> bool {
    &&& keys.len() > 0 && keys[0].at.same(Single { bits: scalar::ZERO })
    &&& forall|i: int, j: int|
        0 <= i < j < keys.len() ==> (#[trigger] keys[i]).at.below((#[trigger] keys[j]).at)
}

} // verus!
