//! Envelopes of rumble intensity.

use crate::arithmetic;
use crate::arithmetic::Arithmetic;
use crate::scalar;
use crate::scalar::Single;
use std::sync::Arc;
use vstd::prelude::*;

verus! {

/// `0.05` as a [`Single`].
pub const N_0_05: u32 = 0x3d4c_cccd;

/// `0.08` as a [`Single`].
pub const N_0_08: u32 = 0x3da3_d70a;

/// `0.10` as a [`Single`].
pub const N_0_10: u32 = 0x3dcc_cccd;

/// `0.18` as a [`Single`].
pub const N_0_18: u32 = 0x3e38_51ec;

/// `0.22` as a [`Single`].
pub const N_0_22: u32 = 0x3e61_47ae;

/// `0.25` as a [`Single`].
pub const N_0_25: u32 = 0x3e80_0000;

/// `0.32` as a [`Single`].
pub const N_0_32: u32 = 0x3ea3_d70a;

/// `0.35` as a [`Single`].
pub const N_0_35: u32 = 0x3eb3_3333;

/// `0.45` as a [`Single`].
pub const N_0_45: u32 = 0x3ee6_6666;

/// `0.6` as a [`Single`].
pub const N_0_6: u32 = 0x3f19_999a;

/// `0.7` as a [`Single`].
pub const N_0_7: u32 = 0x3f33_3333;

/// `0.8` as a [`Single`].
pub const N_0_8: u32 = 0x3f4c_cccd;

/// `0.9` as a [`Single`].
pub const N_0_9: u32 = 0x3f66_6666;

/// `1.10` as a [`Single`].
pub const N_1_10: u32 = 0x3f8c_cccd;

/// One point in a rumble envelope.
#[derive(Debug, Clone, Copy, PartialEq)]
pub struct RumbleKey {
    /// Seconds from the start of the pattern.
    pub at: Single,
    /// Low-frequency motor, 0..1. The heavy, thumping one.
    pub strong: Single,
    /// High-frequency motor, 0..1. The buzzy, detailed one.
    pub weak: Single,
}

impl RumbleKey {
    /// A keyframe at `at` seconds with the given motor intensities.
    pub fn new(at: Single, strong: Single, weak: Single) -> (r: RumbleKey)
        ensures
            r == (RumbleKey { at, strong, weak }),
    {
        RumbleKey { at, strong, weak }
    }
}

/// An envelope of rumble intensity over time, interpolated between keys.
///
/// Patterns beat one-shot vibrations because a flat buzz reads as "something
/// happened" and nothing more; a shaped envelope reads as *what* happened.
///
/// Cloning is cheap (the keyframes are shared), so build your patterns once
/// and keep them.
#[derive(Debug, PartialEq)]
pub struct RumblePattern {
    keys: Arc<Vec<RumbleKey>>,
    duration: Single,
    repeat: bool,
}

/// What a [`RumblePattern`] holds.
#[verifier::ext_equal]
pub struct PatternView {
    /// The keyframes.
    pub keys: Seq<RumbleKey>,
    /// Length in seconds.
    pub duration: Single,
    /// Whether playback wraps.
    pub repeat: bool,
}

impl View for RumblePattern {
    type V = PatternView;

    closed spec fn view(&self) -> PatternView {
        PatternView { keys: self.keys@, duration: self.duration, repeat: self.repeat }
    }
}

/// `Arc::clone`: another pointer to the same keyframes.
#[verifier::external_body]
fn share(keys: &Arc<Vec<RumbleKey>>) -> (r: Arc<Vec<RumbleKey>>)
    ensures
        r == *keys,
{
    Arc::clone(keys)
}

impl Clone for RumblePattern {
    fn clone(&self) -> (r: RumblePattern)
        ensures
            r == *self,
    {
        RumblePattern { keys: share(&self.keys), duration: self.duration, repeat: self.repeat }
    }
}

/// Every key has a time.
pub open spec fn timed(keys: Seq<RumbleKey>) -> bool {
    forall|i: int| 0 <= i < keys.len() ==> !(#[trigger] keys[i]).at.nan()
}

/// No key is before one that it follows.
pub open spec fn in_order(keys: Seq<RumbleKey>) -> bool {
    forall|i: int, j: int|
        0 <= i < j < keys.len() ==> !(#[trigger] keys[j]).at.below((#[trigger] keys[i]).at)
}

/// At the time with this rank.
pub open spec fn at_rank(rank: int) -> spec_fn(RumbleKey) -> bool {
    |key: RumbleKey| key.at.rank() == rank
}

/// When the last key is.
pub open spec fn end_of(keys: Seq<RumbleKey>) -> Single {
    if keys.len() == 0 {
        Single { bits: scalar::ZERO }
    } else {
        keys.last().at
    }
}

/// `sorted` holds the keys of `keys`: in order of time, and keys of the same
/// time in the order in which they came. Where a key has no time, only that
/// no key is lost or added.
pub open spec fn arranged(keys: Seq<RumbleKey>, sorted: Seq<RumbleKey>) -> bool {
    &&& sorted.to_multiset() == keys.to_multiset()
    &&& timed(keys) ==> {
        &&& timed(sorted)
        &&& in_order(sorted)
        &&& forall|rank: int| sorted.filter(#[trigger] at_rank(rank)) == keys.filter(at_rank(rank))
    }
    &&& in_order(keys) ==> sorted == keys
}

/// A pattern made of `keys`.
pub open spec fn made_of(keys: Seq<RumbleKey>, pattern: PatternView) -> bool {
    &&& arranged(keys, pattern.keys)
    &&& pattern.duration == end_of(pattern.keys)
    &&& !pattern.repeat
}

/// `r` is `a` moved towards `b` by the fraction `f`.
pub open spec fn blend<M: Arithmetic>(
    math: &M,
    a: Single,
    b: Single,
    f: Single,
    r: Single,
) -> bool {
    exists|d: Single, m: Single|
        #[trigger] arithmetic::difference(math, b, a, d) && #[trigger] arithmetic::product(
            math,
            d,
            f,
            m,
        ) && arithmetic::sum(math, a, m, r)
}

/// `f` is how far `t` is from `a` towards a key that is `span` later; 0 where
/// the keys are too close to tell.
pub open spec fn fraction<M: Arithmetic>(
    math: &M,
    a: RumbleKey,
    span: Single,
    t: Single,
    f: Single,
) -> bool {
    if span.within(Single { bits: scalar::EPSILON }) {
        f == (Single { bits: scalar::ZERO })
    } else {
        exists|d: Single| #[trigger]
            arithmetic::difference(math, t, a.at, d) && arithmetic::quotient(math, d, span, f)
    }
}

/// `level` is the intensity at `t`, between the keys `a` and `b`.
pub open spec fn between<M: Arithmetic>(
    math: &M,
    a: RumbleKey,
    b: RumbleKey,
    t: Single,
    level: (Single, Single),
) -> bool {
    exists|span: Single, f: Single|
        #[trigger] arithmetic::difference(math, b.at, a.at, span) && #[trigger] fraction(
            math,
            a,
            span,
            t,
            f,
        ) && blend(math, a.strong, b.strong, f, level.0) && blend(
            math,
            a.weak,
            b.weak,
            f,
            level.1,
        )
}

/// `next` is the first key that is not at or before `t`.
pub open spec fn next_key(keys: Seq<RumbleKey>, t: Single, next: int) -> bool {
    &&& 0 < next < keys.len()
    &&& !keys[next].at.within(t)
    &&& forall|i: int| 0 <= i < next ==> (#[trigger] keys[i]).at.within(t)
}

impl PatternView {
    /// The first key has a time. A pattern without keys is silent.
    pub open spec fn playable(self) -> bool {
        self.keys.len() > 0 ==> !self.keys[0].at.nan()
    }

    /// The place `u` is behind the first key and before the last.
    pub open spec fn inside(self, u: Single) -> bool {
        &&& self.keys.len() > 0
        &&& !u.nan()
        &&& !u.within(self.keys[0].at)
        &&& !self.keys.last().at.within(u)
    }

    /// There is a level at time `t`: where it falls inside, the first key has
    /// a time to start from.
    pub open spec fn playable_at<M: Arithmetic>(self, math: &M, t: Single) -> bool {
        forall|u: Single| #[trigger]
            self.wrapped(math, t, u) && self.inside(u) ==> !self.keys[0].at.nan()
    }

    /// `answer` says whether there is a level where the time `t` falls.
    pub open spec fn tried<M: Arithmetic>(self, math: &M, t: Single, answer: bool) -> bool {
        exists|u: Single| #[trigger]
            self.wrapped(math, t, u) && answer == (self.inside(u) ==> !self.keys[0].at.nan())
    }

    /// `u` is where in the pattern the time `t` falls.
    pub open spec fn wrapped<M: Arithmetic>(self, math: &M, t: Single, u: Single) -> bool {
        if self.repeat && (Single { bits: scalar::ZERO }).below(self.duration) {
            arithmetic::remainder(math, t, self.duration, u)
        } else {
            u == t
        }
    }

    /// `level` is the intensity at `u`: that of the first key up to it, that of
    /// the last key from it on, interpolated between them.
    pub open spec fn level_at<M: Arithmetic>(
        self,
        math: &M,
        u: Single,
        level: (Single, Single),
    ) -> bool {
        let first = self.keys[0];
        let last = self.keys.last();
        if u.nan() || u.within(first.at) {
            level == (first.strong, first.weak)
        } else if last.at.within(u) {
            level == (last.strong, last.weak)
        } else {
            exists|next: int|
                #[trigger] next_key(self.keys, u, next) && between(
                    math,
                    self.keys[next - 1],
                    self.keys[next],
                    u,
                    level,
                )
        }
    }

    /// `level` is the intensity at time `t`, wrapped where the pattern loops.
    pub open spec fn sampled<M: Arithmetic>(
        self,
        math: &M,
        t: Single,
        level: (Single, Single),
    ) -> bool {
        if self.keys.len() == 0 {
            level == (Single { bits: scalar::ZERO }, Single { bits: scalar::ZERO })
        } else {
            exists|u: Single| #[trigger]
                self.wrapped(math, t, u) && self.level_at(math, u, level)
        }
    }
}

/// Inserting a key behind all keys that are not after it puts it last among
/// those of its time, and moves no others.
proof fn lemma_insert_is_stable(sorted: Seq<RumbleKey>, at: int, key: RumbleKey, rank: int)
    requires
        0 <= at <= sorted.len(),
        forall|i: int| at <= i < sorted.len() ==> key.at.below((#[trigger] sorted[i]).at),
    ensures
        sorted.insert(at, key).filter(at_rank(rank)) == sorted.push(key).filter(at_rank(rank)),
{
    let test = at_rank(rank);
    let head = sorted.take(at);
    let tail = sorted.skip(at);
    let one = seq![key];
    assert(sorted.insert(at, key) == head + one + tail);
    assert(sorted.push(key) == head + tail + one);
    Seq::filter_distributes_over_add(head + one, tail, test);
    Seq::filter_distributes_over_add(head, one, test);
    Seq::filter_distributes_over_add(head + tail, one, test);
    Seq::filter_distributes_over_add(head, tail, test);
    reveal_with_fuel(Seq::filter, 2);
    if test(key) {
        assert forall|i: int| 0 <= i < tail.len() implies !test(#[trigger] tail[i]) by {
            assert(tail[i] == sorted[at + i]);
        }
        lemma_filter_nothing(tail, test);
    } else {
        assert(one.drop_last() == Seq::<RumbleKey>::empty());
        assert(one.filter(test) == Seq::<RumbleKey>::empty());
    }
    assert(sorted.insert(at, key).filter(test) == sorted.push(key).filter(test));
}

proof fn lemma_filter_nothing(keys: Seq<RumbleKey>, test: spec_fn(RumbleKey) -> bool)
    requires
        forall|i: int| 0 <= i < keys.len() ==> !test(#[trigger] keys[i]),
    ensures
        keys.filter(test) == Seq::<RumbleKey>::empty(),
    decreases keys.len(),
{
    reveal(Seq::filter);
    if keys.len() > 0 {
        lemma_filter_nothing(keys.drop_last(), test);
    }
}

/// Sorts keyframes by time, keeping the order of those at the same time.
fn sort_keys(keys: Vec<RumbleKey>) -> (r: Vec<RumbleKey>)
    ensures
        arranged(keys@, r@),
{
    let mut sorted: Vec<RumbleKey> = Vec::new();
    assert(keys@.take(0) == sorted@);
    let mut i: usize = 0;
    while i < keys.len()
        invariant
            i <= keys.len(),
            arranged(keys@.take(i as int), sorted@),
        decreases keys.len() - i,
    {
        let key = keys[i];
        let mut at: usize = sorted.len();
        while at > 0 && key.at.less_than(sorted[at - 1].at)
            invariant
                at <= sorted.len(),
                forall|j: int| at <= j < sorted@.len() ==> key.at.below((#[trigger] sorted@[j]).at),
            decreases at,
        {
            at -= 1;
        }
        let ghost before = sorted@;
        let ghost prefix = keys@.take(i as int);
        sorted.insert(at, key);
        proof {
            assert(keys@.take(i + 1) == prefix.push(key));
            before.to_multiset_ensures();
            prefix.to_multiset_ensures();
            assert(before.insert(at as int, key).to_multiset() == before.to_multiset().insert(key))
                by {
                lemma_insert_multiset(before, at as int, key);
            }
            assert(sorted@.to_multiset() == prefix.push(key).to_multiset());
            if timed(prefix.push(key)) {
                assert forall|j: int| 0 <= j < prefix.len() implies !(
                #[trigger] prefix[j]).at.nan() by {
                    assert(prefix.push(key)[j] == prefix[j]);
                }
                assert(!prefix.push(key)[prefix.len() as int].at.nan());
                assert forall|rank: int| sorted@.filter(#[trigger] at_rank(rank))
                    == prefix.push(key).filter(at_rank(rank)) by {
                    lemma_insert_is_stable(before, at as int, key, rank);
                    lemma_filter_push(before, key, at_rank(rank));
                    lemma_filter_push(prefix, key, at_rank(rank));
                }
                assert(in_order(sorted@)) by {
                    if at > 0 {
                        assert(!key.at.below(before[at - 1].at));
                        assert forall|j: int| 0 <= j < at implies !key.at.below(
                            (#[trigger] before[j]).at,
                        ) by {
                            if j < at - 1 {
                                assert(!before[at - 1].at.below(before[j].at));
                            }
                        }
                    }
                }
            }
            if in_order(prefix.push(key)) {
                assert(in_order(prefix)) by {
                    assert forall|a: int, b: int| 0 <= a < b < prefix.len() implies !(
                    #[trigger] prefix[b]).at.below((#[trigger] prefix[a]).at) by {
                        assert(prefix.push(key)[a] == prefix[a]);
                        assert(prefix.push(key)[b] == prefix[b]);
                    }
                }
                if at < before.len() {
                    let last = (before.len() - 1) as int;
                    assert(key.at.below(before[last].at));
                    assert(prefix.push(key)[last] == before[last]);
                    assert(prefix.push(key)[prefix.len() as int] == key);
                    assert(false);
                }
                assert(sorted@ == prefix.push(key));
            }
        }
        i += 1;
    }
    assert(keys@.take(i as int) == keys@);
    sorted
}

proof fn lemma_filter_push(
    keys: Seq<RumbleKey>,
    key: RumbleKey,
    test: spec_fn(RumbleKey) -> bool,
)
    ensures
        keys.push(key).filter(test) == (if test(key) {
            keys.filter(test).push(key)
        } else {
            keys.filter(test)
        }),
{
    reveal(Seq::filter);
    assert(keys.push(key).drop_last() == keys);
}

proof fn lemma_insert_multiset(keys: Seq<RumbleKey>, at: int, key: RumbleKey)
    requires
        0 <= at <= keys.len(),
    ensures
        keys.insert(at, key).to_multiset() == keys.to_multiset().insert(key),
{
    let head = keys.take(at);
    let tail = keys.skip(at);
    let one = seq![key];
    assert(keys.insert(at, key) == head + (one + tail));
    assert(keys == head + tail);
    vstd::seq_lib::lemma_multiset_commutative(head, one + tail);
    vstd::seq_lib::lemma_multiset_commutative(one, tail);
    vstd::seq_lib::lemma_multiset_commutative(head, tail);
    assert(one == Seq::<RumbleKey>::empty().push(key));
    Seq::<RumbleKey>::empty().to_multiset_ensures();
    one.to_multiset_ensures();
    assert(one.to_multiset() == vstd::multiset::Multiset::<RumbleKey>::empty().insert(key));
    assert(keys.insert(at, key).to_multiset() == keys.to_multiset().insert(key));
}

impl RumblePattern {
    /// Build a pattern from keyframes. They're sorted for you.
    pub fn new(keys: Vec<RumbleKey>) -> (r: RumblePattern)
        ensures
            made_of(keys@, r@),
    {
        let keys = sort_keys(keys);
        let duration = if keys.len() == 0 {
            Single { bits: scalar::ZERO }
        } else {
            keys[keys.len() - 1].at
        };
        RumblePattern { keys: Arc::new(keys), duration, repeat: false }
    }

    /// The keyframes, sorted by time.
    pub fn keys(&self) -> (r: &[RumbleKey])
        ensures
            r@ == self@.keys,
    {
        self.keys.as_slice()
    }

    /// Total length in seconds: the time of the last key.
    pub fn duration(&self) -> (r: Single)
        ensures
            r == self@.duration,
    {
        self.duration
    }

    /// Whether playback wraps instead of ending.
    pub fn repeats(&self) -> (r: bool)
        ensures
            r == self@.repeat,
    {
        self.repeat
    }

    /// Whether the pattern can be played: a first key without a time leaves
    /// nowhere to start from.
    pub fn is_playable(&self) -> (r: bool)
        ensures
            r == self@.playable(),
    {
        self.keys.len() == 0 || !self.keys[0].at.is_nan()
    }

    /// Loop until stopped. Keep the handle from `Rumble::play` so you can stop
    /// it again, or it runs forever.
    pub fn looping(self) -> (r: RumblePattern)
        ensures
            r@ == (PatternView { repeat: true, ..self@ }),
    {
        RumblePattern { keys: self.keys, duration: self.duration, repeat: true }
    }

    /// Where in the pattern a time falls.
    fn place<M: Arithmetic>(&self, t: Single, math: &M) -> (r: Single)
        ensures
            self@.wrapped(math, t, r),
    {
        if self.repeat && (Single { bits: scalar::ZERO }).less_than(self.duration) {
            math.rem_euclid(t, self.duration)
        } else {
            t
        }
    }

    /// Whether there is a level at time `t`. Always so where
    /// [`is_playable`](Self::is_playable); otherwise only outside the keys.
    pub fn can_sample<M: Arithmetic>(&self, t: Single, math: &M) -> (r: bool)
        ensures
            self@.tried(math, t, r),
    {
        let u = self.place(t, math);
        assert(self@.wrapped(math, t, u));
        if self.keys.len() == 0 {
            return true;
        }
        let first = self.keys[0].at;
        let last = self.keys[self.keys.len() - 1].at;
        u.is_nan() || u.at_most(first) || last.at_most(u) || !first.is_nan()
    }

    /// Intensity at time `t`, linearly interpolated.
    pub fn sample<M: Arithmetic>(&self, t: Single, math: &M) -> (r: (Single, Single))
        requires
            self@.playable_at(math, t),
        ensures
            self@.sampled(math, t, r),
    {
        let keys = &self.keys;
        if keys.len() == 0 {
            return (Single { bits: scalar::ZERO }, Single { bits: scalar::ZERO });
        }
        let first = keys[0];
        let last = keys[keys.len() - 1];
        let u = self.place(t, math);
        assert(self@.wrapped(math, t, u));
        if u.is_nan() || u.at_most(first.at) {
            return (first.strong, first.weak);
        }
        if last.at.at_most(u) {
            return (last.strong, last.weak);
        }
        let mut next: usize = 1;
        while next < keys.len() && keys[next].at.at_most(u)
            invariant
                1 <= next <= keys.len(),
                keys@ == self@.keys,
                !keys@.last().at.within(u),
                forall|i: int| 0 <= i < next ==> (#[trigger] keys@[i]).at.within(u),
            decreases keys.len() - next,
        {
            next += 1;
        }
        if next == keys.len() {
            assert(keys@[next - 1].at.within(u));
        }
        assert(next_key(self@.keys, u, next as int));
        let a = keys[next - 1];
        let b = keys[next];
        let span = math.minus(b.at, a.at);
        assert(arithmetic::difference(math, b.at, a.at, span));
        let f = if span.at_most(Single { bits: scalar::EPSILON }) {
            Single { bits: scalar::ZERO }
        } else {
            let d = math.minus(u, a.at);
            assert(arithmetic::difference(math, u, a.at, d));
            math.over(d, span)
        };
        assert(fraction(math, a, span, u, f));
        let level = (lerp(a.strong, b.strong, f, math), lerp(a.weak, b.weak, f, math));
        assert(between(math, a, b, u, level));
        assert(self@.level_at(math, u, level));
        level
    }
}

/// The key at a time given by its bits.
pub open spec fn key_at(at: u32, strong: Single, weak: Single) -> RumbleKey {
    RumbleKey { at: Single { bits: at }, strong, weak }
}

/// The keys of [`RumblePattern::hit`]; the weak motor starts at `weak` and is
/// at `fading` before all goes silent.
pub open spec fn hit_keys(strength: Single, weak: Single, fading: Single) -> Seq<RumbleKey> {
    let zero = Single { bits: scalar::ZERO };
    seq![
        key_at(scalar::ZERO, strength, weak),
        key_at(N_0_05, strength, fading),
        key_at(N_0_18, zero, zero),
    ]
}

/// The keys of [`RumblePattern::explosion`].
pub open spec fn explosion_keys(
    strength: Single,
    slam: Single,
    slam_weak: Single,
    tail: Single,
) -> Seq<RumbleKey> {
    let zero = Single { bits: scalar::ZERO };
    seq![
        key_at(scalar::ZERO, strength, strength),
        key_at(N_0_08, slam, slam_weak),
        key_at(N_0_45, tail, Single { bits: N_0_05 }),
        key_at(N_0_9, zero, zero),
    ]
}

/// The keys of [`RumblePattern::heartbeat`]; the second thump is as strong as
/// `echo`.
pub open spec fn heartbeat_keys(strength: Single, echo: Single) -> Seq<RumbleKey> {
    let zero = Single { bits: scalar::ZERO };
    seq![
        key_at(scalar::ZERO, strength, zero),
        key_at(N_0_10, zero, zero),
        key_at(N_0_22, echo, zero),
        key_at(N_0_32, zero, zero),
        key_at(N_1_10, zero, zero),
    ]
}

/// The keys of [`RumblePattern::texture`].
pub open spec fn texture_keys(strength: Single) -> Seq<RumbleKey> {
    let zero = Single { bits: scalar::ZERO };
    seq![key_at(scalar::ZERO, zero, strength), key_at(N_0_25, zero, strength)]
}

/// `scaled` holds the keys of `keys` at the same times, both motors multiplied
/// by `factor`.
pub open spec fn scaled_keys<M: Arithmetic>(
    math: &M,
    factor: Single,
    keys: Seq<RumbleKey>,
    scaled: Seq<RumbleKey>,
) -> bool {
    &&& scaled.len() == keys.len()
    &&& forall|i: int|
        0 <= i < keys.len() ==> {
            &&& (#[trigger] scaled[i]).at == keys[i].at
            &&& arithmetic::product(math, keys[i].strong, factor, scaled[i].strong)
            &&& arithmetic::product(math, keys[i].weak, factor, scaled[i].weak)
        }
}

impl RumblePattern {
    /// Scale both motors by `factor`, for a weaker or stronger variant of an
    /// existing pattern. A negative factor counts as 0.
    pub fn scaled<M: Arithmetic>(&self, factor: Single, math: &M) -> (r: RumblePattern)
        ensures
            scaled_keys(
                math,
                factor.larger(Single { bits: scalar::ZERO }),
                self@.keys,
                r@.keys,
            ),
            r@.duration == self@.duration,
            r@.repeat == self@.repeat,
    {
        let factor = factor.max(Single { bits: scalar::ZERO });
        let mut keys: Vec<RumbleKey> = Vec::new();
        let mut i: usize = 0;
        while i < self.keys.len()
            invariant
                i <= self.keys.len(),
                keys.len() == i,
                scaled_keys(math, factor, self@.keys.take(i as int), keys@),
            decreases self.keys.len() - i,
        {
            let key = self.keys[i];
            let strong = math.times(key.strong, factor);
            let weak = math.times(key.weak, factor);
            keys.push(RumbleKey { at: key.at, strong, weak });
            i += 1;
        }
        assert(self@.keys.take(i as int) == self@.keys);
        RumblePattern { keys: Arc::new(keys), duration: self.duration, repeat: self.repeat }
    }

    /// Flat intensity for a fixed time.
    pub fn constant(strong: Single, weak: Single, secs: Single) -> (r: RumblePattern)
        ensures
            made_of(
                seq![
                    key_at(scalar::ZERO, strong, weak),
                    RumbleKey { at: secs, strong, weak },
                ],
                r@,
            ),
    {
        let start = Single { bits: scalar::ZERO };
        let mut keys: Vec<RumbleKey> = Vec::new();
        keys.push(RumbleKey::new(start, strong, weak));
        keys.push(RumbleKey::new(secs, strong, weak));
        assert(keys@ == seq![
            key_at(scalar::ZERO, strong, weak),
            RumbleKey { at: secs, strong, weak },
        ]);
        RumblePattern::new(keys)
    }

    /// Sharp attack, quick decay. Melee hits, landing, bumping a wall.
    pub fn hit<M: Arithmetic>(strength: Single, math: &M) -> (r: RumblePattern)
        ensures
            exists|weak: Single, fading: Single|
                #[trigger] arithmetic::product(math, strength, Single { bits: N_0_8 }, weak)
                    && #[trigger] arithmetic::product(
                    math,
                    strength,
                    Single { bits: N_0_6 },
                    fading,
                ) && r@ == (PatternView {
                    keys: hit_keys(strength, weak, fading),
                    duration: Single { bits: N_0_18 },
                    repeat: false,
                }),
    {
        let zero = Single { bits: scalar::ZERO };
        let weak = math.times(strength, Single { bits: N_0_8 });
        let fading = math.times(strength, Single { bits: N_0_6 });
        let mut keys: Vec<RumbleKey> = Vec::new();
        keys.push(RumbleKey::new(zero, strength, weak));
        keys.push(RumbleKey::new(Single { bits: N_0_05 }, strength, fading));
        keys.push(RumbleKey::new(Single { bits: N_0_18 }, zero, zero));
        assert(keys@ == hit_keys(strength, weak, fading));
        assert(in_order(keys@));
        assert(arithmetic::product(math, strength, Single { bits: N_0_8 }, weak));
        assert(arithmetic::product(math, strength, Single { bits: N_0_6 }, fading));
        RumblePattern::new(keys)
    }

    /// Instant slam then a long low rumble-off.
    pub fn explosion<M: Arithmetic>(strength: Single, math: &M) -> (r: RumblePattern)
        ensures
            exists|slam: Single, slam_weak: Single, tail: Single|
                #[trigger] arithmetic::product(math, strength, Single { bits: N_0_9 }, slam)
                    && #[trigger] arithmetic::product(
                    math,
                    strength,
                    Single { bits: N_0_35 },
                    slam_weak,
                ) && #[trigger] arithmetic::product(math, strength, Single { bits: N_0_35 }, tail)
                    && r@ == (PatternView {
                    keys: explosion_keys(strength, slam, slam_weak, tail),
                    duration: Single { bits: N_0_9 },
                    repeat: false,
                }),
    {
        let zero = Single { bits: scalar::ZERO };
        let slam = math.times(strength, Single { bits: N_0_9 });
        let slam_weak = math.times(strength, Single { bits: N_0_35 });
        let tail = math.times(strength, Single { bits: N_0_35 });
        let mut keys: Vec<RumbleKey> = Vec::new();
        keys.push(RumbleKey::new(zero, strength, strength));
        keys.push(RumbleKey::new(Single { bits: N_0_08 }, slam, slam_weak));
        keys.push(RumbleKey::new(Single { bits: N_0_45 }, tail, Single { bits: N_0_05 }));
        keys.push(RumbleKey::new(Single { bits: N_0_9 }, zero, zero));
        assert(keys@ == explosion_keys(strength, slam, slam_weak, tail));
        assert(in_order(keys@));
        assert(arithmetic::product(math, strength, Single { bits: N_0_9 }, slam));
        assert(arithmetic::product(math, strength, Single { bits: N_0_35 }, slam_weak));
        assert(arithmetic::product(math, strength, Single { bits: N_0_35 }, tail));
        RumblePattern::new(keys)
    }

    /// Two soft thumps. Low health, tension, a held breath.
    pub fn heartbeat<M: Arithmetic>(strength: Single, math: &M) -> (r: RumblePattern)
        ensures
            exists|echo: Single|
                #[trigger] arithmetic::product(math, strength, Single { bits: N_0_7 }, echo) && r@
                    == (PatternView {
                    keys: heartbeat_keys(strength, echo),
                    duration: Single { bits: N_1_10 },
                    repeat: false,
                }),
    {
        let zero = Single { bits: scalar::ZERO };
        let echo = math.times(strength, Single { bits: N_0_7 });
        let mut keys: Vec<RumbleKey> = Vec::new();
        keys.push(RumbleKey::new(zero, strength, zero));
        keys.push(RumbleKey::new(Single { bits: N_0_10 }, zero, zero));
        keys.push(RumbleKey::new(Single { bits: N_0_22 }, echo, zero));
        keys.push(RumbleKey::new(Single { bits: N_0_32 }, zero, zero));
        keys.push(RumbleKey::new(Single { bits: N_1_10 }, zero, zero));
        assert(keys@ == heartbeat_keys(strength, echo));
        assert(in_order(keys@));
        assert(arithmetic::product(math, strength, Single { bits: N_0_7 }, echo));
        RumblePattern::new(keys)
    }

    /// Buzz that swells in. Charging a shot, a door grinding open.
    pub fn ramp_up<M: Arithmetic>(strength: Single, secs: Single, math: &M) -> (r: RumblePattern)
        ensures
            exists|peak: Single|
                #[trigger] arithmetic::product(math, strength, Single { bits: N_0_6 }, peak)
                    && made_of(
                    seq![
                        key_at(
                            scalar::ZERO,
                            Single { bits: scalar::ZERO },
                            Single { bits: scalar::ZERO },
                        ),
                        RumbleKey { at: secs, strong: peak, weak: strength },
                    ],
                    r@,
                ),
    {
        let zero = Single { bits: scalar::ZERO };
        let peak = math.times(strength, Single { bits: N_0_6 });
        let mut keys: Vec<RumbleKey> = Vec::new();
        keys.push(RumbleKey::new(zero, zero, zero));
        keys.push(RumbleKey::new(secs, peak, strength));
        assert(keys@ == seq![
            key_at(scalar::ZERO, zero, zero),
            RumbleKey { at: secs, strong: peak, weak: strength },
        ]);
        assert(arithmetic::product(math, strength, Single { bits: N_0_6 }, peak));
        RumblePattern::new(keys)
    }

    /// Light continuous texture: engines, rolling, wind. Loops.
    pub fn texture(strength: Single) -> (r: RumblePattern)
        ensures
            r@ == (PatternView {
                keys: texture_keys(strength),
                duration: Single { bits: N_0_25 },
                repeat: true,
            }),
    {
        let zero = Single { bits: scalar::ZERO };
        let mut keys: Vec<RumbleKey> = Vec::new();
        keys.push(RumbleKey::new(zero, zero, strength));
        keys.push(RumbleKey::new(Single { bits: N_0_25 }, zero, strength));
        assert(keys@ == texture_keys(strength));
        assert(in_order(keys@));
        RumblePattern::new(keys).looping()
    }
}

/// `a + (b - a) * f`.
fn lerp<M: Arithmetic>(a: Single, b: Single, f: Single, math: &M) -> (r: Single)
    ensures
        blend(math, a, b, f, r),
{
    let d = math.minus(b, a);
    let m = math.times(d, f);
    assert(arithmetic::difference(math, b, a, d));
    assert(arithmetic::product(math, d, f, m));
    math.plus(a, m)
}

/// What can be played can be played at any time.
pub proof fn law_playable_patterns_have_a_level_at_any_time<M: Arithmetic>(
    math: &M,
    pattern: PatternView,
    t: Single,
)
    requires
        pattern.playable(),
    ensures
        pattern.playable_at(math, t),
{
}

/// Scaling a pattern scales its ends: up to the first key, and from the last
/// key on, the scaled pattern is at what the arithmetic makes of the level of
/// the pattern times the factor.
pub proof fn law_scaling_scales_the_ends<M: Arithmetic>(
    math: &M,
    factor: Single,
    pattern: PatternView,
    scaled: PatternView,
    u: Single,
    level: (Single, Single),
    scaled_level: (Single, Single),
)
    requires
        pattern.keys.len() > 0,
        scaled_keys(math, factor, pattern.keys, scaled.keys),
        !pattern.inside(u),
        pattern.level_at(math, u, level),
        scaled.level_at(math, u, scaled_level),
    ensures
        arithmetic::product(math, level.0, factor, scaled_level.0),
        arithmetic::product(math, level.1, factor, scaled_level.1),
{
    let last = pattern.keys.len() - 1;
    assert(scaled.keys[0].at == pattern.keys[0].at);
    assert(scaled.keys[last].at == pattern.keys[last].at);
}

/// A pattern made of keys that all have a time can be played, and so can what
/// becomes of it by looping or scaling.
pub proof fn law_timed_keys_are_playable<M: Arithmetic>(
    math: &M,
    keys: Seq<RumbleKey>,
    pattern: PatternView,
    factor: Single,
    scaled: PatternView,
)
    requires
        timed(keys),
        made_of(keys, pattern),
        scaled_keys(math, factor, pattern.keys, scaled.keys),
    ensures
        pattern.playable(),
        (PatternView { repeat: true, ..pattern }).playable(),
        scaled.playable(),
        in_order(scaled.keys),
{
    assert forall|i: int, j: int| 0 <= i < j < scaled.keys.len() implies !(
    #[trigger] scaled.keys[j]).at.below((#[trigger] scaled.keys[i]).at) by {
        assert(!pattern.keys[j].at.below(pattern.keys[i].at));
    }
}

/// Outside its keys a pattern that does not loop holds its ends: up to the
/// first key it is at the first level, from the last key on at the last.
pub proof fn law_ends_are_held<M: Arithmetic>(
    math: &M,
    pattern: PatternView,
    t: Single,
    level: (Single, Single),
)
    requires
        pattern.keys.len() > 0,
        !pattern.repeat,
        pattern.sampled(math, t, level),
    ensures
        t.within(pattern.keys[0].at) ==> level == (pattern.keys[0].strong, pattern.keys[0].weak),
        !t.within(pattern.keys[0].at) && pattern.keys.last().at.within(t) ==> level == (
            pattern.keys.last().strong,
            pattern.keys.last().weak,
        ),
{
}

/// A pattern without keys is silent.
pub proof fn law_an_empty_pattern_is_silent<M: Arithmetic>(
    math: &M,
    pattern: PatternView,
    t: Single,
    level: (Single, Single),
)
    requires
        pattern.keys.len() == 0,
        pattern.sampled(math, t, level),
    ensures
        level == (Single { bits: scalar::ZERO }, Single { bits: scalar::ZERO }),
{
}

/// Where two times fall on the same place of a pattern, it does there what it
/// does at the one at the other.
pub proof fn law_looping_wraps<M: Arithmetic>(
    math: &M,
    pattern: PatternView,
    t: Single,
    later: Single,
    place: Single,
    level: (Single, Single),
)
    requires
        pattern.keys.len() > 0,
        pattern.wrapped(math, t, place),
        pattern.wrapped(math, later, place),
        pattern.level_at(math, place, level),
    ensures
        pattern.sampled(math, t, level),
        pattern.sampled(math, later, level),
{
}

} // verus!
