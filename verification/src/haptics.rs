//! Haptics channels: what plays, how it mixes, and when the motors are told.

use crate::arithmetic;
use crate::arithmetic::Arithmetic;
use crate::config::CouchConfig;
use crate::entities;
use crate::pattern;
use crate::pattern::{RumbleKey, RumblePattern};
use crate::player::PlayerDevice;
use crate::scalar;
use crate::scalar::Single;
use bevy_ecs::entity::Entity;
use vstd::prelude::*;

verus! {

/// How long each rumble request lasts: `0.30` as a [`Single`].
pub const EFFECT_DURATION: u32 = 0x3e99_999a;

/// How often a sustained effect is refreshed: `0.15` as a [`Single`].
/// Comfortably shorter than [`EFFECT_DURATION`], so the motors never gap
/// between requests.
pub const REFRESH_INTERVAL: u32 = 0x3e19_999a;

/// Intensity change below this doesn't justify a new request: `0.02` as a
/// [`Single`].
pub const CHANGE_EPSILON: u32 = 0x3ca3_d70a;

/// Identifies one playing effect, so you can stop it without stopping
/// everything else. Returned by [`Rumble::play`].
#[derive(Debug, Clone, Copy, PartialEq, Eq, Hash, Structural)]
pub struct RumbleHandle(u64);

impl RumbleHandle {
    /// The number of the effect.
    pub closed spec fn id(self) -> u64 {
        self.0
    }
}

/// Handles are equal exactly where they stand for the same number.
pub proof fn law_handles_are_their_numbers(a: RumbleHandle, b: RumbleHandle)
    ensures
        a == b <==> a.id() == b.id(),
{
}

/// One effect that plays.
#[derive(Debug)]
pub struct RumbleTrack {
    /// The number by which a [`RumbleHandle`] knows it.
    pub id: u64,
    /// What plays.
    pub pattern: RumblePattern,
    /// For how long it has played.
    pub elapsed: Single,
    /// Its rank among other effects.
    pub priority: u8,
}

impl RumbleTrack {
    /// Loops, or has not run out.
    pub open spec fn alive(self) -> bool {
        self.pattern@.repeat || self.elapsed.within(self.pattern@.duration)
    }
}

impl Clone for RumbleTrack {
    fn clone(&self) -> (r: RumbleTrack)
        ensures
            r == *self,
    {
        RumbleTrack {
            id: self.id,
            pattern: self.pattern.clone(),
            elapsed: self.elapsed,
            priority: self.priority,
        }
    }
}

/// A player's haptics channel. Sits on the player entity, so you request
/// rumble for a *player*, not for a gamepad entity that may not exist anymore.
///
/// **Mixing rule:** only tracks at the highest active priority are audible,
/// and those are combined per-motor with `max`. That keeps a big explosion
/// from being muddied by an idle engine hum, and stops five simultaneous
/// effects from pinning both motors at 1.0, which just feels like noise.
#[derive(Debug)]
pub struct Rumble {
    /// What plays, oldest first.
    pub tracks: Vec<RumbleTrack>,
    /// The number of the next effect.
    pub next_id: u64,
    /// What the motors were last told.
    pub last_sent: (Single, Single),
    /// How long ago.
    pub since_send: Single,
    /// Whether the motors run.
    pub emitting: bool,
    /// Which gamepad `last_sent` describes. Hardware swaps invalidate it.
    pub last_gamepad: Option<Entity>,
}

/// Something to tell the hardware.
#[derive(Debug, Clone, Copy)]
pub enum RumbleRequest {
    /// Stop all effects on a gamepad.
    Stop {
        /// The gamepad.
        gamepad: Entity,
    },
    /// Start an effect on a gamepad, beside those that run there.
    Add {
        /// The gamepad.
        gamepad: Entity,
        /// For how long, in seconds.
        duration: Single,
        /// Intensity of the strong motor.
        strong: Single,
        /// Intensity of the weak motor.
        weak: Single,
    },
}

/// No intensity on either motor.
pub open spec fn silence() -> (Single, Single) {
    (Single { bits: scalar::ZERO }, Single { bits: scalar::ZERO })
}

/// Not the effect with this number.
pub open spec fn other_than(id: u64) -> spec_fn(RumbleTrack) -> bool {
    |track: RumbleTrack| track.id != id
}

/// Every pattern can be sampled.
pub open spec fn playable(tracks: Seq<RumbleTrack>) -> bool {
    forall|i: int| 0 <= i < tracks.len() ==> (#[trigger] tracks[i]).pattern@.playable()
}

/// The numbers of the effects ascend, and are below `next`. So they differ,
/// and none is that of the next effect.
pub open spec fn numbered(tracks: Seq<RumbleTrack>, next: u64) -> bool {
    &&& forall|i: int, j: int|
        0 <= i < j < tracks.len() ==> (#[trigger] tracks[i]).id < (#[trigger] tracks[j]).id
    &&& forall|i: int| 0 <= i < tracks.len() ==> (#[trigger] tracks[i]).id < next
}

/// The effect at `i` goes before the one at `j` when there are too many: its
/// priority is lower, or it is the older of the two.
pub open spec fn expendable(tracks: Seq<RumbleTrack>, i: int, j: int) -> bool {
    tracks[i].priority < tracks[j].priority || (tracks[i].priority == tracks[j].priority && i < j)
}

/// `after` holds the effects of `before` at the places `kept`, as many as fit
/// into the budget, and no effect that is out would have had to stay before
/// one that is in.
pub open spec fn survivors(
    before: Seq<RumbleTrack>,
    max: nat,
    kept: Seq<int>,
    after: Seq<RumbleTrack>,
) -> bool {
    &&& kept.len() == (if before.len() < max {
        before.len()
    } else {
        max
    })
    &&& after.len() == kept.len()
    &&& forall|k: int|
        0 <= k < kept.len() ==> 0 <= #[trigger] kept[k] < before.len() && after[k]
            == before[kept[k]]
    &&& forall|j: int, k: int|
        0 <= j < k < kept.len() ==> #[trigger] kept[j] < #[trigger] kept[k]
    &&& forall|i: int, k: int|
        0 <= i < before.len() && !kept.contains(i) && 0 <= k < kept.len()
            ==> #[trigger] expendable(before, i, #[trigger] kept[k])
}

/// `after` is what a budget of `max` effects leaves of `before`.
pub open spec fn budgeted(before: Seq<RumbleTrack>, max: nat, after: Seq<RumbleTrack>) -> bool {
    exists|kept: Seq<int>| #[trigger] survivors(before, max, kept, after)
}

/// `after` holds the effects of `before`, each older by `dt`.
pub open spec fn aged<M: Arithmetic>(
    math: &M,
    dt: Single,
    before: Seq<RumbleTrack>,
    after: Seq<RumbleTrack>,
) -> bool {
    &&& after.len() == before.len()
    &&& forall|i: int|
        0 <= i < before.len() ==> {
            &&& arithmetic::sum(math, before[i].elapsed, dt, (#[trigger] after[i]).elapsed)
            &&& after[i] == (RumbleTrack { elapsed: after[i].elapsed, ..before[i] })
        }
}

/// Loops, or has not run out.
pub open spec fn living() -> spec_fn(RumbleTrack) -> bool {
    |track: RumbleTrack| track.alive()
}

/// No effect has a higher priority than the one at `i`.
pub open spec fn audible(tracks: Seq<RumbleTrack>, i: int) -> bool {
    forall|j: int|
        0 <= j < tracks.len() ==> (#[trigger] tracks[j]).priority <= tracks[i].priority
}

/// Per motor the largest of the `levels` of the audible effects among the
/// first `n`; 0 where there is none.
pub open spec fn mixed(
    tracks: Seq<RumbleTrack>,
    levels: Seq<(Single, Single)>,
    n: nat,
) -> (Single, Single)
    decreases n,
{
    if n == 0 {
        silence()
    } else {
        let rest = mixed(tracks, levels, (n - 1) as nat);
        if audible(tracks, n - 1) {
            (rest.0.larger(levels[n - 1].0), rest.1.larger(levels[n - 1].1))
        } else {
            rest
        }
    }
}

/// Every audible effect has a level.
pub open spec fn soundable<M: Arithmetic>(math: &M, tracks: Seq<RumbleTrack>) -> bool {
    forall|i: int|
        0 <= i < tracks.len() && audible(tracks, i) ==> (
        #[trigger] tracks[i]).pattern@.playable_at(math, tracks[i].elapsed)
}

/// `answers` says of every audible effect whether it has a level.
pub open spec fn answered<M: Arithmetic>(
    math: &M,
    tracks: Seq<RumbleTrack>,
    answers: Seq<bool>,
) -> bool {
    &&& answers.len() == tracks.len()
    &&& forall|i: int|
        0 <= i < tracks.len() && audible(tracks, i) ==> (#[trigger] tracks[i]).pattern@.tried(
            math,
            tracks[i].elapsed,
            answers[i],
        )
}

/// `answer` says whether every audible effect has a level.
pub open spec fn tried<M: Arithmetic>(math: &M, tracks: Seq<RumbleTrack>, answer: bool) -> bool {
    exists|answers: Seq<bool>|
        #[trigger] answered(math, tracks, answers) && answer == forall|i: int|
            0 <= i < tracks.len() && audible(tracks, i) ==> #[trigger] answers[i]
}

/// `answer` says whether what a frame leaves audible of the effects has a
/// level.
pub open spec fn foreseen<M: Arithmetic>(
    math: &M,
    dt: Single,
    max: nat,
    before: Seq<RumbleTrack>,
    answer: bool,
) -> bool {
    exists|within: Seq<RumbleTrack>, older: Seq<RumbleTrack>|
        #[trigger] budgeted(before, max, within) && #[trigger] aged(math, dt, within, older)
            && tried(math, older.filter(living()), answer)
}

/// `levels` holds the intensity of every audible effect.
pub open spec fn leveled<M: Arithmetic>(
    math: &M,
    tracks: Seq<RumbleTrack>,
    levels: Seq<(Single, Single)>,
) -> bool {
    &&& levels.len() == tracks.len()
    &&& forall|i: int|
        0 <= i < tracks.len() && audible(tracks, i) ==> (
        #[trigger] tracks[i]).pattern@.sampled(math, tracks[i].elapsed, levels[i])
}

/// `level` is the mix of `tracks`.
pub open spec fn mixes<M: Arithmetic>(
    math: &M,
    tracks: Seq<RumbleTrack>,
    level: (Single, Single),
) -> bool {
    exists|levels: Seq<(Single, Single)>|
        #[trigger] leveled(math, tracks, levels) && level == mixed(tracks, levels, tracks.len())
}

/// One frame: the budget is enforced, every effect ages by `dt`, those that
/// ran out go, and `level` is the mix of the rest.
pub open spec fn advanced<M: Arithmetic>(
    math: &M,
    dt: Single,
    max: nat,
    before: Seq<RumbleTrack>,
    after: Seq<RumbleTrack>,
    level: (Single, Single),
) -> bool {
    exists|within: Seq<RumbleTrack>, older: Seq<RumbleTrack>|
        #[trigger] budgeted(before, max, within) && #[trigger] aged(math, dt, within, older)
            && after == older.filter(living()) && mixes(math, after, level)
}

impl Default for Rumble {
    fn default() -> (r: Rumble)
        ensures
            r.tracks@ == Seq::<RumbleTrack>::empty(),
            r.wf(),
            r.counted(),
            r == (Rumble {
                tracks: r.tracks,
                next_id: 0,
                last_sent: silence(),
                since_send: Single { bits: scalar::ZERO },
                emitting: false,
                last_gamepad: None,
            }),
    {
        Rumble {
            tracks: Vec::new(),
            next_id: 0,
            last_sent: (Single { bits: scalar::ZERO }, Single { bits: scalar::ZERO }),
            since_send: Single { bits: scalar::ZERO },
            emitting: false,
            last_gamepad: None,
        }
    }
}

impl Rumble {
    /// Every pattern can be sampled.
    pub open spec fn wf(self) -> bool {
        playable(self.tracks@)
    }

    /// Every effect has a number of its own, below the next. It holds for as
    /// long as the counter has not come round, and every method keeps it.
    pub open spec fn counted(self) -> bool {
        numbered(self.tracks@, self.next_id)
    }

    /// What is left and audible of the effects after a frame has a level: the
    /// channel can be advanced.
    pub open spec fn ready<M: Arithmetic>(self, math: &M, dt: Single, max: nat) -> bool {
        forall|kept: Seq<RumbleTrack>, older: Seq<RumbleTrack>|
            #[trigger] budgeted(self.tracks@, max, kept) && #[trigger] aged(math, dt, kept, older)
                ==> soundable(math, older.filter(living()))
    }

    /// The effect still runs.
    pub open spec fn runs(self, handle: RumbleHandle) -> bool {
        exists|i: int| 0 <= i < self.tracks@.len() && (#[trigger] self.tracks@[i]).id == handle.id()
    }

    /// Whether every pattern can be played; see [`RumblePattern::is_playable`].
    pub fn is_playable(&self) -> (r: bool)
        ensures
            r == self.wf(),
    {
        let mut i: usize = 0;
        while i < self.tracks.len()
            invariant
                i <= self.tracks.len(),
                forall|j: int| 0 <= j < i ==> (#[trigger] self.tracks@[j]).pattern@.playable(),
            decreases self.tracks.len() - i,
        {
            if !self.tracks[i].pattern.is_playable() {
                assert(!self.tracks@[i as int].pattern@.playable());
                return false;
            }
            i += 1;
        }
        true
    }

    /// Queue a pattern at the default priority.
    pub fn play(&mut self, pattern: RumblePattern) -> (r: RumbleHandle)
        ensures
            old(self).plays(pattern, 0, r, *final(self)),
            old(self).wf() && pattern@.playable() ==> final(self).wf(),
            old(self).counted() && old(self).next_id < u64::MAX ==> final(self).counted(),
    {
        self.play_with_priority(pattern, 0)
    }

    /// `after` is this channel with one more effect, which `handle` stands for.
    pub open spec fn plays(
        self,
        pattern: RumblePattern,
        priority: u8,
        handle: RumbleHandle,
        after: Rumble,
    ) -> bool {
        &&& handle.id() == self.next_id
        &&& after.tracks@ == self.tracks@.push(
            RumbleTrack {
                id: self.next_id,
                pattern,
                elapsed: Single { bits: scalar::ZERO },
                priority,
            },
        )
        &&& after == (Rumble {
            tracks: after.tracks,
            next_id: if self.next_id == u64::MAX {
                0
            } else {
                (self.next_id + 1) as u64
            },
            ..self
        })
    }

    /// Queue a pattern that outranks (and silences) lower-priority ones.
    pub fn play_with_priority(&mut self, pattern: RumblePattern, priority: u8) -> (r: RumbleHandle)
        ensures
            old(self).plays(pattern, priority, r, *final(self)),
            old(self).wf() && pattern@.playable() ==> final(self).wf(),
            old(self).counted() && old(self).next_id < u64::MAX ==> final(self).counted(),
    {
        let id: u64 = self.next_id;
        self.next_id = self.next_id.wrapping_add(1);
        let elapsed = Single { bits: scalar::ZERO };
        self.tracks.push(RumbleTrack { id, pattern, elapsed, priority });
        RumbleHandle(id)
    }

    /// One-shot convenience: flat intensity for a duration.
    pub fn pulse(&mut self, strong: Single, weak: Single, secs: Single) -> (r: RumbleHandle)
        ensures
            exists|pattern: RumblePattern|
                #[trigger] old(self).plays(pattern, 0, r, *final(self)) && pattern::made_of(
                    seq![
                        pattern::key_at(scalar::ZERO, strong, weak),
                        RumbleKey { at: secs, strong, weak },
                    ],
                    pattern@,
                ),
            old(self).wf() && !secs.nan() ==> final(self).wf(),
            old(self).counted() && old(self).next_id < u64::MAX ==> final(self).counted(),
    {
        let pattern = RumblePattern::constant(strong, weak, secs);
        proof {
            let keys = seq![
                pattern::key_at(scalar::ZERO, strong, weak),
                RumbleKey { at: secs, strong, weak },
            ];
            if !secs.nan() {
                assert(pattern::timed(keys));
            }
        }
        let ghost before = *self;
        let r = self.play(pattern);
        assert(before.plays(pattern, 0, r, *self));
        r
    }

    /// Stop one effect: the way to end a looping pattern without silencing
    /// everything else. Returns whether it was still playing.
    pub fn stop(&mut self, handle: RumbleHandle) -> (r: bool)
        ensures
            final(self).tracks@ == old(self).tracks@.filter(other_than(handle.id())),
            *final(self) == (Rumble { tracks: final(self).tracks, ..*old(self) }),
            old(self).wf() ==> final(self).wf(),
            old(self).counted() ==> final(self).counted(),
            r == old(self).runs(handle),
    {
        let mut before: Vec<RumbleTrack> = Vec::new();
        std::mem::swap(&mut before, &mut self.tracks);
        let mut found = false;
        let ghost all = before@;
        for track in it: before
            invariant
                it.seq() == all,
                all == old(self).tracks@,
                self.tracks@ == all.take(it.index()).filter(other_than(handle.id())),
                *self == (Rumble { tracks: self.tracks, ..*old(self) }),
                playable(all) ==> playable(self.tracks@),
                found == exists|j: int| 0 <= j < it.index() && (#[trigger] all[j]).id == handle.id(),
        {
            proof {
                let k = it.index();
                assert(all.take(k + 1).drop_last() == all.take(k));
                reveal(Seq::filter);
                assert(all[k] == track);
            }
            if track.id != handle.0 {
                self.tracks.push(track);
            } else {
                found = true;
            }
        }
        assert(all.take(all.len() as int) == all);
        proof {
            if numbered(all, self.next_id) {
                lemma_filter_is_numbered(all, other_than(handle.id()), self.next_id);
            }
        }
        found
    }

    /// Whether a specific effect is still running.
    pub fn is_active(&self, handle: RumbleHandle) -> (r: bool)
        ensures
            r == self.runs(handle),
    {
        let mut i: usize = 0;
        while i < self.tracks.len()
            invariant
                i <= self.tracks.len(),
                forall|j: int| 0 <= j < i ==> (#[trigger] self.tracks@[j]).id != handle.id(),
            decreases self.tracks.len() - i,
        {
            if self.tracks[i].id == handle.0 {
                assert(self.tracks@[i as int].id == handle.id());
                return true;
            }
            i += 1;
        }
        false
    }

    /// Cancel everything on this player, immediately.
    pub fn stop_all(&mut self)
        ensures
            final(self).tracks@ == Seq::<RumbleTrack>::empty(),
            *final(self) == (Rumble { tracks: final(self).tracks, ..*old(self) }),
            final(self).wf(),
            final(self).counted(),
    {
        self.tracks = Vec::new();
    }

    /// Whether any track is still running.
    pub fn is_playing(&self) -> (r: bool)
        ensures
            r == (self.tracks@.len() > 0),
    {
        self.tracks.len() > 0
    }

    /// How many tracks are live, after budget eviction.
    pub fn track_count(&self) -> (r: usize)
        ensures
            r == self.tracks@.len(),
    {
        self.tracks.len()
    }

    /// What the motors were last told, as long as something is playing.
    pub open spec fn felt(self) -> (Single, Single) {
        if self.emitting && self.tracks@.len() > 0 {
            self.last_sent
        } else {
            silence()
        }
    }

    /// The intensity last sent to the motors, as `(strong, weak)`. Handy for a
    /// debug overlay; it is `(0.0, 0.0)` while nothing is playing.
    pub fn current(&self) -> (r: (Single, Single))
        ensures
            r == self.felt(),
    {
        if self.emitting && self.is_playing() {
            self.last_sent
        } else {
            (Single { bits: scalar::ZERO }, Single { bits: scalar::ZERO })
        }
    }

    /// Nothing is known of what the motors do.
    pub open spec fn forgotten(self) -> Rumble {
        Rumble {
            last_sent: silence(),
            since_send: Single { bits: scalar::ZERO },
            emitting: false,
            last_gamepad: None,
            ..self
        }
    }

    /// Forget what we believe the motors are doing. Used when the hardware
    /// goes away or is swapped underneath the player.
    pub fn forget_output(&mut self)
        ensures
            *final(self) == old(self).forgotten(),
    {
        self.last_sent = (Single { bits: scalar::ZERO }, Single { bits: scalar::ZERO });
        self.since_send = Single { bits: scalar::ZERO };
        self.emitting = false;
        self.last_gamepad = None;
    }

    /// Where the lowest-priority (then oldest) track is.
    fn victim(&self) -> (r: usize)
        requires
            self.tracks@.len() > 0,
        ensures
            r < self.tracks@.len(),
            forall|i: int|
                0 <= i < self.tracks@.len() && i != r ==> #[trigger] expendable(
                    self.tracks@,
                    r as int,
                    i,
                ),
    {
        let mut least: usize = 0;
        let mut i: usize = 1;
        while i < self.tracks.len()
            invariant
                least < i <= self.tracks.len(),
                forall|j: int|
                    0 <= j < i && j != least ==> #[trigger] expendable(
                        self.tracks@,
                        least as int,
                        j,
                    ),
            decreases self.tracks.len() - i,
        {
            if self.tracks[i].priority < self.tracks[least].priority {
                assert forall|j: int| 0 <= j < i implies #[trigger] expendable(
                    self.tracks@,
                    i as int,
                    j,
                ) by {
                    assert(j == least || expendable(self.tracks@, least as int, j));
                }
                least = i;
            }
            i += 1;
        }
        least
    }

    /// Drop the lowest-priority (then oldest) tracks over the budget.
    pub fn enforce_budget(&mut self, max: usize)
        ensures
            budgeted(old(self).tracks@, max as nat, final(self).tracks@),
            *final(self) == (Rumble { tracks: final(self).tracks, ..*old(self) }),
            old(self).wf() ==> final(self).wf(),
            old(self).counted() ==> final(self).counted(),
    {
        let ghost before = self.tracks@;
        let ghost mut kept = Seq::new(before.len(), |i: int| i);
        assert forall|i: int| 0 <= i < before.len() implies kept.contains(i) by {
            assert(kept[i] == i);
        }
        while self.tracks.len() > max
            invariant
                before == old(self).tracks@,
                *self == (Rumble { tracks: self.tracks, ..*old(self) }),
                survivors(before, self.tracks@.len(), kept, self.tracks@),
                self.tracks@.len() <= before.len(),
                before.len() <= max ==> self.tracks@.len() == before.len(),
                before.len() > max ==> self.tracks@.len() >= max,
                playable(before) ==> playable(self.tracks@),
            decreases self.tracks.len(),
        {
            let at: usize = self.victim();
            let ghost tracks = self.tracks@;
            self.tracks.remove(at);
            proof {
                let fewer = kept.remove(at as int);
                assert forall|i: int, k: int|
                    0 <= i < before.len() && !fewer.contains(i) && 0 <= k < fewer.len()
                        implies #[trigger] expendable(before, i, #[trigger] fewer[k]) by {
                    let was = if k < at {
                        k
                    } else {
                        k + 1
                    };
                    assert(fewer[k] == kept[was]);
                    if kept.contains(i) {
                        let j = choose|j: int| 0 <= j < kept.len() && kept[j] == i;
                        if j != at {
                            assert(fewer[if j < at {
                                j
                            } else {
                                j - 1
                            }] == i);
                        }
                        assert(expendable(tracks, at as int, was));
                    }
                }
                kept = fewer;
            }
        }
        assert(survivors(before, max as nat, kept, self.tracks@));
        assert(numbered(before, self.next_id) ==> numbered(self.tracks@, self.next_id)) by {
            if numbered(before, self.next_id) {
                assert forall|i: int, j: int| 0 <= i < j < kept.len() implies (
                #[trigger] self.tracks@[i]).id < (#[trigger] self.tracks@[j]).id by {
                    assert(kept[i] < kept[j]);
                    assert(before[kept[i]].id < before[kept[j]].id);
                }
                assert forall|i: int| 0 <= i < kept.len() implies (#[trigger] self.tracks@[i]).id
                    < self.next_id by {
                    assert(before[kept[i]].id < self.next_id);
                }
            }
        }
    }

    /// Let every track grow older by `dt`.
    fn age<M: Arithmetic>(&mut self, dt: Single, math: &M)
        ensures
            aged(math, dt, old(self).tracks@, final(self).tracks@),
            *final(self) == (Rumble { tracks: final(self).tracks, ..*old(self) }),
            old(self).wf() ==> final(self).wf(),
            old(self).counted() ==> final(self).counted(),
    {
        let ghost before = self.tracks@;
        let mut i: usize = 0;
        while i < self.tracks.len()
            invariant
                before == old(self).tracks@,
                *self == (Rumble { tracks: self.tracks, ..*old(self) }),
                i <= self.tracks.len(),
                self.tracks@.len() == before.len(),
                forall|j: int| i <= j < before.len() ==> #[trigger] self.tracks@[j] == before[j],
                forall|j: int|
                    0 <= j < i ==> {
                        &&& arithmetic::sum(
                            math,
                            before[j].elapsed,
                            dt,
                            (#[trigger] self.tracks@[j]).elapsed,
                        )
                        &&& self.tracks@[j] == (RumbleTrack {
                            elapsed: self.tracks@[j].elapsed,
                            ..before[j]
                        })
                    },
            decreases self.tracks.len() - i,
        {
            let elapsed = math.plus(self.tracks[i].elapsed, dt);
            self.tracks[i].elapsed = elapsed;
            i += 1;
        }
        assert(aged(math, dt, before, self.tracks@));
        assert(playable(before) ==> playable(self.tracks@)) by {
            if playable(before) {
                assert forall|j: int| 0 <= j < self.tracks@.len() implies (
                #[trigger] self.tracks@[j]).pattern@.playable() by {
                    assert(before[j].pattern@.playable());
                }
            }
        }
        assert(numbered(before, self.next_id) ==> numbered(self.tracks@, self.next_id)) by {
            if numbered(before, self.next_id) {
                assert forall|j: int, k: int| 0 <= j < k < before.len() implies (
                #[trigger] self.tracks@[j]).id < (#[trigger] self.tracks@[k]).id by {
                    assert(before[j].id < before[k].id);
                }
                assert forall|j: int| 0 <= j < before.len() implies (#[trigger] self.tracks@[j]).id
                    < self.next_id by {
                    assert(before[j].id < self.next_id);
                }
            }
        }
    }

    /// Drop the tracks that ran out.
    fn drop_finished(&mut self)
        ensures
            final(self).tracks@ == old(self).tracks@.filter(living()),
            *final(self) == (Rumble { tracks: final(self).tracks, ..*old(self) }),
            old(self).wf() ==> final(self).wf(),
            old(self).counted() ==> final(self).counted(),
    {
        let mut before: Vec<RumbleTrack> = Vec::new();
        std::mem::swap(&mut before, &mut self.tracks);
        let ghost all = before@;
        for track in it: before
            invariant
                it.seq() == all,
                all == old(self).tracks@,
                self.tracks@ == all.take(it.index()).filter(living()),
                *self == (Rumble { tracks: self.tracks, ..*old(self) }),
                playable(all) ==> playable(self.tracks@),
        {
            proof {
                let k = it.index();
                assert(all.take(k + 1).drop_last() == all.take(k));
                reveal(Seq::filter);
                assert(all[k] == track);
            }
            if track.pattern.repeats() || track.elapsed.at_most(track.pattern.duration()) {
                self.tracks.push(track);
            }
        }
        assert(all.take(all.len() as int) == all);
        proof {
            if numbered(all, self.next_id) {
                lemma_filter_is_numbered(all, living(), self.next_id);
            }
        }
    }

    /// The highest priority of a track; 0 where there is none.
    fn top_priority(&self) -> (r: u8)
        ensures
            forall|i: int|
                0 <= i < self.tracks@.len() ==> (#[trigger] self.tracks@[i]).priority <= r,
            self.tracks@.len() > 0 ==> exists|i: int|
                0 <= i < self.tracks@.len() && (#[trigger] self.tracks@[i]).priority == r,
    {
        let mut top: u8 = 0;
        let mut i: usize = 0;
        while i < self.tracks.len()
            invariant
                i <= self.tracks.len(),
                forall|j: int| 0 <= j < i ==> (#[trigger] self.tracks@[j]).priority <= top,
                i == 0 ==> top == 0,
                i > 0 ==> exists|j: int|
                    0 <= j < i && (#[trigger] self.tracks@[j]).priority == top,
            decreases self.tracks.len() - i,
        {
            let priority: u8 = self.tracks[i].priority;
            if i == 0 || priority > top {
                assert(self.tracks@[i as int].priority == priority);
                top = priority;
            }
            i += 1;
        }
        top
    }

    /// Combine the tracks of the highest priority.
    fn mix<M: Arithmetic>(&self, math: &M) -> (r: (Single, Single))
        requires
            soundable(math, self.tracks@),
        ensures
            mixes(math, self.tracks@, r),
    {
        let top: u8 = self.top_priority();
        let mut strong = Single { bits: scalar::ZERO };
        let mut weak = Single { bits: scalar::ZERO };
        let ghost mut levels: Seq<(Single, Single)> = Seq::empty();
        let mut i: usize = 0;
        while i < self.tracks.len()
            invariant
                soundable(math, self.tracks@),
                i <= self.tracks.len(),
                levels.len() == i,
                forall|j: int|
                    0 <= j < self.tracks@.len() ==> (#[trigger] self.tracks@[j]).priority <= top,
                self.tracks@.len() > 0 ==> exists|j: int|
                    0 <= j < self.tracks@.len() && (#[trigger] self.tracks@[j]).priority == top,
                forall|j: int|
                    0 <= j < i && audible(self.tracks@, j) ==> (
                    #[trigger] self.tracks@[j]).pattern@.sampled(
                        math,
                        self.tracks@[j].elapsed,
                        levels[j],
                    ),
                (strong, weak) == mixed(self.tracks@, levels, i as nat),
            decreases self.tracks.len() - i,
        {
            let track = &self.tracks[i];
            let ghost heard = levels;
            assert(audible(self.tracks@, i as int) == (track.priority == top));
            if track.priority == top {
                let (s, w) = track.pattern.sample(track.elapsed, math);
                strong = strong.max(s);
                weak = weak.max(w);
                proof {
                    levels = heard.push((s, w));
                }
            } else {
                proof {
                    levels = heard.push(silence());
                }
            }
            proof {
                lemma_mixed_prefix(self.tracks@, heard, levels, i as nat);
            }
            i += 1;
        }
        assert(leveled(math, self.tracks@, levels));
        (strong, weak)
    }

    /// Whether every audible track has a level.
    fn can_mix<M: Arithmetic>(&self, math: &M) -> (r: bool)
        ensures
            tried(math, self.tracks@, r),
    {
        let top: u8 = self.top_priority();
        let ghost mut answers: Seq<bool> = Seq::empty();
        let mut all = true;
        let mut i: usize = 0;
        while i < self.tracks.len()
            invariant
                i <= self.tracks.len(),
                answers.len() == i,
                forall|j: int|
                    0 <= j < self.tracks@.len() ==> (#[trigger] self.tracks@[j]).priority <= top,
                self.tracks@.len() > 0 ==> exists|j: int|
                    0 <= j < self.tracks@.len() && (#[trigger] self.tracks@[j]).priority == top,
                forall|j: int|
                    0 <= j < i && audible(self.tracks@, j) ==> (
                    #[trigger] self.tracks@[j]).pattern@.tried(
                        math,
                        self.tracks@[j].elapsed,
                        answers[j],
                    ),
                all == forall|j: int|
                    0 <= j < i && audible(self.tracks@, j) ==> #[trigger] answers[j],
            decreases self.tracks.len() - i,
        {
            let track = &self.tracks[i];
            let ghost before = answers;
            assert(audible(self.tracks@, i as int) == (track.priority == top));
            if track.priority == top {
                let answer = track.pattern.can_sample(track.elapsed, math);
                proof {
                    answers = before.push(answer);
                }
                all = all && answer;
            } else {
                proof {
                    answers = before.push(true);
                }
            }
            proof {
                assert(answers[i as int] == answers.last());
                assert forall|j: int| 0 <= j < i implies #[trigger] answers[j] == before[j] by {}
                if exists|j: int| 0 <= j < i && audible(self.tracks@, j) && !before[j] {
                    let j = choose|j: int|
                        0 <= j < i && audible(self.tracks@, j) && !before[j];
                    assert(!answers[j]);
                }
            }
            i += 1;
        }
        assert(answered(math, self.tracks@, answers));
        all
    }

    /// Whether the channel can be [advanced](Self::advance): whatever is left
    /// and audible after the frame has a level. Always so where
    /// [`is_playable`](Self::is_playable).
    pub fn can_advance<M: Arithmetic>(&self, dt: Single, max_tracks: usize, math: &M) -> (r: bool)
        ensures
            foreseen(math, dt, max_tracks as nat, self.tracks@, r),
    {
        let mut trial = Rumble::default();
        let mut i: usize = 0;
        while i < self.tracks.len()
            invariant
                i <= self.tracks.len(),
                trial.tracks@ == self.tracks@.take(i as int),
            decreases self.tracks.len() - i,
        {
            trial.tracks.push(self.tracks[i].clone());
            i += 1;
        }
        assert(self.tracks@.take(i as int) == self.tracks@);
        trial.enforce_budget(max_tracks);
        let ghost within = trial.tracks@;
        trial.age(dt, math);
        let ghost older = trial.tracks@;
        trial.drop_finished();
        assert(budgeted(self.tracks@, max_tracks as nat, within));
        assert(aged(math, dt, within, older));
        trial.can_mix(math)
    }

    /// Advance and mix. Returns the intensity for this frame.
    pub fn advance<M: Arithmetic>(&mut self, dt: Single, max_tracks: usize, math: &M) -> (r: (
        Single,
        Single,
    ))
        requires
            old(self).ready(math, dt, max_tracks as nat),
        ensures
            advanced(math, dt, max_tracks as nat, old(self).tracks@, final(self).tracks@, r),
            *final(self) == (Rumble { tracks: final(self).tracks, ..*old(self) }),
            old(self).wf() ==> final(self).wf(),
            old(self).counted() ==> final(self).counted(),
    {
        let ghost before = self.tracks@;
        self.enforce_budget(max_tracks);
        let ghost within = self.tracks@;
        self.age(dt, math);
        let ghost older = self.tracks@;
        self.drop_finished();
        assert(budgeted(before, max_tracks as nat, within));
        assert(aged(math, dt, within, older));
        self.mix(math)
    }
}

/// Taking effects out keeps the numbers of the others in order.
proof fn lemma_filter_is_numbered(
    tracks: Seq<RumbleTrack>,
    test: spec_fn(RumbleTrack) -> bool,
    next: u64,
)
    requires
        numbered(tracks, next),
    ensures
        numbered(tracks.filter(test), next),
    decreases tracks.len(),
{
    reveal(Seq::filter);
    if tracks.len() > 0 {
        let rest = tracks.drop_last();
        let last = tracks.last();
        assert forall|i: int| 0 <= i < rest.len() implies (#[trigger] rest[i]).id < last.id by {
            assert(tracks[i].id < tracks[tracks.len() - 1].id);
        }
        lemma_filter_is_numbered(rest, test, last.id);
        assert(tracks[tracks.len() - 1].id < next);
    }
}

/// The mix of the first `n` effects depends on the first `n` levels alone.
proof fn lemma_mixed_prefix(
    tracks: Seq<RumbleTrack>,
    a: Seq<(Single, Single)>,
    b: Seq<(Single, Single)>,
    n: nat,
)
    requires
        n <= a.len(),
        n <= b.len(),
        forall|i: int| 0 <= i < n ==> a[i] == b[i],
    ensures
        mixed(tracks, a, n) == mixed(tracks, b, n),
    decreases n,
{
    if n > 0 {
        lemma_mixed_prefix(tracks, a, b, (n - 1) as nat);
    }
}

/// `r` is the intensity `level` as the settings let it through.
pub open spec fn shaped<M: Arithmetic>(
    math: &M,
    config: CouchConfig,
    level: Single,
    r: Single,
) -> bool {
    let zero = Single { bits: scalar::ZERO };
    let one = Single { bits: scalar::ONE };
    if config.rumble_enabled {
        exists|m: Single| #[trigger]
            arithmetic::product(math, level, config.rumble_scale.clamped(zero, one), m) && r
                == m.clamped(zero, one)
    } else {
        r == zero
    }
}

/// No motor is driven hard enough to feel.
pub open spec fn silent(level: (Single, Single)) -> bool {
    let epsilon = Single { bits: scalar::EPSILON };
    level.0.within(epsilon) && level.1.within(epsilon)
}

/// `answer` says whether `a` and `b` are too far apart to leave it at that.
pub open spec fn differs<M: Arithmetic>(math: &M, a: Single, b: Single, answer: bool) -> bool {
    exists|d: Single| #[trigger]
        arithmetic::difference(math, a, b, d) && answer == (Single {
            bits: CHANGE_EPSILON,
        }).below(d.unsigned())
}

/// `answer` says whether either motor has moved from `last` to `level`.
pub open spec fn moved<M: Arithmetic>(
    math: &M,
    level: (Single, Single),
    last: (Single, Single),
    answer: bool,
) -> bool {
    ||| answer && differs(math, level.0, last.0, true)
    ||| differs(math, level.0, last.0, false) && differs(math, level.1, last.1, answer)
}

/// What is told to the gamepad, and what the channel remembers of it, when
/// the motors of `gamepad` are to run at `level`. `before` is the channel with
/// its clock already moved on.
pub open spec fn told<M: Arithmetic>(
    math: &M,
    gamepad: Entity,
    level: (Single, Single),
    before: Rumble,
    after: Rumble,
    requests: Seq<RumbleRequest>,
) -> bool {
    if silent(level) {
        if before.emitting {
            &&& requests == seq![RumbleRequest::Stop { gamepad }]
            &&& after == (Rumble { last_gamepad: before.last_gamepad, ..before.forgotten() })
        } else {
            &&& requests == Seq::<RumbleRequest>::empty()
            &&& after == before
        }
    } else {
        exists|changed: bool| #[trigger]
            moved(math, level, before.last_sent, changed) && if changed || !before.emitting
                || (Single { bits: REFRESH_INTERVAL }).within(before.since_send) {
                &&& requests == seq![
                    RumbleRequest::Stop { gamepad },
                    RumbleRequest::Add {
                        gamepad,
                        duration: Single { bits: EFFECT_DURATION },
                        strong: level.0,
                        weak: level.1,
                    },
                ]
                &&& after == (Rumble {
                    last_sent: level,
                    since_send: Single { bits: scalar::ZERO },
                    emitting: true,
                    ..before
                })
            } else {
                &&& requests == Seq::<RumbleRequest>::empty()
                &&& after == before
            }
    }
}

/// The channel once it knows that it talks to `gamepad`.
pub open spec fn aimed(rumble: Rumble, gamepad: Entity) -> Rumble {
    if rumble.last_gamepad == Some(gamepad) {
        rumble
    } else {
        Rumble { last_gamepad: Some(gamepad), ..rumble.forgotten() }
    }
}

/// A frame with live hardware: the effects advance, their mix is scaled, and
/// the hardware hears of it where it has to.
pub open spec fn driven<M: Arithmetic>(
    math: &M,
    config: CouchConfig,
    dt: Single,
    gamepad: Entity,
    before: Rumble,
    after: Rumble,
    requests: Seq<RumbleRequest>,
) -> bool {
    exists|mix: (Single, Single), level: (Single, Single), clock: Rumble|
        #[trigger] advanced(
            math,
            dt,
            config.max_rumble_tracks as nat,
            before.tracks@,
            clock.tracks@,
            mix,
        ) && shaped(math, config, mix.0, level.0) && shaped(math, config, mix.1, level.1)
            && arithmetic::sum(math, aimed(before, gamepad).since_send, dt, clock.since_send)
            && clock == (Rumble {
            tracks: clock.tracks,
            since_send: clock.since_send,
            ..aimed(before, gamepad)
        }) && #[trigger] told(math, gamepad, level, clock, after, requests)
}

/// A frame without hardware: everything is dropped, so a reconnecting player
/// doesn't inherit a stale buzz.
pub open spec fn unheard(before: Rumble, after: Rumble) -> bool {
    if before.tracks@.len() > 0 || before.emitting || before.last_gamepad is Some {
        &&& after.tracks@ == Seq::<RumbleTrack>::empty()
        &&& after == (Rumble { tracks: after.tracks, ..before.forgotten() })
    } else {
        after == before
    }
}

/// Scale an intensity by the settings.
fn shape<M: Arithmetic>(level: Single, config: &CouchConfig, math: &M) -> (r: Single)
    ensures
        shaped(math, *config, level, r),
{
    let zero = Single { bits: scalar::ZERO };
    let one = Single { bits: scalar::ONE };
    if config.rumble_enabled {
        let scale = config.rumble_scale.clamp(zero, one);
        let m = math.times(level, scale);
        assert(arithmetic::product(math, level, scale, m));
        m.clamp(zero, one)
    } else {
        zero
    }
}

/// Whether an intensity has moved far enough to say so.
fn has_moved<M: Arithmetic>(a: Single, b: Single, math: &M) -> (r: bool)
    ensures
        differs(math, a, b, r),
{
    let d = math.minus(a, b);
    assert(arithmetic::difference(math, a, b, d));
    (Single { bits: CHANGE_EPSILON }).less_than(d.abs())
}

/// Advances a player's rumble by a frame and says what to tell the hardware.
/// `live` says whether the gamepad still exists: it can go in the same frame
/// in which it drops, before the player is known to be without one.
///
/// A request per frame would pile effects up in the hardware's queue. Instead
/// each change (or a periodic refresh of a sustained effect) sends a `Stop`
/// followed by a single `Add`, so exactly one effect is live per gamepad at
/// any moment.
pub fn drive_haptics<M: Arithmetic>(
    device: &PlayerDevice,
    rumble: &mut Rumble,
    config: &CouchConfig,
    dt: Single,
    live: bool,
    math: &M,
) -> (r: Vec<RumbleRequest>)
    requires
        device is Gamepad && live ==> old(rumble).ready(
            math,
            dt,
            config.max_rumble_tracks as nat,
        ),
    ensures
        old(rumble).wf() ==> final(rumble).wf(),
        old(rumble).counted() ==> final(rumble).counted(),
        match *device {
            PlayerDevice::Missing => r@ == Seq::<RumbleRequest>::empty() && unheard(
                *old(rumble),
                *final(rumble),
            ),
            PlayerDevice::Gamepad(gamepad) => if live {
                driven(math, *config, dt, gamepad, *old(rumble), *final(rumble), r@)
            } else {
                r@ == Seq::<RumbleRequest>::empty() && *final(rumble) == *old(rumble)
            },
        },
{
    let mut requests: Vec<RumbleRequest> = Vec::new();
    let gamepad = match device {
        PlayerDevice::Missing => {
            if rumble.is_playing() || rumble.emitting || rumble.last_gamepad.is_some() {
                rumble.stop_all();
                rumble.forget_output();
            }
            return requests;
        },
        PlayerDevice::Gamepad(gamepad) => *gamepad,
    };
    if !live {
        return requests;
    }
    let ghost before = *rumble;
    let same = match rumble.last_gamepad {
        Some(last) => entities::same_entity(last, gamepad),
        None => false,
    };
    if !same {
        rumble.forget_output();
        rumble.last_gamepad = Some(gamepad);
    }
    assert(*rumble == aimed(before, gamepad));
    let mix = rumble.advance(dt, config.max_rumble_tracks, math);
    let level = (shape(mix.0, config, math), shape(mix.1, config, math));
    let since_send = math.plus(rumble.since_send, dt);
    rumble.since_send = since_send;
    let ghost clock = *rumble;
    assert(advanced(
        math,
        dt,
        config.max_rumble_tracks as nat,
        before.tracks@,
        clock.tracks@,
        mix,
    ));
    let epsilon = Single { bits: scalar::EPSILON };
    if level.0.at_most(epsilon) && level.1.at_most(epsilon) {
        if rumble.emitting {
            requests.push(RumbleRequest::Stop { gamepad });
            rumble.emitting = false;
            rumble.last_sent = (Single { bits: scalar::ZERO }, Single { bits: scalar::ZERO });
            rumble.since_send = Single { bits: scalar::ZERO };
        }
        assert(told(math, gamepad, level, clock, *rumble, requests@));
        return requests;
    }
    let changed = has_moved(level.0, rumble.last_sent.0, math) || has_moved(
        level.1,
        rumble.last_sent.1,
        math,
    );
    assert(moved(math, level, clock.last_sent, changed));
    let refresh = rumble.emitting && (Single { bits: REFRESH_INTERVAL }).at_most(
        rumble.since_send,
    );
    if changed || refresh || !rumble.emitting {
        requests.push(RumbleRequest::Stop { gamepad });
        requests.push(
            RumbleRequest::Add {
                gamepad,
                duration: Single { bits: EFFECT_DURATION },
                strong: level.0,
                weak: level.1,
            },
        );
        rumble.last_sent = level;
        rumble.since_send = Single { bits: scalar::ZERO };
        rumble.emitting = true;
        assert(requests@ == seq![
            RumbleRequest::Stop { gamepad },
            RumbleRequest::Add {
                gamepad,
                duration: Single { bits: EFFECT_DURATION },
                strong: level.0,
                weak: level.1,
            },
        ]);
    }
    assert(told(math, gamepad, level, clock, *rumble, requests@));
    requests
}

} // verus!
