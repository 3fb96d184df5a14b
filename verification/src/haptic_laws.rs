//! What holds of haptics channels over any number of frames and calls.

use crate::arithmetic;
use crate::arithmetic::Arithmetic;
use crate::config::CouchConfig;
use crate::haptics;
use crate::haptics::{Rumble, RumbleHandle, RumbleRequest, RumbleTrack};
use crate::pattern::{PatternView, RumblePattern};
use crate::rounding;
use crate::scalar;
use crate::scalar::Single;
use bevy_ecs::entity::Entity;
use vstd::prelude::*;

verus! {

/// An intensity from 0 to 1, unless the arithmetic had no number for it.
pub open spec fn in_range(level: Single) -> bool {
    level.nan() || ((Single { bits: scalar::ZERO }).within(level) && level.within(
        Single { bits: scalar::ONE },
    ))
}

/// A frame asks for nothing, for a stop, or for a stop and then one effect,
/// all on the player's own gamepad, with both motors in range. So an effect
/// never starts beside another.
pub proof fn law_an_effect_follows_a_stop<M: Arithmetic>(
    math: &M,
    config: CouchConfig,
    dt: Single,
    gamepad: Entity,
    before: Rumble,
    after: Rumble,
    requests: Seq<RumbleRequest>,
)
    requires
        haptics::driven(math, config, dt, gamepad, before, after, requests),
    ensures
        requests.len() <= 2,
        requests.len() >= 1 ==> requests[0] == (RumbleRequest::Stop { gamepad }),
        requests.len() == 2 ==> {
            &&& requests[1] matches RumbleRequest::Add { gamepad: to, duration, strong, weak }
            &&& to == gamepad
            &&& duration == (Single { bits: haptics::EFFECT_DURATION })
            &&& in_range(strong)
            &&& in_range(weak)
            &&& (strong, weak) == after.last_sent
            &&& after.emitting
        },
{
    let (mix, level, clock): ((Single, Single), (Single, Single), Rumble) = choose|
        mix: (Single, Single),
        level: (Single, Single),
        clock: Rumble,
    |
        #[trigger] haptics::advanced(
            math,
            dt,
            config.max_rumble_tracks as nat,
            before.tracks@,
            clock.tracks@,
            mix,
        ) && haptics::shaped(math, config, mix.0, level.0) && haptics::shaped(
            math,
            config,
            mix.1,
            level.1,
        ) && #[trigger] haptics::told(math, gamepad, level, clock, after, requests);
    lemma_shaped_is_in_range(math, config, mix.0, level.0);
    lemma_shaped_is_in_range(math, config, mix.1, level.1);
}

proof fn lemma_shaped_is_in_range<M: Arithmetic>(
    math: &M,
    config: CouchConfig,
    level: Single,
    r: Single,
)
    requires
        haptics::shaped(math, config, level, r),
    ensures
        in_range(r),
        !config.rumble_enabled ==> r == (Single { bits: scalar::ZERO }),
{
}

/// Hardware that was not spoken to before is told whatever the motors are to
/// do: the channel ends the frame running only if it asked for an effect in
/// this very frame.
pub proof fn law_new_hardware_is_told<M: Arithmetic>(
    math: &M,
    config: CouchConfig,
    dt: Single,
    gamepad: Entity,
    before: Rumble,
    after: Rumble,
    requests: Seq<RumbleRequest>,
)
    requires
        haptics::driven(math, config, dt, gamepad, before, after, requests),
        before.last_gamepad != Some(gamepad),
    ensures
        after.last_gamepad == Some(gamepad),
        after.emitting <==> requests.len() == 2,
        !after.emitting <==> requests.len() == 0,
{
}

/// With rumble switched off no effect is ever asked for, and the motors are
/// not left running.
pub proof fn law_disabled_rumble_is_silent<M: Arithmetic>(
    math: &M,
    config: CouchConfig,
    dt: Single,
    gamepad: Entity,
    before: Rumble,
    after: Rumble,
    requests: Seq<RumbleRequest>,
)
    requires
        haptics::driven(math, config, dt, gamepad, before, after, requests),
        !config.rumble_enabled,
    ensures
        forall|i: int| 0 <= i < requests.len() ==> #[trigger] requests[i] is Stop,
        !after.emitting,
        before.last_gamepad == Some(gamepad) && before.emitting ==> requests == seq![
            RumbleRequest::Stop { gamepad },
        ],
{
}

/// A scale of 0 or below is as good as switching rumble off: as long as the mix
/// is finite, no effect is asked for and the motors are not left running.
pub proof fn law_a_scale_of_nothing_is_silent<M: Arithmetic>(
    math: &M,
    config: CouchConfig,
    dt: Single,
    gamepad: Entity,
    before: Rumble,
    after: Rumble,
    requests: Seq<RumbleRequest>,
)
    requires
        rounding::annihilates(math),
        haptics::driven(math, config, dt, gamepad, before, after, requests),
        config.rumble_scale.within(Single { bits: scalar::ZERO }),
        forall|left: Seq<RumbleTrack>, mix: (Single, Single)| #[trigger]
            haptics::advanced(
                math,
                dt,
                config.max_rumble_tracks as nat,
                before.tracks@,
                left,
                mix,
            ) ==> mix.0.finite() && mix.1.finite(),
    ensures
        forall|i: int| 0 <= i < requests.len() ==> #[trigger] requests[i] is Stop,
        !after.emitting,
{
    let (mix, level, clock): ((Single, Single), (Single, Single), Rumble) = choose|
        mix: (Single, Single),
        level: (Single, Single),
        clock: Rumble,
    |
        #[trigger] haptics::advanced(
            math,
            dt,
            config.max_rumble_tracks as nat,
            before.tracks@,
            clock.tracks@,
            mix,
        ) && haptics::shaped(math, config, mix.0, level.0) && haptics::shaped(
            math,
            config,
            mix.1,
            level.1,
        ) && #[trigger] haptics::told(math, gamepad, level, clock, after, requests);
    lemma_nothing_is_shaped(math, config, mix.0, level.0);
    lemma_nothing_is_shaped(math, config, mix.1, level.1);
}

/// Nothing comes of nothing: a level of 0, or a scale of 0 or below, leaves
/// nothing to feel.
proof fn lemma_nothing_is_shaped<M: Arithmetic>(
    math: &M,
    config: CouchConfig,
    level: Single,
    r: Single,
)
    requires
        rounding::annihilates(math),
        haptics::shaped(math, config, level, r),
        level.finite(),
        !config.rumble_scale.nan(),
        level.same(Single { bits: scalar::ZERO }) || config.rumble_scale.within(
            Single { bits: scalar::ZERO },
        ),
    ensures
        r.same(Single { bits: scalar::ZERO }),
        r.within(Single { bits: scalar::EPSILON }),
{
    let zero = Single { bits: scalar::ZERO };
    let one = Single { bits: scalar::ONE };
    if config.rumble_enabled {
        let scale = config.rumble_scale.clamped(zero, one);
        scalar::law_clamped_is_within_bounds(config.rumble_scale, zero, one);
        let m = choose|m: Single| #[trigger]
            arithmetic::product(math, level, scale, m) && r == m.clamped(zero, one);
        assert(scale.finite());
        assert(m.same(zero));
    }
}

/// An effect leaves something playing, so what was just sent is what the
/// channel reports.
pub proof fn law_what_is_sent_is_current<M: Arithmetic>(
    math: &M,
    config: CouchConfig,
    dt: Single,
    gamepad: Entity,
    before: Rumble,
    after: Rumble,
    requests: Seq<RumbleRequest>,
)
    requires
        rounding::annihilates(math),
        !config.rumble_scale.nan(),
        haptics::driven(math, config, dt, gamepad, before, after, requests),
        requests.len() == 2,
    ensures
        after.tracks@.len() > 0,
        requests[1] matches RumbleRequest::Add { strong, weak, .. } && after.felt() == (
            strong,
            weak,
        ),
{
    law_an_effect_follows_a_stop(math, config, dt, gamepad, before, after, requests);
    let (mix, level, clock): ((Single, Single), (Single, Single), Rumble) = choose|
        mix: (Single, Single),
        level: (Single, Single),
        clock: Rumble,
    |
        #[trigger] haptics::advanced(
            math,
            dt,
            config.max_rumble_tracks as nat,
            before.tracks@,
            clock.tracks@,
            mix,
        ) && haptics::shaped(math, config, mix.0, level.0) && haptics::shaped(
            math,
            config,
            mix.1,
            level.1,
        ) && #[trigger] haptics::told(math, gamepad, level, clock, after, requests);
    if clock.tracks@.len() == 0 {
        assert(mix == haptics::silence());
        lemma_nothing_is_shaped(math, config, mix.0, level.0);
        lemma_nothing_is_shaped(math, config, mix.1, level.1);
    }
}

/// A player without hardware comes back to a quiet channel: nothing plays,
/// nothing is emitted, and no gamepad is remembered.
pub proof fn law_no_hardware_drops_everything(before: Rumble, after: Rumble)
    requires
        haptics::unheard(before, after),
    ensures
        after.tracks@.len() == 0,
        !after.emitting,
        after.last_gamepad is None,
        after.next_id == before.next_id,
{
}

/// The mix is a maximum, never a sum: each motor runs at 0 or at the level of
/// an audible effect, and no audible effect is louder than the mix.
pub proof fn law_the_mix_is_a_maximum(
    tracks: Seq<RumbleTrack>,
    levels: Seq<(Single, Single)>,
    n: nat,
)
    requires
        n <= tracks.len(),
        levels.len() == tracks.len(),
    ensures
        ({
            let mix = haptics::mixed(tracks, levels, n);
            &&& !mix.0.nan() && !mix.1.nan()
            &&& mix.0 == haptics::silence().0 || exists|i: int|
                0 <= i < n && haptics::audible(tracks, i) && mix.0 == (#[trigger] levels[i]).0
            &&& mix.1 == haptics::silence().1 || exists|i: int|
                0 <= i < n && haptics::audible(tracks, i) && mix.1 == (#[trigger] levels[i]).1
            &&& haptics::silence().0.within(mix.0) && haptics::silence().1.within(mix.1)
            &&& forall|i: int|
                0 <= i < n && haptics::audible(tracks, i) ==> ((#[trigger] levels[i]).0.nan()
                    || levels[i].0.within(mix.0)) && (levels[i].1.nan() || levels[i].1.within(
                    mix.1,
                ))
        }),
    decreases n,
{
    if n > 0 {
        law_the_mix_is_a_maximum(tracks, levels, (n - 1) as nat);
        let rest = haptics::mixed(tracks, levels, (n - 1) as nat);
        let mix = haptics::mixed(tracks, levels, n);
        let last = levels[n - 1];
        if mix.0 == rest.0 && mix.0 != haptics::silence().0 {
            let i = choose|i: int|
                0 <= i < n - 1 && haptics::audible(tracks, i) && rest.0 == (
                #[trigger] levels[i]).0;
            assert(mix.0 == levels[i].0);
        }
        if mix.1 == rest.1 && mix.1 != haptics::silence().1 {
            let i = choose|i: int|
                0 <= i < n - 1 && haptics::audible(tracks, i) && rest.1 == (
                #[trigger] levels[i]).1;
            assert(mix.1 == levels[i].1);
        }
    }
}

/// Only the highest priority is audible: what the other effects are doing
/// makes no difference to the mix.
pub proof fn law_only_top_priority_is_audible(
    tracks: Seq<RumbleTrack>,
    a: Seq<(Single, Single)>,
    b: Seq<(Single, Single)>,
    n: nat,
)
    requires
        n <= tracks.len(),
        a.len() == tracks.len(),
        b.len() == tracks.len(),
        forall|i: int|
            0 <= i < n && (forall|j: int|
                0 <= j < tracks.len() ==> (#[trigger] tracks[j]).priority <= tracks[i].priority)
                ==> #[trigger] a[i] == b[i],
    ensures
        haptics::mixed(tracks, a, n) == haptics::mixed(tracks, b, n),
    decreases n,
{
    if n > 0 {
        law_only_top_priority_is_audible(tracks, a, b, (n - 1) as nat);
        if haptics::audible(tracks, n - 1) {
            assert(a[n - 1] == b[n - 1]);
        }
    }
}

/// The budget holds after it was enforced, and changes nothing where it held
/// before.
pub proof fn law_budget_is_kept(before: Seq<RumbleTrack>, max: nat, after: Seq<RumbleTrack>)
    requires
        haptics::budgeted(before, max, after),
    ensures
        after.len() <= max,
        before.len() > max ==> after.len() == max,
        before.len() <= max ==> after == before,
{
    let kept = choose|kept: Seq<int>| #[trigger] haptics::survivors(before, max, kept, after);
    if before.len() <= max {
        assert forall|k: int| 0 <= k < kept.len() implies kept[k] >= k by {
            lemma_increasing_is_ahead(kept, k);
        }
        assert forall|k: int| 0 <= k < kept.len() implies kept[k] == k by {
            lemma_increasing_is_behind(kept, k, before.len() as int);
        }
        assert forall|k: int| 0 <= k < after.len() implies after[k] == before[k] by {
            assert(kept[k] == k);
        }
        assert(after == before);
    }
}

proof fn lemma_increasing_is_ahead(kept: Seq<int>, k: int)
    requires
        0 <= k < kept.len(),
        forall|j: int| 0 <= j < kept.len() ==> 0 <= #[trigger] kept[j],
        forall|i: int, j: int| 0 <= i < j < kept.len() ==> #[trigger] kept[i] < #[trigger] kept[j],
    ensures
        kept[k] >= k,
    decreases k,
{
    if k > 0 {
        lemma_increasing_is_ahead(kept, k - 1);
        assert(kept[k - 1] < kept[k]);
    }
}

proof fn lemma_increasing_is_behind(kept: Seq<int>, k: int, n: int)
    requires
        0 <= k < kept.len(),
        forall|j: int| 0 <= j < kept.len() ==> #[trigger] kept[j] < n,
        forall|i: int, j: int| 0 <= i < j < kept.len() ==> #[trigger] kept[i] < #[trigger] kept[j],
    ensures
        kept[k] <= n - kept.len() + k,
    decreases kept.len() - k,
{
    if k < kept.len() - 1 {
        lemma_increasing_is_behind(kept, k + 1, n);
        assert(kept[k] < kept[k + 1]);
    }
}

/// With any budget at all, the effect that every other would have to go before
/// (the freshest of the highest priority) survives it.
pub proof fn law_budget_keeps_the_best(
    before: Seq<RumbleTrack>,
    max: nat,
    after: Seq<RumbleTrack>,
    best: int,
)
    requires
        haptics::budgeted(before, max, after),
        max > 0,
        0 <= best < before.len(),
        forall|i: int|
            0 <= i < before.len() && i != best ==> #[trigger] haptics::expendable(before, i, best),
    ensures
        after.contains(before[best]),
{
    let kept = choose|kept: Seq<int>| #[trigger] haptics::survivors(before, max, kept, after);
    if !kept.contains(best) {
        assert(haptics::expendable(before, best, kept[0]));
        assert(kept[0] != best);
        assert(haptics::expendable(before, kept[0], best));
    }
    let k = choose|k: int| 0 <= k < kept.len() && kept[k] == best;
    assert(after[k] == before[best]);
}

/// An eviction never spares an effect over one that outranks it: whatever was
/// evicted, all that stayed have at least its priority.
pub proof fn law_budget_evicts_lowest_priority(
    before: Seq<RumbleTrack>,
    max: nat,
    after: Seq<RumbleTrack>,
    evicted: int,
    stayed: int,
)
    requires
        haptics::budgeted(before, max, after),
        0 <= evicted < before.len(),
        !after.contains(before[evicted]),
        0 <= stayed < after.len(),
    ensures
        before[evicted].priority <= after[stayed].priority,
{
    let kept = choose|kept: Seq<int>| #[trigger] haptics::survivors(before, max, kept, after);
    if kept.contains(evicted) {
        let k = choose|k: int| 0 <= k < kept.len() && kept[k] == evicted;
        assert(after[k] == before[evicted]);
    }
    assert(haptics::expendable(before, evicted, kept[stayed]));
}

/// After a frame nothing that ran out is left, and a loop outlives its
/// duration: it goes on unless the budget took it.
pub proof fn law_loops_outlive_their_duration<M: Arithmetic>(
    math: &M,
    dt: Single,
    max: nat,
    before: Seq<RumbleTrack>,
    after: Seq<RumbleTrack>,
    level: (Single, Single),
)
    requires
        haptics::advanced(math, dt, max, before, after, level),
    ensures
        after.len() <= max,
        forall|j: int| 0 <= j < after.len() ==> (#[trigger] after[j]).alive(),
        before.len() <= max ==> forall|i: int|
            0 <= i < before.len() && (#[trigger] before[i]).pattern@.repeat ==> continues(
                before[i],
                after,
            ),
        before.len() == 0 ==> after.len() == 0 && level == haptics::silence(),
{
    let (kept, older): (Seq<RumbleTrack>, Seq<RumbleTrack>) = choose|
        kept: Seq<RumbleTrack>,
        older: Seq<RumbleTrack>,
    |
        #[trigger] haptics::budgeted(before, max, kept) && #[trigger] haptics::aged(
            math,
            dt,
            kept,
            older,
        ) && after == older.filter(haptics::living()) && haptics::mixes(math, after, level);
    law_budget_is_kept(before, max, kept);
    older.lemma_filter_len(haptics::living());
    assert forall|j: int| 0 <= j < after.len() implies (#[trigger] after[j]).alive() by {
        assert(after.contains(after[j]));
        assert(haptics::living()(after[j]));
    }
    if before.len() <= max {
        assert forall|i: int|
            0 <= i < before.len() && (
            #[trigger] before[i]).pattern@.repeat implies continues(before[i], after) by {
            let track = older[i];
            assert(haptics::living()(track));
            assert(after.contains(track));
            let j = choose|j: int| 0 <= j < after.len() && after[j] == track;
            assert(after[j] == (RumbleTrack { elapsed: after[j].elapsed, ..before[i] }));
        }
    }
}

/// Among `after` is the effect `track`, possibly older.
pub open spec fn continues(track: RumbleTrack, after: Seq<RumbleTrack>) -> bool {
    exists|j: int|
        0 <= j < after.len() && #[trigger] after[j] == (RumbleTrack {
            elapsed: after[j].elapsed,
            ..track
        })
}

/// A fresh handle is active, and what was active before still is.
pub proof fn law_playing_is_active(
    before: Rumble,
    pattern: RumblePattern,
    priority: u8,
    handle: RumbleHandle,
    after: Rumble,
    other: RumbleHandle,
)
    requires
        before.plays(pattern, priority, handle, after),
    ensures
        after.runs(handle),
        before.runs(other) ==> after.runs(other),
        other.id() != handle.id() ==> after.runs(other) == before.runs(other),
        after.tracks@.len() == before.tracks@.len() + 1,
{
    let n = before.tracks@.len() as int;
    assert(after.tracks@[n].id == handle.id());
    if before.runs(other) {
        let i = choose|i: int|
            0 <= i < n && (#[trigger] before.tracks@[i]).id == other.id();
        assert(after.tracks@[i] == before.tracks@[i]);
    }
    if after.runs(other) && other.id() != handle.id() {
        let i = choose|i: int|
            0 <= i < after.tracks@.len() && (#[trigger] after.tracks@[i]).id == other.id();
        assert(before.tracks@[i] == after.tracks@[i]);
    }
}

/// Stopping a handle ends that effect and no other; where it was not playing,
/// nothing changes, so stopping twice is a no-op.
pub proof fn law_stopping_ends_one_effect(
    before: Rumble,
    handle: RumbleHandle,
    after: Rumble,
    other: RumbleHandle,
)
    requires
        after.tracks@ == before.tracks@.filter(haptics::other_than(handle.id())),
    ensures
        !after.runs(handle),
        other.id() != handle.id() ==> after.runs(other) == before.runs(other),
        !before.runs(handle) ==> after.tracks@ == before.tracks@,
        after.tracks@.filter(haptics::other_than(handle.id())) == after.tracks@,
{
    let test = haptics::other_than(handle.id());
    let a = after.tracks@;
    let b = before.tracks@;
    assert forall|i: int| 0 <= i < a.len() implies (#[trigger] a[i]).id != handle.id() by {
        assert(a.contains(a[i]));
        assert(test(a[i]));
    }
    lemma_filter_everything(a, test);
    if other.id() != handle.id() {
        if before.runs(other) {
            let i = choose|i: int| 0 <= i < b.len() && (#[trigger] b[i]).id == other.id();
            assert(test(b[i]));
            assert(a.contains(b[i]));
            let j = choose|j: int| 0 <= j < a.len() && a[j] == b[i];
            assert(a[j].id == other.id());
        }
        if after.runs(other) {
            let i = choose|i: int| 0 <= i < a.len() && (#[trigger] a[i]).id == other.id();
            assert(a.contains(a[i]));
            lemma_filter_adds_nothing(b, test, a[i]);
            let j = choose|j: int| 0 <= j < b.len() && b[j] == a[i];
            assert(b[j].id == other.id());
        }
    }
    if !before.runs(handle) {
        lemma_filter_everything(b, test);
    }
}

/// Stopping what was just played gives back what played before, as long as
/// its number was not in use already.
pub proof fn law_stop_undoes_play(
    before: Rumble,
    pattern: RumblePattern,
    priority: u8,
    handle: RumbleHandle,
    during: Rumble,
)
    requires
        before.plays(pattern, priority, handle, during),
        !before.runs(handle),
    ensures
        during.tracks@.filter(haptics::other_than(handle.id())) == before.tracks@,
{
    let test = haptics::other_than(handle.id());
    reveal(Seq::filter);
    assert(during.tracks@.drop_last() == before.tracks@);
    assert(!test(during.tracks@.last()));
    lemma_filter_everything(before.tracks@, test);
}

proof fn lemma_filter_everything(tracks: Seq<RumbleTrack>, test: spec_fn(RumbleTrack) -> bool)
    requires
        forall|i: int| 0 <= i < tracks.len() ==> test(#[trigger] tracks[i]),
    ensures
        tracks.filter(test) == tracks,
    decreases tracks.len(),
{
    reveal(Seq::filter);
    if tracks.len() > 0 {
        lemma_filter_everything(tracks.drop_last(), test);
        assert(tracks.drop_last().push(tracks.last()) == tracks);
    }
}

proof fn lemma_filter_adds_nothing(
    tracks: Seq<RumbleTrack>,
    test: spec_fn(RumbleTrack) -> bool,
    track: RumbleTrack,
)
    requires
        tracks.filter(test).contains(track),
    ensures
        tracks.contains(track),
    decreases tracks.len(),
{
    reveal(Seq::filter);
    if tracks.len() > 0 {
        let rest = tracks.drop_last();
        if test(tracks.last()) && track == tracks.last() {
            assert(tracks[tracks.len() - 1] == track);
        } else {
            let i = choose|i: int|
                0 <= i < tracks.filter(test).len() && tracks.filter(test)[i] == track;
            assert(rest.filter(test)[i] == track);
            lemma_filter_adds_nothing(rest, test, track);
            let j = choose|j: int| 0 <= j < rest.len() && rest[j] == track;
            assert(tracks[j] == track);
        }
    }
}

/// What a budget leaves is settled by the effects alone.
pub proof fn law_budget_is_exact(
    before: Seq<RumbleTrack>,
    max: nat,
    a: Seq<RumbleTrack>,
    b: Seq<RumbleTrack>,
)
    requires
        haptics::budgeted(before, max, a),
        haptics::budgeted(before, max, b),
    ensures
        a == b,
{
    let one = choose|kept: Seq<int>| #[trigger] haptics::survivors(before, max, kept, a);
    let two = choose|kept: Seq<int>| #[trigger] haptics::survivors(before, max, kept, b);
    assert forall|k: int| 0 <= k < one.len() implies one[k] == two[k] by {
        lemma_same_survivors(before, max, one, a, two, b, k);
    }
    assert forall|k: int| 0 <= k < a.len() implies a[k] == b[k] by {
        assert(one[k] == two[k]);
    }
    assert(a == b);
}

proof fn lemma_same_survivors(
    before: Seq<RumbleTrack>,
    max: nat,
    one: Seq<int>,
    a: Seq<RumbleTrack>,
    two: Seq<int>,
    b: Seq<RumbleTrack>,
    k: int,
)
    requires
        haptics::survivors(before, max, one, a),
        haptics::survivors(before, max, two, b),
        0 <= k < one.len(),
    ensures
        one[k] == two[k],
    decreases k,
{
    assert forall|j: int| 0 <= j < k implies one[j] == two[j] by {
        lemma_same_survivors(before, max, one, a, two, b, j);
    }
    lemma_no_earlier_survivor(before, max, one, a, two, b, k);
    lemma_no_earlier_survivor(before, max, two, b, one, a, k);
}

/// Two ways to keep a budget that agree up to `k` do not part there.
proof fn lemma_no_earlier_survivor(
    before: Seq<RumbleTrack>,
    max: nat,
    one: Seq<int>,
    a: Seq<RumbleTrack>,
    two: Seq<int>,
    b: Seq<RumbleTrack>,
    k: int,
)
    requires
        haptics::survivors(before, max, one, a),
        haptics::survivors(before, max, two, b),
        0 <= k < one.len(),
        forall|j: int| 0 <= j < k ==> #[trigger] one[j] == two[j],
    ensures
        two[k] <= one[k],
{
    if one[k] < two[k] {
        let out = one[k];
        if two.contains(out) {
            let j = choose|j: int| 0 <= j < two.len() && two[j] == out;
            if j < k {
                assert(one[j] == two[j]);
                assert(one[j] < one[k]);
            } else if k < j {
                assert(two[k] < two[j]);
            }
        }
        if forall|j: int| k <= j < two.len() ==> one.contains(#[trigger] two[j]) {
            let last = two.len() - 1;
            lemma_lags_behind(one, two, k, last);
            assert(one.contains(two[last]));
            let p = choose|p: int| 0 <= p < one.len() && one[p] == two[last];
            assert(p > last);
        } else {
            let j = choose|j: int| k <= j < two.len() && !one.contains(#[trigger] two[j]);
            assert(haptics::expendable(before, two[j], one[k]));
            assert(haptics::expendable(before, out, two[j]));
        }
    }
}

/// Where all that `two` holds from `k` on is in `one`, which is behind it
/// there, it is found further along.
proof fn lemma_lags_behind(one: Seq<int>, two: Seq<int>, k: int, j: int)
    requires
        one.len() == two.len(),
        0 <= k <= j < two.len(),
        one[k] < two[k],
        forall|a: int, b: int| 0 <= a < b < one.len() ==> #[trigger] one[a] < #[trigger] one[b],
        forall|a: int, b: int| 0 <= a < b < two.len() ==> #[trigger] two[a] < #[trigger] two[b],
        forall|m: int| k <= m < two.len() ==> one.contains(#[trigger] two[m]),
    ensures
        forall|p: int| 0 <= p < one.len() && #[trigger] one[p] == two[j] ==> p > j,
    decreases j - k,
{
    if j > k {
        lemma_lags_behind(one, two, k, j - 1);
        assert(one.contains(two[j - 1]));
        let q = choose|q: int| 0 <= q < one.len() && one[q] == two[j - 1];
        assert(q > j - 1);
        assert forall|p: int| 0 <= p < one.len() && #[trigger] one[p] == two[j] implies p > j by {
            assert(two[j - 1] < two[j]);
            if p < q {
                assert(one[p] < one[q]);
            }
        }
    } else {
        assert forall|p: int| 0 <= p < one.len() && #[trigger] one[p] == two[j] implies p > j by {
            if p < k {
                assert(one[p] < one[k]);
            }
        }
    }
}

/// A channel whose patterns can all be played can be advanced, whatever the
/// frame and the budget.
pub proof fn law_playable_channels_are_ready<M: Arithmetic>(
    math: &M,
    rumble: Rumble,
    dt: Single,
    max: nat,
)
    requires
        rumble.wf(),
    ensures
        rumble.ready(math, dt, max),
{
    assert forall|kept: Seq<RumbleTrack>, older: Seq<RumbleTrack>|
        #[trigger] haptics::budgeted(rumble.tracks@, max, kept) && #[trigger] haptics::aged(
            math,
            dt,
            kept,
            older,
        ) implies haptics::soundable(math, older.filter(haptics::living())) by {
        let places = choose|places: Seq<int>| #[trigger]
            haptics::survivors(rumble.tracks@, max, places, kept);
        let left = older.filter(haptics::living());
        assert forall|i: int| 0 <= i < left.len() implies (
        #[trigger] left[i]).pattern@.playable_at(math, left[i].elapsed) by {
            assert(left.contains(left[i]));
            lemma_filter_adds_nothing(older, haptics::living(), left[i]);
            let j = choose|j: int| 0 <= j < older.len() && older[j] == left[i];
            assert(older[j].pattern == kept[j].pattern);
            assert(kept[j] == rumble.tracks@[places[j]]);
        }
    }
}

/// The arithmetic gives one result for each sum and each remainder.
pub open spec fn settled_arithmetic<M: Arithmetic>(math: &M) -> bool {
    &&& forall|a: Single, b: Single, r: Single, s: Single|
        #[trigger] arithmetic::sum(math, a, b, r) && #[trigger] arithmetic::sum(math, a, b, s)
            ==> r == s
    &&& forall|a: Single, b: Single, r: Single, s: Single|
        #[trigger] arithmetic::remainder(math, a, b, r) && #[trigger] arithmetic::remainder(
            math,
            a,
            b,
            s,
        ) ==> r == s
}

/// With arithmetic that gives one result for each operation, asking first is
/// exact: the answer says whether the channel can be advanced.
pub proof fn law_asking_first_is_exact<M: Arithmetic>(
    math: &M,
    rumble: Rumble,
    dt: Single,
    max: nat,
    answer: bool,
)
    requires
        settled_arithmetic(math),
        haptics::foreseen(math, dt, max, rumble.tracks@, answer),
    ensures
        answer == rumble.ready(math, dt, max),
{
    let before = rumble.tracks@;
    let (within, older): (Seq<RumbleTrack>, Seq<RumbleTrack>) = choose|
        within: Seq<RumbleTrack>,
        older: Seq<RumbleTrack>,
    |
        #[trigger] haptics::budgeted(before, max, within) && #[trigger] haptics::aged(
            math,
            dt,
            within,
            older,
        ) && haptics::tried(math, older.filter(haptics::living()), answer);
    let left = older.filter(haptics::living());
    let answers = choose|answers: Seq<bool>|
        #[trigger] haptics::answered(math, left, answers) && answer == forall|i: int|
            0 <= i < left.len() && haptics::audible(left, i) ==> #[trigger] answers[i];
    assert forall|i: int| 0 <= i < left.len() && haptics::audible(left, i) implies (
    #[trigger] left[i]).pattern@.playable_at(math, left[i].elapsed) == answers[i] by {
        assert(left[i].pattern@.tried(math, left[i].elapsed, answers[i]));
        lemma_one_place(math, left[i].pattern@, left[i].elapsed, answers[i]);
    }
    assert(haptics::soundable(math, left) == answer) by {
        if haptics::soundable(math, left) {
            assert forall|i: int|
                0 <= i < left.len() && haptics::audible(left, i) implies #[trigger] answers[i] by {
                assert(left[i].pattern@.playable_at(math, left[i].elapsed));
            }
        }
    }
    assert forall|kept: Seq<RumbleTrack>, aged: Seq<RumbleTrack>|
        #[trigger] haptics::budgeted(before, max, kept) && #[trigger] haptics::aged(
            math,
            dt,
            kept,
            aged,
        ) implies aged == older by {
        law_budget_is_exact(before, max, kept, within);
        assert forall|i: int| 0 <= i < aged.len() implies aged[i] == older[i] by {
            assert(arithmetic::sum(math, within[i].elapsed, dt, aged[i].elapsed));
            assert(arithmetic::sum(math, within[i].elapsed, dt, older[i].elapsed));
        }
        assert(aged == older);
    }
}

proof fn lemma_one_place<M: Arithmetic>(
    math: &M,
    pattern: PatternView,
    t: Single,
    answer: bool,
)
    requires
        settled_arithmetic(math),
        pattern.tried(math, t, answer),
    ensures
        pattern.playable_at(math, t) == answer,
{
    let u = choose|u: Single| #[trigger]
        pattern.wrapped(math, t, u) && answer == (pattern.inside(u) ==> !pattern.keys[0].at.nan());
    assert forall|v: Single| #[trigger] pattern.wrapped(math, t, v) implies v == u by {}
}

/// A handle stands for one effect: while the counter has not come round,
/// stopping a running one takes exactly that effect out, leaves the others in
/// their order, and cannot be done twice.
pub proof fn law_a_handle_stands_for_one_effect(
    before: Rumble,
    handle: RumbleHandle,
    after: Rumble,
    other: RumbleHandle,
)
    requires
        before.counted(),
        before.runs(handle),
        after.tracks@ == before.tracks@.filter(haptics::other_than(handle.id())),
    ensures
        exists|i: int|
            0 <= i < before.tracks@.len() && (#[trigger] before.tracks@[i]).id == handle.id()
                && after.tracks@ == before.tracks@.remove(i),
        after.tracks@.len() == before.tracks@.len() - 1,
        !after.runs(handle),
        other.id() != handle.id() ==> after.runs(other) == before.runs(other),
{
    law_stopping_ends_one_effect(before, handle, after, other);
    let tracks = before.tracks@;
    let i = choose|i: int| 0 <= i < tracks.len() && (#[trigger] tracks[i]).id == handle.id();
    let test = haptics::other_than(handle.id());
    assert forall|j: int| 0 <= j < tracks.len() && j != i implies test(#[trigger] tracks[j]) by {
        if j < i {
            assert(tracks[j].id < tracks[i].id);
        } else {
            assert(tracks[i].id < tracks[j].id);
        }
    }
    lemma_filter_takes_out_one(tracks, test, i);
    assert(tracks[i].id == handle.id());
}

proof fn lemma_filter_takes_out_one(
    tracks: Seq<RumbleTrack>,
    test: spec_fn(RumbleTrack) -> bool,
    i: int,
)
    requires
        0 <= i < tracks.len(),
        !test(tracks[i]),
        forall|j: int| 0 <= j < tracks.len() && j != i ==> test(#[trigger] tracks[j]),
    ensures
        tracks.filter(test) == tracks.remove(i),
    decreases tracks.len(),
{
    reveal(Seq::filter);
    let rest = tracks.drop_last();
    if i == tracks.len() - 1 {
        lemma_filter_everything(rest, test);
        assert(tracks.remove(i) == rest);
    } else {
        lemma_filter_takes_out_one(rest, test, i);
        assert(tracks.remove(i) == rest.remove(i).push(tracks.last()));
    }
}

/// While the counter has not come round, a fresh handle stands for nothing
/// that runs already: stopping what was just played gives back what played
/// before.
pub proof fn law_fresh_handles_are_unused(
    before: Rumble,
    pattern: RumblePattern,
    priority: u8,
    handle: RumbleHandle,
    during: Rumble,
)
    requires
        before.counted(),
        before.plays(pattern, priority, handle, during),
    ensures
        !before.runs(handle),
        before.next_id < u64::MAX ==> during.counted(),
        during.tracks@.filter(haptics::other_than(handle.id())) == before.tracks@,
{
    law_stop_undoes_play(before, pattern, priority, handle, during);
}

/// `level` is one motor of the mix, by the scale of the settings as far as that
/// is from 0 to 1, and held from 0 to 1; nothing where rumble is off.
pub open spec fn output<M: Arithmetic>(
    math: &M,
    config: CouchConfig,
    mix: (Single, Single),
    level: (Single, Single),
) -> bool {
    let zero = Single { bits: scalar::ZERO };
    let one = Single { bits: scalar::ONE };
    let scale = config.rumble_scale.clamped(zero, one);
    if config.rumble_enabled {
        &&& exists|m: Single| #[trigger]
            arithmetic::product(math, mix.0, scale, m) && level.0 == m.clamped(zero, one)
        &&& exists|m: Single| #[trigger]
            arithmetic::product(math, mix.1, scale, m) && level.1 == m.clamped(zero, one)
    } else {
        level == (zero, zero)
    }
}

/// The two requests that put an effect of `level` on the motors, for 0.3
/// seconds.
pub open spec fn effect(gamepad: Entity, level: (Single, Single)) -> Seq<RumbleRequest> {
    seq![
        RumbleRequest::Stop { gamepad },
        RumbleRequest::Add {
            gamepad,
            duration: Single { bits: 0x3e99_999a },
            strong: level.0,
            weak: level.1,
        },
    ]
}

/// Whatever can be felt is sent. Both motors have to be at rest for silence:
/// only then are the motors stopped, or left alone without running. Otherwise
/// they run, and are told so at once where they did not run before, where
/// either of them has moved by more than 0.02, or where 0.15 seconds have
/// passed; and only where none of that is so is nothing sent.
pub proof fn law_whatever_is_felt_is_sent<M: Arithmetic>(
    math: &M,
    config: CouchConfig,
    dt: Single,
    gamepad: Entity,
    before: Rumble,
    after: Rumble,
    requests: Seq<RumbleRequest>,
)
    requires
        haptics::driven(math, config, dt, gamepad, before, after, requests),
    ensures
        exists|mix: (Single, Single), level: (Single, Single)|
            #[trigger] haptics::advanced(
                math,
                dt,
                config.max_rumble_tracks as nat,
                before.tracks@,
                after.tracks@,
                mix,
            ) && #[trigger] output(math, config, mix, level) && {
                let epsilon = Single { bits: 0x3400_0000 };
                let quiet = level.0.within(epsilon) && level.1.within(epsilon);
                let ran = before.emitting && before.last_gamepad == Some(gamepad);
                let far = Single { bits: 0x3ca3_d70a };
                let due = Single { bits: 0x3e19_999a };
                &&& after.last_gamepad == Some(gamepad)
                &&& after.next_id == before.next_id
                &&& after.emitting == !quiet
                &&& quiet && ran ==> requests == seq![RumbleRequest::Stop { gamepad }]
                &&& quiet && !ran ==> requests.len() == 0
                &&& !quiet ==> requests == effect(gamepad, level) || requests.len() == 0
                &&& !quiet && !ran ==> requests == effect(gamepad, level)
                &&& !quiet && (forall|d: Single| #[trigger]
                    arithmetic::difference(math, level.0, before.last_sent.0, d) ==> far.below(
                        d.unsigned(),
                    )) ==> requests == effect(gamepad, level)
                &&& !quiet && (forall|d: Single| #[trigger]
                    arithmetic::difference(math, level.1, before.last_sent.1, d) ==> far.below(
                        d.unsigned(),
                    )) ==> requests == effect(gamepad, level)
                &&& !quiet && (forall|s: Single| #[trigger]
                    arithmetic::sum(math, before.since_send, dt, s) ==> due.within(s))
                    ==> requests == effect(gamepad, level)
                &&& !quiet && requests.len() == 0 ==> {
                    &&& after.last_sent == before.last_sent
                    &&& exists|d: Single| #[trigger]
                        arithmetic::difference(math, level.0, before.last_sent.0, d) && !far.below(
                            d.unsigned(),
                        )
                    &&& exists|d: Single| #[trigger]
                        arithmetic::difference(math, level.1, before.last_sent.1, d) && !far.below(
                            d.unsigned(),
                        )
                    &&& arithmetic::sum(math, before.since_send, dt, after.since_send)
                    &&& !due.within(after.since_send)
                }
                &&& requests.len() == 2 ==> after.last_sent == level && after.since_send.same(
                    Single { bits: scalar::ZERO },
                )
            },
{
    let (mix, level, clock): ((Single, Single), (Single, Single), Rumble) = choose|
        mix: (Single, Single),
        level: (Single, Single),
        clock: Rumble,
    |
        #[trigger] haptics::advanced(
            math,
            dt,
            config.max_rumble_tracks as nat,
            before.tracks@,
            clock.tracks@,
            mix,
        ) && haptics::shaped(math, config, mix.0, level.0) && haptics::shaped(
            math,
            config,
            mix.1,
            level.1,
        ) && arithmetic::sum(
            math,
            haptics::aimed(before, gamepad).since_send,
            dt,
            clock.since_send,
        ) && clock == (Rumble {
            tracks: clock.tracks,
            since_send: clock.since_send,
            ..haptics::aimed(before, gamepad)
        }) && #[trigger] haptics::told(math, gamepad, level, clock, after, requests);
    assert(output(math, config, mix, level));
    assert(haptics::advanced(
        math,
        dt,
        config.max_rumble_tracks as nat,
        before.tracks@,
        after.tracks@,
        mix,
    ));
}

/// An effect outlasts the time until it is refreshed, so the motors never gap.
pub proof fn law_refreshes_come_in_time()
    ensures
        (Single { bits: haptics::REFRESH_INTERVAL }).below(
            Single { bits: haptics::EFFECT_DURATION },
        ),
{
}

/// `clock` runs from `from` to `to`, by one of the `dts` at a time.
pub open spec fn runs_through<M: Arithmetic>(
    math: &M,
    dts: Seq<Single>,
    from: Single,
    clock: Seq<Single>,
    to: Single,
) -> bool {
    &&& clock.len() == dts.len() + 1
    &&& clock[0] == from
    &&& clock.last() == to
    &&& forall|i: int|
        0 <= i < dts.len() ==> arithmetic::sum(
            math,
            clock[i],
            #[trigger] dts[i],
            clock[i + 1],
        )
}

/// Among `before` is the effect `track` as it was `dts` ago: its time has moved
/// by their sum and nothing else has changed.
pub open spec fn played_on<M: Arithmetic>(
    math: &M,
    dts: Seq<Single>,
    before: Seq<RumbleTrack>,
    track: RumbleTrack,
) -> bool {
    exists|i: int, clock: Seq<Single>|
        0 <= i < before.len() && track == (RumbleTrack { elapsed: track.elapsed, ..before[i] })
            && #[trigger] runs_through(math, dts, before[i].elapsed, clock, track.elapsed)
}

/// A channel goes through frames: each of them is advanced to the next.
pub open spec fn goes_through<M: Arithmetic>(
    math: &M,
    dts: Seq<Single>,
    max: nat,
    frames: Seq<Seq<RumbleTrack>>,
    levels: Seq<(Single, Single)>,
) -> bool {
    &&& frames.len() == dts.len() + 1
    &&& levels.len() == dts.len()
    &&& forall|i: int|
        0 <= i < dts.len() ==> haptics::advanced(
            math,
            dts[i],
            max,
            frames[i],
            frames[i + 1],
            #[trigger] levels[i],
        )
}

/// The time played adds up over the frames: whatever plays at the end played
/// at the start, and the time it has played is the time it had played by then
/// plus every `dt` since.
pub proof fn law_time_played_adds_up<M: Arithmetic>(
    math: &M,
    dts: Seq<Single>,
    max: nat,
    frames: Seq<Seq<RumbleTrack>>,
    levels: Seq<(Single, Single)>,
    j: int,
)
    requires
        goes_through(math, dts, max, frames, levels),
        0 <= j < frames.last().len(),
    ensures
        played_on(math, dts, frames[0], frames.last()[j]),
    decreases dts.len(),
{
    let track = frames.last()[j];
    if dts.len() == 0 {
        let clock = seq![track.elapsed];
        assert(runs_through(math, dts, frames[0][j].elapsed, clock, track.elapsed));
    } else {
        let n = dts.len() - 1;
        let frames_before = frames.drop_last();
        let dts_before = dts.drop_last();
        let levels_before = levels.drop_last();
        assert(haptics::advanced(math, dts[n], max, frames[n], frames[n + 1], levels[n]));
        lemma_frame_ages(math, dts[n], max, frames[n], frames[n + 1], levels[n], j);
        let i = choose|i: int|
            0 <= i < frames[n].len() && track == (RumbleTrack {
                elapsed: track.elapsed,
                ..#[trigger] frames[n][i]
            }) && arithmetic::sum(math, frames[n][i].elapsed, dts[n], track.elapsed);
        assert forall|m: int| 0 <= m < dts_before.len() implies haptics::advanced(
            math,
            dts_before[m],
            max,
            frames_before[m],
            frames_before[m + 1],
            #[trigger] levels_before[m],
        ) by {
            assert(levels[m] == levels_before[m]);
        }
        assert(frames_before.last() == frames[n]);
        law_time_played_adds_up(math, dts_before, max, frames_before, levels_before, i);
        let earlier = frames[n][i];
        let (k, clock): (int, Seq<Single>) = choose|k: int, clock: Seq<Single>|
            0 <= k < frames_before[0].len() && earlier == (RumbleTrack {
                elapsed: earlier.elapsed,
                ..frames_before[0][k]
            }) && #[trigger] runs_through(
                math,
                dts_before,
                frames_before[0][k].elapsed,
                clock,
                earlier.elapsed,
            );
        let longer = clock.push(track.elapsed);
        assert forall|m: int| 0 <= m < dts.len() implies arithmetic::sum(
            math,
            longer[m],
            #[trigger] dts[m],
            longer[m + 1],
        ) by {
            if m < n {
                assert(dts_before[m] == dts[m]);
                assert(arithmetic::sum(math, clock[m], dts_before[m], clock[m + 1]));
            }
        }
        assert(runs_through(math, dts, frames[0][k].elapsed, longer, track.elapsed));
    }
}

/// Whatever plays after a frame played before it, `dt` less long.
proof fn lemma_frame_ages<M: Arithmetic>(
    math: &M,
    dt: Single,
    max: nat,
    before: Seq<RumbleTrack>,
    after: Seq<RumbleTrack>,
    level: (Single, Single),
    j: int,
)
    requires
        haptics::advanced(math, dt, max, before, after, level),
        0 <= j < after.len(),
    ensures
        exists|i: int|
            0 <= i < before.len() && after[j] == (RumbleTrack {
                elapsed: after[j].elapsed,
                ..#[trigger] before[i]
            }) && arithmetic::sum(math, before[i].elapsed, dt, after[j].elapsed),
{
    let (kept, older): (Seq<RumbleTrack>, Seq<RumbleTrack>) = choose|
        kept: Seq<RumbleTrack>,
        older: Seq<RumbleTrack>,
    |
        #[trigger] haptics::budgeted(before, max, kept) && #[trigger] haptics::aged(
            math,
            dt,
            kept,
            older,
        ) && after == older.filter(haptics::living()) && haptics::mixes(math, after, level);
    let places = choose|places: Seq<int>| #[trigger]
        haptics::survivors(before, max, places, kept);
    assert(after.contains(after[j]));
    lemma_filter_adds_nothing(older, haptics::living(), after[j]);
    let m = choose|m: int| 0 <= m < older.len() && older[m] == after[j];
    assert(kept[m] == before[places[m]]);
}

/// An effect that does not loop is gone once its time exceeds its duration,
/// and until then it plays on, as does a loop, as long as the budget allows.
pub proof fn law_effects_end_on_time<M: Arithmetic>(
    math: &M,
    dt: Single,
    max: nat,
    before: Seq<RumbleTrack>,
    after: Seq<RumbleTrack>,
    level: (Single, Single),
)
    requires
        haptics::advanced(math, dt, max, before, after, level),
    ensures
        forall|j: int|
            0 <= j < after.len() && !(#[trigger] after[j]).pattern@.repeat
                ==> after[j].elapsed.within(after[j].pattern@.duration),
        before.len() <= max ==> forall|i: int|
            0 <= i < before.len() && (#[trigger] before[i]).pattern@.repeat ==> continues(
                before[i],
                after,
            ),
        before.len() <= max ==> forall|i: int|
            0 <= i < before.len() && (forall|s: Single| #[trigger]
                arithmetic::sum(math, before[i].elapsed, dt, s) ==> s.within(
                    before[i].pattern@.duration,
                )) ==> continues(#[trigger] before[i], after),
{
    law_loops_outlive_their_duration(math, dt, max, before, after, level);
    let (kept, older): (Seq<RumbleTrack>, Seq<RumbleTrack>) = choose|
        kept: Seq<RumbleTrack>,
        older: Seq<RumbleTrack>,
    |
        #[trigger] haptics::budgeted(before, max, kept) && #[trigger] haptics::aged(
            math,
            dt,
            kept,
            older,
        ) && after == older.filter(haptics::living()) && haptics::mixes(math, after, level);
    law_budget_is_kept(before, max, kept);
    if before.len() <= max {
        assert forall|i: int|
            0 <= i < before.len() && (forall|s: Single| #[trigger]
                arithmetic::sum(math, before[i].elapsed, dt, s) ==> s.within(
                    before[i].pattern@.duration,
                )) implies continues(#[trigger] before[i], after) by {
            assert(arithmetic::sum(math, before[i].elapsed, dt, older[i].elapsed));
            assert(haptics::living()(older[i]));
            older.lemma_filter_contains(haptics::living(), i);
            let j = choose|j: int| 0 <= j < after.len() && after[j] == older[i];
            assert(after[j] == (RumbleTrack { elapsed: after[j].elapsed, ..before[i] }));
        }
    }
}

/// What a budget takes is the oldest of the lowest priority: whatever is left
/// was there, in the same order, and every effect that had to go has a lower
/// priority than each that stayed, or the same and is older.
pub proof fn law_budget_takes_the_oldest_of_the_lowest(
    before: Seq<RumbleTrack>,
    max: nat,
    after: Seq<RumbleTrack>,
)
    requires
        haptics::budgeted(before, max, after),
    ensures
        exists|places: Seq<int>|
            {
                &&& #[trigger] places.len() == after.len()
                &&& forall|k: int|
                    0 <= k < places.len() ==> 0 <= #[trigger] places[k] < before.len() && after[k]
                        == before[places[k]]
                &&& forall|j: int, k: int|
                    0 <= j < k < places.len() ==> #[trigger] places[j] < #[trigger] places[k]
                &&& forall|i: int, k: int|
                    0 <= i < before.len() && !places.contains(i) && 0 <= k < places.len() ==> (
                    #[trigger] before[i]).priority < before[#[trigger] places[k]].priority || (
                    before[i].priority == before[places[k]].priority && i < places[k])
            },
{
    let places = choose|places: Seq<int>| #[trigger]
        haptics::survivors(before, max, places, after);
    assert forall|i: int, k: int|
        0 <= i < before.len() && !places.contains(i) && 0 <= k < places.len() implies (
    #[trigger] before[i]).priority < before[#[trigger] places[k]].priority || (
    before[i].priority == before[places[k]].priority && i < places[k]) by {
        assert(haptics::expendable(before, i, places[k]));
    }
    assert(places.len() == after.len());
}

/// The highest priority among the effects.
pub open spec fn on_top(tracks: Seq<RumbleTrack>, i: int) -> bool {
    forall|j: int|
        0 <= j < tracks.len() ==> (#[trigger] tracks[j]).priority <= tracks[i].priority
}

/// What a frame sounds like: each motor is at rest, or at the level that an
/// effect of the highest priority has by then; and no such effect is louder.
pub proof fn law_a_frame_is_as_loud_as_its_loudest<M: Arithmetic>(
    math: &M,
    dt: Single,
    max: nat,
    before: Seq<RumbleTrack>,
    after: Seq<RumbleTrack>,
    level: (Single, Single),
)
    requires
        haptics::advanced(math, dt, max, before, after, level),
    ensures
        level.0.same(Single { bits: scalar::ZERO }) || exists|i: int, s: (Single, Single)|
            0 <= i < after.len() && on_top(after, i) && #[trigger] after[i].pattern@.sampled(
                math,
                after[i].elapsed,
                s,
            ) && level.0 == s.0,
        level.1.same(Single { bits: scalar::ZERO }) || exists|i: int, s: (Single, Single)|
            0 <= i < after.len() && on_top(after, i) && #[trigger] after[i].pattern@.sampled(
                math,
                after[i].elapsed,
                s,
            ) && level.1 == s.1,
        (Single { bits: scalar::ZERO }).within(level.0),
        (Single { bits: scalar::ZERO }).within(level.1),
        forall|i: int|
            0 <= i < after.len() && on_top(after, i) ==> exists|s: (Single, Single)|
                (#[trigger] after[i]).pattern@.sampled(math, after[i].elapsed, s) && (s.0.nan()
                    || s.0.within(level.0)) && (s.1.nan() || s.1.within(level.1)),
{
    let levels = choose|levels: Seq<(Single, Single)>|
        #[trigger] haptics::leveled(math, after, levels) && level == haptics::mixed(
            after,
            levels,
            after.len(),
        );
    law_the_mix_is_a_maximum(after, levels, after.len());
    if level.0 != haptics::silence().0 {
        let i = choose|i: int|
            0 <= i < after.len() && haptics::audible(after, i) && level.0 == (
            #[trigger] levels[i]).0;
        assert(after[i].pattern@.sampled(math, after[i].elapsed, levels[i]));
        assert(on_top(after, i));
    }
    if level.1 != haptics::silence().1 {
        let i = choose|i: int|
            0 <= i < after.len() && haptics::audible(after, i) && level.1 == (
            #[trigger] levels[i]).1;
        assert(after[i].pattern@.sampled(math, after[i].elapsed, levels[i]));
        assert(on_top(after, i));
    }
    assert forall|i: int| 0 <= i < after.len() && on_top(after, i) implies exists|
        s: (Single, Single),
    |
        (#[trigger] after[i]).pattern@.sampled(math, after[i].elapsed, s) && (s.0.nan()
            || s.0.within(level.0)) && (s.1.nan() || s.1.within(level.1)) by {
        assert(haptics::audible(after, i));
        assert(after[i].pattern@.sampled(math, after[i].elapsed, levels[i]));
    }
}

/// Playing adds one effect, from its start, with its own pattern and priority,
/// and leaves the others and the motors as they are.
pub proof fn law_playing_adds_one_effect(
    before: Rumble,
    pattern: RumblePattern,
    priority: u8,
    handle: RumbleHandle,
    after: Rumble,
)
    requires
        before.plays(pattern, priority, handle, after),
    ensures
        after.tracks@.len() == before.tracks@.len() + 1,
        after.tracks@.drop_last() == before.tracks@,
        after.tracks@.last().id == handle.id(),
        after.tracks@.last().pattern == pattern,
        after.tracks@.last().priority == priority,
        after.tracks@.last().elapsed.same(Single { bits: scalar::ZERO }),
        after.emitting == before.emitting,
        after.last_sent == before.last_sent,
        after.since_send == before.since_send,
        after.last_gamepad == before.last_gamepad,
        before.next_id < u64::MAX ==> after.next_id == before.next_id + 1,
{
    assert(after.tracks@.drop_last() == before.tracks@);
}

/// What is reported as felt is what the motors were last told, strong before
/// weak, and nothing where they do not run or nothing plays.
pub proof fn law_nothing_is_felt_while_nothing_plays(rumble: Rumble)
    ensures
        rumble.emitting && rumble.tracks@.len() > 0 ==> rumble.felt().0 == rumble.last_sent.0
            && rumble.felt().1 == rumble.last_sent.1,
        !rumble.emitting || rumble.tracks@.len() == 0 ==> rumble.felt().0.same(
            Single { bits: scalar::ZERO },
        ) && rumble.felt().1.same(Single { bits: scalar::ZERO }),
{
}

} // verus!
