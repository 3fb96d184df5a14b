//! What holds of joining and leaving.

use crate::arithmetic;
use crate::arithmetic::Arithmetic;
use crate::buttons;
use crate::buttons::GamepadButton;
use crate::config::{CouchConfig, JoinMode, JoinTrigger, LeaveMode};
use crate::device_laws;
use crate::entities;
use crate::gamepad;
use crate::gamepad::Gamepad;
use crate::input::PlayerInput;
use crate::join;
use crate::join::{LeaveHold, PlayerHold};
use crate::player::{
    LeaveReason, PlayerDevice, PlayerId, PlayerJoined, PlayerLeft, PlayerReconnected,
};
use crate::roster;
use crate::roster::{RosterView, SlotState};
use crate::roster_laws;
use crate::rounding;
use crate::scalar;
use crate::scalar::{Double, Single};
use crate::select;
use bevy_ecs::entity::Entity;
use vstd::prelude::*;

verus! {

/// A gamepad is queued to join exactly where it was before, or is unassigned
/// and wants in.
pub proof fn law_only_eager_gamepads_ask(
    queue: Seq<Entity>,
    mode: JoinMode,
    gamepads: Seq<Gamepad>,
    pads: Seq<Entity>,
    pad: Entity,
)
    ensures
        join::asked(queue, mode, gamepads, pads).contains(pad) <==> queue.contains(pad) || (
        pads.contains(pad) && join::eager(mode, gamepads, pad)),
    decreases pads.len(),
{
    if pads.len() > 0 {
        let rest = pads.drop_last();
        let last = pads.last();
        law_only_eager_gamepads_ask(queue, mode, gamepads, rest, pad);
        law_only_eager_gamepads_ask(queue, mode, gamepads, rest, last);
        let so_far = join::asked(queue, mode, gamepads, rest);
        let all = join::asked(queue, mode, gamepads, pads);
        assert(pads[pads.len() - 1] == last);
        if pads.contains(pad) && pad != last {
            let k = choose|k: int| 0 <= k < pads.len() && pads[k] == pad;
            assert(rest[k] == pad);
        }
        if rest.contains(pad) {
            let k = choose|k: int| 0 <= k < rest.len() && rest[k] == pad;
            assert(pads[k] == pad);
        }
        if join::eager(mode, gamepads, last) && !so_far.contains(last) {
            assert(all == so_far.push(last));
            assert(all[so_far.len() as int] == last);
            if so_far.contains(pad) {
                let k = choose|k: int| 0 <= k < so_far.len() && so_far[k] == pad;
                assert(all[k] == pad);
            }
            if all.contains(pad) && pad != last {
                let k = choose|k: int| 0 <= k < all.len() && all[k] == pad;
                assert(so_far[k] == pad);
            }
        }
    }
}

/// In manual mode nothing joins on its own; in automatic mode every unassigned
/// gamepad asks.
pub proof fn law_join_modes_queue_all_or_nothing(
    roster: RosterView,
    gamepads: Seq<Gamepad>,
    pad: Entity,
)
    ensures
        join::after_requests(roster, JoinMode::Manual, gamepads) == roster,
        roster.unassigned.contains(pad) ==> join::after_requests(
            roster,
            JoinMode::Automatic,
            gamepads,
        ).join_queue.contains(pad),
{
    lemma_manual_asks_nothing(roster.join_queue, gamepads, roster.unassigned);
    law_only_eager_gamepads_ask(
        roster.join_queue,
        JoinMode::Automatic,
        gamepads,
        roster.unassigned,
        pad,
    );
}

proof fn lemma_manual_asks_nothing(
    queue: Seq<Entity>,
    gamepads: Seq<Gamepad>,
    pads: Seq<Entity>,
)
    ensures
        join::asked(queue, JoinMode::Manual, gamepads, pads) == queue,
    decreases pads.len(),
{
    if pads.len() > 0 {
        lemma_manual_asks_nothing(queue, gamepads, pads.drop_last());
    }
}

/// Letting gamepads in displaces nobody: every player keeps their slot and
/// their entity, connected ones are not touched at all, and whoever joins gets
/// a slot that was free.
pub proof fn law_admission_displaces_nobody(
    roster: RosterView,
    adopt_any: bool,
    gamepads: Seq<Gamepad>,
    pads: Seq<Entity>,
    spawned: Seq<Entity>,
)
    requires
        roster.wf(),
    ensures
        ({
            let after = join::admitted(roster, adopt_any, gamepads, pads, spawned);
            &&& after.roster.wf()
            &&& device_laws::keeps_players(roster, after.roster)
            &&& after.roster.join_queue == roster.join_queue
            &&& after.roster.leave_queue == roster.leave_queue
            &&& forall|i: int|
                0 <= i < roster.slots.len() && (#[trigger] roster.slots[i]).connected()
                    ==> after.roster.slots[i] == roster.slots[i]
            &&& forall|i: int|
                0 <= i < roster.slots.len() && (#[trigger] after.roster.slots[i]).waiting()
                    ==> after.roster.slots[i] == roster.slots[i]
            &&& forall|k: int|
                0 <= k < after.joined.len() ==> !roster.joined((#[trigger] after.joined[k]).id)
                    && after.roster.joined(after.joined[k].id)
        }),
    decreases pads.len(),
{
    if pads.len() > 0 {
        let rest = pads.drop_last();
        law_admission_displaces_nobody(roster, adopt_any, gamepads, rest, spawned);
        let so_far = join::admitted(roster, adopt_any, gamepads, rest, spawned);
        let here = so_far.roster;
        join::lemma_longest_waiting_waits(here, here.slots.len());
        select::lemma_first(here.slots.len(), here.free());
        let after = join::admitted(roster, adopt_any, gamepads, pads, spawned);
        match select::first(here.slots.len(), here.free()) {
            Some(i) => {
                assert((here.free())(i));
                assert(!here.slots[i].occupied());
                assert(!roster.slots[i].occupied());
            },
            None => {},
        }
        assert forall|k: int| 0 <= k < after.joined.len() implies !roster.joined(
            (#[trigger] after.joined[k]).id,
        ) && after.roster.joined(after.joined[k].id) by {
            if k < so_far.joined.len() {
                assert(after.joined[k] == so_far.joined[k]);
                assert(here.joined(so_far.joined[k].id));
            }
        }
    }
}

/// However many gamepads are let in, none ends up driving two players.
pub proof fn law_admission_keeps_gamepads_apart(
    roster: RosterView,
    adopt_any: bool,
    gamepads: Seq<Gamepad>,
    pads: Seq<Entity>,
    spawned: Seq<Entity>,
)
    requires
        roster.wf(),
        device_laws::distinct_pads(roster),
    ensures
        device_laws::distinct_pads(
            join::admitted(roster, adopt_any, gamepads, pads, spawned).roster,
        ),
    decreases pads.len(),
{
    if pads.len() > 0 {
        let rest = pads.drop_last();
        let pad = pads.last();
        law_admission_keeps_gamepads_apart(roster, adopt_any, gamepads, rest, spawned);
        law_admission_displaces_nobody(roster, adopt_any, gamepads, rest, spawned);
        let here = join::admitted(roster, adopt_any, gamepads, rest, spawned).roster;
        let after = join::admitted(roster, adopt_any, gamepads, pads, spawned).roster;
        device_laws::lemma_owner_is_taken(here, pad);
        join::lemma_longest_waiting_waits(here, here.slots.len());
        select::lemma_first(here.slots.len(), here.free());
        assert forall|i: int, j: int, e: Entity|
            0 <= i < after.slots.len() && 0 <= j < after.slots.len()
                && #[trigger] after.slots[i].holds(e) && #[trigger] after.slots[j].holds(
                e,
            ) implies i == j by {
            if e == pad {
                if here.owner(pad) is None {
                    assert(!here.slots[i].holds(e));
                    assert(!here.slots[j].holds(e));
                } else {
                    assert(here.slots[i].holds(e));
                    assert(here.slots[j].holds(e));
                }
            } else {
                assert(here.slots[i].holds(e));
                assert(here.slots[j].holds(e));
            }
        }
    }
}

/// Whoever comes back by joining was waiting, and is announced as back on the
/// same hardware exactly where the gamepad looks like the one they lost.
/// Without `adopt_any` nobody comes back that way.
pub proof fn law_borrowed_controllers_are_told_apart(
    roster: RosterView,
    adopt_any: bool,
    gamepads: Seq<Gamepad>,
    pads: Seq<Entity>,
    spawned: Seq<Entity>,
    k: int,
)
    requires
        roster.wf(),
    ensures
        ({
            let back = join::admitted(roster, adopt_any, gamepads, pads, spawned).reconnected;
            &&& !adopt_any ==> back.len() == 0
            &&& 0 <= k < back.len() ==> {
                let slot = roster.slots[back[k].id.0 as int];
                &&& back[k].id.0 < roster.slots.len()
                &&& slot.waiting()
                &&& back[k].player_entity == slot->player_entity
                &&& back[k].same_device == slot->fingerprint.alike(
                    gamepad::fingerprint(gamepads, back[k].gamepad),
                )
            }
        }),
    decreases pads.len(),
{
    if pads.len() > 0 {
        let rest = pads.drop_last();
        law_borrowed_controllers_are_told_apart(roster, adopt_any, gamepads, rest, spawned, k);
        law_admission_displaces_nobody(roster, adopt_any, gamepads, rest, spawned);
        let here = join::admitted(roster, adopt_any, gamepads, rest, spawned).roster;
        join::lemma_longest_waiting_waits(here, here.slots.len());
        match join::adopted(here, adopt_any) {
            Some(i) => {
                assert(here.slots[i] == roster.slots[i]);
            },
            None => {},
        }
    }
}

/// Someone who waits gets first refusal: while anybody does, a gamepad that
/// joins restores the player who has waited longest. No slot is opened, so
/// nobody is spawned, and everybody else is left alone.
pub proof fn law_waiting_players_get_first_refusal(
    roster: RosterView,
    gamepads: Seq<Gamepad>,
    pad: Entity,
    spawned: Seq<Entity>,
    waiting: int,
    id: PlayerId,
)
    requires
        roster.wf(),
        !device_laws::taken(roster, pad),
        0 <= waiting < roster.slots.len(),
        roster.slots[waiting].waiting(),
    ensures
        ({
            let after = join::admitted(roster, true, gamepads, seq![pad], spawned);
            let first = roster.longest_waiting(roster.slots.len());
            &&& after.joined.len() == 0
            &&& after.refused.len() == 0
            &&& first is Some
            &&& after.reconnected.len() == 1
            &&& after.reconnected[0].id == roster::id_of(first->0)
            &&& after.reconnected[0].player_entity == roster.slots[first->0]->player_entity
            &&& after.reconnected[0].gamepad == pad
            &&& after.roster.slots[first->0].holds(pad)
            &&& forall|i: int|
                0 <= i < roster.slots.len() && i != first->0
                    ==> #[trigger] after.roster.slots[i] == roster.slots[i]
            &&& !after.roster.unassigned.contains(pad)
        }),
        !join::opens_at(roster, true, gamepads, seq![pad], spawned, 0, id),
{
    device_laws::lemma_owner_is_taken(roster, pad);
    lemma_somebody_waits(roster, roster.slots.len(), waiting);
    join::lemma_longest_waiting_waits(roster, roster.slots.len());
    let pads = seq![pad];
    assert(pads.drop_last() == Seq::<Entity>::empty());
    assert(pads.take(0) == Seq::<Entity>::empty());
    assert(pads.last() == pad);
    reveal_with_fuel(join::admitted, 2);
    let after = join::admitted(roster, true, gamepads, pads, spawned).roster;
    let test = entities::other_than(pad);
    assert(after.unassigned == roster.unassigned.filter(test));
    if after.unassigned.contains(pad) {
        let i = choose|i: int| 0 <= i < after.unassigned.len() && after.unassigned[i] == pad;
        roster.unassigned.lemma_filter_pred(test, i);
    }
}

proof fn lemma_somebody_waits(roster: RosterView, n: nat, waiting: int)
    requires
        roster.wf(),
        n <= roster.slots.len(),
        0 <= waiting < n,
        roster.slots[waiting].waiting(),
    ensures
        roster.longest_waiting(n) is Some,
    decreases n,
{
    assert(roster.slots[waiting].consistent());
    if waiting < n - 1 {
        lemma_somebody_waits(roster, (n - 1) as nat, waiting);
    }
}

/// A full lobby turns every gamepad away where there is nobody to restore: no
/// slot is opened, so nobody is spawned, and nothing changes.
pub proof fn law_a_full_lobby_turns_gamepads_away(
    roster: RosterView,
    adopt_any: bool,
    gamepads: Seq<Gamepad>,
    pads: Seq<Entity>,
    spawned: Seq<Entity>,
    k: int,
    id: PlayerId,
)
    requires
        forall|i: int| 0 <= i < roster.slots.len() ==> (#[trigger] roster.slots[i]).occupied(),
        adopt_any ==> forall|i: int|
            0 <= i < roster.slots.len() ==> !(#[trigger] roster.slots[i]).waiting(),
    ensures
        ({
            let after = join::admitted(roster, adopt_any, gamepads, pads, spawned);
            &&& after.roster == roster
            &&& after.joined.len() == 0
            &&& after.reconnected.len() == 0
        }),
        !join::opens_at(roster, adopt_any, gamepads, pads, spawned, k, id),
    decreases pads.len(),
{
    roster_laws::law_a_full_lobby_has_no_free_slot(roster);
    join::lemma_longest_waiting_waits(roster, roster.slots.len());
    if pads.len() > 0 {
        law_a_full_lobby_turns_gamepads_away(
            roster,
            adopt_any,
            gamepads,
            pads.drop_last(),
            spawned,
            k,
            id,
        );
    }
    if 0 <= k < pads.len() {
        law_a_full_lobby_turns_gamepads_away(
            roster,
            adopt_any,
            gamepads,
            pads.take(k),
            spawned,
            k,
            id,
        );
    }
}

/// Letting go of the leave button starts the hold over, and a hold that is
/// complete starts over too.
pub proof fn law_holds_start_over<M: Arithmetic>(
    math: &M,
    required: Single,
    dt: Single,
    before: PlayerHold,
    after: PlayerHold,
    out: bool,
)
    requires
        join::held_on(math, required, dt, before, after, out),
    ensures
        !before.holding || out ==> after.hold.held_secs.same(Single { bits: scalar::ZERO }),
        !before.holding ==> !out,
        after.player == before.player,
{
}

/// Nobody leaves by a button while leaving is up to the game, nor while their
/// controller is gone.
pub proof fn law_manual_leaving_ignores_buttons(mode: LeaveMode, input: PlayerInput)
    ensures
        mode is Manual ==> !join::leave_button_down(mode, input),
        !input.connected ==> !join::leave_button_down(mode, input),
{
}

/// Only a grace period ends a wait: without one the queue stays as it is, and
/// with one nobody is added to it but players who miss their hardware.
pub proof fn law_only_missing_players_time_out<M: Arithmetic>(
    math: &M,
    grace: Option<Single>,
    now: Double,
    before: RosterView,
    after: RosterView,
    id: PlayerId,
)
    requires
        before.wf(),
        join::after_expiry(math, grace, now, before, after),
    ensures
        grace is None ==> after == before,
        after.slots == before.slots,
        roster::is_leaving(before.leave_queue, id) ==> roster::is_leaving(after.leave_queue, id),
        roster::is_leaving(after.leave_queue, id) && !roster::is_leaving(before.leave_queue, id)
            ==> id.0 < before.slots.len() && before.slots[id.0 as int].waiting(),
{
    if grace is Some {
        let ids = choose|ids: Seq<PlayerId>| #[trigger]
            before.expired(math, grace->0, now, ids) && after == (RosterView {
                leave_queue: join::timed_out(before.leave_queue, ids),
                ..before
            });
        roster_laws::law_only_waiting_slots_expire(math, before, grace->0, now, ids);
        lemma_timed_out(before.leave_queue, ids, id);
        if ids.contains(id) {
            let k = choose|k: int| 0 <= k < ids.len() && ids[k] == id;
            assert(before.slots[ids[k].0 as int].waiting());
        }
    }
}

proof fn lemma_timed_out(queue: Seq<(PlayerId, LeaveReason)>, ids: Seq<PlayerId>, id: PlayerId)
    ensures
        roster::is_leaving(join::timed_out(queue, ids), id) <==> roster::is_leaving(queue, id)
            || ids.contains(id),
    decreases ids.len(),
{
    if ids.len() > 0 {
        let rest = ids.drop_last();
        lemma_timed_out(queue, rest, id);
        lemma_queued(join::timed_out(queue, rest), ids.last(), LeaveReason::TimedOut, id);
        assert(ids[ids.len() - 1] == ids.last());
        if ids.contains(id) && id != ids.last() {
            let k = choose|k: int| 0 <= k < ids.len() && ids[k] == id;
            assert(rest[k] == id);
        }
        if rest.contains(id) {
            let k = choose|k: int| 0 <= k < rest.len() && rest[k] == id;
            assert(ids[k] == id);
        }
    }
}

proof fn lemma_queued(
    queue: Seq<(PlayerId, LeaveReason)>,
    id: PlayerId,
    reason: LeaveReason,
    other: PlayerId,
)
    ensures
        roster::is_leaving(roster::queued(queue, id, reason), other) <==> roster::is_leaving(
            queue,
            other,
        ) || other == id,
{
    let after = roster::queued(queue, id, reason);
    if !roster::is_leaving(queue, id) {
        assert(after[queue.len() as int].0 == id);
        if roster::is_leaving(queue, other) {
            let k = choose|k: int| 0 <= k < queue.len() && (#[trigger] queue[k]).0 == other;
            assert(after[k].0 == other);
        }
        if roster::is_leaving(after, other) && other != id {
            let k = choose|k: int| 0 <= k < after.len() && (#[trigger] after[k]).0 == other;
            assert(queue[k].0 == other);
        }
    }
}

/// Whoever is queued to leave has left: their slot is empty. Everybody else
/// keeps theirs, untouched, and those who are announced as gone were there.
pub proof fn law_leaving_empties_the_slot(
    roster: RosterView,
    gamepads: Seq<Gamepad>,
    requests: Seq<(PlayerId, LeaveReason)>,
    id: PlayerId,
)
    ensures
        ({
            let after = join::departed(roster, gamepads, requests);
            &&& after.roster.slots.len() == roster.slots.len()
            &&& roster::is_leaving(requests, id) ==> !after.roster.joined(id)
            &&& !roster::is_leaving(requests, id) && id.0 < roster.slots.len()
                ==> after.roster.slots[id.0 as int] == roster.slots[id.0 as int]
            &&& (exists|k: int| 0 <= k < after.left.len() && (#[trigger] after.left[k]).id == id)
                <==> roster::is_leaving(requests, id) && roster.joined(id)
            &&& after.roster.join_queue == roster.join_queue
            &&& after.roster.leave_queue == roster.leave_queue
        }),
    decreases requests.len(),
{
    if requests.len() > 0 {
        let rest = requests.drop_last();
        let last = requests.last();
        law_leaving_empties_the_slot(roster, gamepads, rest, id);
        law_leaving_empties_the_slot(roster, gamepads, rest, last.0);
        let so_far = join::departed(roster, gamepads, rest);
        let after = join::departed(roster, gamepads, requests);
        assert(requests[requests.len() - 1].0 == last.0);
        if roster::is_leaving(rest, id) {
            let k = choose|k: int| 0 <= k < rest.len() && (#[trigger] rest[k]).0 == id;
            assert(requests[k].0 == id);
        }
        if roster::is_leaving(requests, id) && id != last.0 {
            let k = choose|k: int| 0 <= k < requests.len() && (#[trigger] requests[k]).0 == id;
            assert(rest[k].0 == id);
        }
        if so_far.roster.slot(last.0) is Some {
            let n = so_far.left.len() as int;
            assert(after.left[n].id == last.0);
            if exists|k: int| 0 <= k < so_far.left.len() && (#[trigger] so_far.left[k]).id == id {
                let k = choose|k: int|
                    0 <= k < so_far.left.len() && (#[trigger] so_far.left[k]).id == id;
                assert(after.left[k].id == id);
            }
            if exists|k: int| 0 <= k < after.left.len() && (#[trigger] after.left[k]).id == id {
                let k = choose|k: int|
                    0 <= k < after.left.len() && (#[trigger] after.left[k]).id == id;
                if k < n {
                    assert(so_far.left[k].id == id);
                }
            }
        }
    }
}

/// Every gamepad that is told to stop is a live one, and waits in the pool to
/// rejoin; nothing is taken out of the pool.
pub proof fn law_live_gamepads_return_to_the_pool(
    roster: RosterView,
    gamepads: Seq<Gamepad>,
    requests: Seq<(PlayerId, LeaveReason)>,
)
    ensures
        ({
            let after = join::departed(roster, gamepads, requests);
            &&& forall|k: int|
                0 <= k < after.stopped.len() ==> gamepad::live(
                    gamepads,
                    #[trigger] after.stopped[k],
                ) && after.roster.unassigned.contains(after.stopped[k])
            &&& forall|pad: Entity| #[trigger]
                roster.unassigned.contains(pad) ==> after.roster.unassigned.contains(pad)
        }),
    decreases requests.len(),
{
    if requests.len() > 0 {
        let rest = requests.drop_last();
        law_live_gamepads_return_to_the_pool(roster, gamepads, rest);
        let so_far = join::departed(roster, gamepads, rest);
        let after = join::departed(roster, gamepads, requests);
        let pool = so_far.roster.unassigned;
        assert forall|pad: Entity| #[trigger] pool.contains(
            pad,
        ) implies after.roster.unassigned.contains(pad) by {
            let k = choose|k: int| 0 <= k < pool.len() && pool[k] == pad;
            assert(after.roster.unassigned[k] == pad);
        }
        assert forall|k: int| 0 <= k < after.stopped.len() implies gamepad::live(
            gamepads,
            #[trigger] after.stopped[k],
        ) && after.roster.unassigned.contains(after.stopped[k]) by {
            if k < so_far.stopped.len() {
                assert(after.stopped[k] == so_far.stopped[k]);
                assert(pool.contains(so_far.stopped[k]));
            } else if !pool.contains(after.stopped[k]) {
                assert(after.roster.unassigned[pool.len() as int] == after.stopped[k]);
            }
        }
    }
}

/// A frame serves every request: afterwards nobody is queued to join or to
/// leave.
pub proof fn law_queues_drain<M: Arithmetic>(
    math: &M,
    config: CouchConfig,
    now: Double,
    dt: Single,
    gamepads: Seq<Gamepad>,
    start: RosterView,
    spawned: Seq<Entity>,
    players_before: Seq<PlayerHold>,
    players_after: Seq<PlayerHold>,
    after: RosterView,
    left: Seq<PlayerLeft>,
    stopped: Seq<Entity>,
)
    requires
        start.wf(),
        join::settled(
            math,
            config,
            now,
            dt,
            gamepads,
            join::admission(start, config, gamepads, spawned).roster,
            players_before,
            players_after,
            after,
            left,
            stopped,
        ),
    ensures
        after.join_queue.len() == 0,
        after.leave_queue.len() == 0,
{
    let seated = join::admission(start, config, gamepads, spawned).roster;
    law_admission_displaces_nobody(
        join::without_requests(start),
        config.reconnect.adopt_any,
        gamepads,
        start.join_queue,
        spawned,
    );
    let (outs, leaving): (Seq<bool>, RosterView) = choose|outs: Seq<bool>, leaving: RosterView|
        #[trigger] join::all_held_on(
            math,
            config.hold_secs(),
            dt,
            players_before,
            players_after,
            outs,
            players_before.len() as int,
        ) && #[trigger] join::after_expiry(
            math,
            config.reconnect.grace_secs,
            now,
            join::after_holds(seated, players_before, outs),
            leaving,
        ) && (join::Departure { roster: after, left, stopped }) == join::departed(
            join::without_leavers(leaving),
            gamepads,
            leaving.leave_queue,
        );
    law_leaving_empties_the_slot(
        join::without_leavers(leaving),
        gamepads,
        leaving.leave_queue,
        PlayerId(0),
    );
}

/// Neither letting players go nor resizing the lobby puts a gamepad in two
/// hands.
pub proof fn law_leaving_and_resizing_keep_gamepads_apart(
    roster: RosterView,
    gamepads: Seq<Gamepad>,
    requests: Seq<(PlayerId, LeaveReason)>,
    max: u8,
)
    requires
        roster.wf(),
        device_laws::distinct_pads(roster),
    ensures
        device_laws::distinct_pads(join::departed(roster, gamepads, requests).roster),
        device_laws::distinct_pads(roster.resize(max)),
{
    let after = join::departed(roster, gamepads, requests).roster;
    law_leaving_empties_the_slot(roster, gamepads, requests, PlayerId(0));
    assert forall|i: int, pad: Entity|
        0 <= i < after.slots.len() && #[trigger] after.slots[i].holds(
            pad,
        ) implies roster.slots[i].holds(pad) by {
        law_leaving_empties_the_slot(roster, gamepads, requests, roster::id_of(i));
    }
    let resized = roster.resize(max);
    assert forall|i: int, pad: Entity|
        0 <= i < resized.slots.len() && #[trigger] resized.slots[i].holds(pad) implies i
        < roster.slots.len() && roster.slots[i].holds(pad) by {}
}

/// Slots are stable: whatever else a frame does, everybody who is not
/// announced as gone is where they were, with the same entity.
pub proof fn law_players_stay_until_they_leave<M: Arithmetic>(
    math: &M,
    config: CouchConfig,
    now: Double,
    dt: Single,
    gamepads: Seq<Gamepad>,
    start: RosterView,
    spawned: Seq<Entity>,
    players_before: Seq<PlayerHold>,
    players_after: Seq<PlayerHold>,
    after: RosterView,
    left: Seq<PlayerLeft>,
    stopped: Seq<Entity>,
    id: PlayerId,
)
    requires
        start.wf(),
        join::settled(
            math,
            config,
            now,
            dt,
            gamepads,
            join::admission(start, config, gamepads, spawned).roster,
            players_before,
            players_after,
            after,
            left,
            stopped,
        ),
        start.joined(id),
        forall|k: int| 0 <= k < left.len() ==> (#[trigger] left[k]).id != id,
    ensures
        after.joined(id),
        after.slots[id.0 as int]->player_entity == start.slots[id.0 as int]->player_entity,
{
    let seated = join::admission(start, config, gamepads, spawned).roster;
    law_admission_displaces_nobody(
        join::without_requests(start),
        config.reconnect.adopt_any,
        gamepads,
        start.join_queue,
        spawned,
    );
    assert(join::without_requests(start).slots[id.0 as int].occupied());
    let (outs, leaving): (Seq<bool>, RosterView) = choose|outs: Seq<bool>, leaving: RosterView|
        #[trigger] join::all_held_on(
            math,
            config.hold_secs(),
            dt,
            players_before,
            players_after,
            outs,
            players_before.len() as int,
        ) && #[trigger] join::after_expiry(
            math,
            config.reconnect.grace_secs,
            now,
            join::after_holds(seated, players_before, outs),
            leaving,
        ) && (join::Departure { roster: after, left, stopped }) == join::departed(
            join::without_leavers(leaving),
            gamepads,
            leaving.leave_queue,
        );
    law_leaving_empties_the_slot(
        join::without_leavers(leaving),
        gamepads,
        leaving.leave_queue,
        id,
    );
}

/// What the holds of a frame do to the leave queue: everybody who was in it
/// stays in it, for the reason they had. Whoever is new in it was holding the
/// leave button, their time held plus `dt` has reached the required time, and
/// they leave at their own request. And whoever holds for long enough is in it.
pub proof fn law_only_completed_holds_leave<M: Arithmetic>(
    math: &M,
    required: Single,
    dt: Single,
    before: Seq<PlayerHold>,
    after: Seq<PlayerHold>,
    outs: Seq<bool>,
    queue: Seq<(PlayerId, LeaveReason)>,
    id: PlayerId,
)
    requires
        join::all_held_on(math, required, dt, before, after, outs, before.len() as int),
    ensures
        ({
            let longer = join::walked_out(queue, before, outs);
            &&& queue.len() <= longer.len()
            &&& forall|k: int| 0 <= k < queue.len() ==> #[trigger] longer[k] == queue[k]
            &&& forall|k: int|
                queue.len() <= k < longer.len() ==> (#[trigger] longer[k]).1
                    == LeaveReason::Requested
            &&& (exists|k: int| 0 <= k < longer.len() && (#[trigger] longer[k]).0 == id)
                ==> (exists|k: int| 0 <= k < queue.len() && (#[trigger] queue[k]).0 == id)
                || exists|i: int, held: Single|
                0 <= i < before.len() && before[i].player == id && before[i].holding
                    && #[trigger] arithmetic::sum(math, before[i].hold.held_secs, dt, held)
                    && required.within(held)
            &&& forall|i: int|
                0 <= i < before.len() && (#[trigger] before[i]).player == id && before[i].holding
                    && (forall|held: Single| #[trigger]
                    arithmetic::sum(math, before[i].hold.held_secs, dt, held) ==> required.within(
                        held,
                    )) ==> exists|k: int| 0 <= k < longer.len() && (#[trigger] longer[k]).0 == id
        }),
{
    lemma_walked_out(queue, before, outs, id);
    let longer = join::walked_out(queue, before, outs);
    if roster::is_leaving(longer, id) && !roster::is_leaving(queue, id) {
        let i = choose|i: int|
            0 <= i < outs.len() && #[trigger] outs[i] && before[i].player == id;
        assert(join::held_on(math, required, dt, before[i], after[i], outs[i]));
        let held = choose|held: Single| #[trigger]
            arithmetic::sum(math, before[i].hold.held_secs, dt, held) && outs[i]
                == required.within(held);
        assert(arithmetic::sum(math, before[i].hold.held_secs, dt, held));
    }
    assert forall|i: int|
        0 <= i < before.len() && (#[trigger] before[i]).player == id && before[i].holding && (
        forall|held: Single| #[trigger]
            arithmetic::sum(math, before[i].hold.held_secs, dt, held) ==> required.within(
                held,
            )) implies exists|k: int| 0 <= k < longer.len() && (#[trigger] longer[k]).0 == id by {
        assert(join::held_on(math, required, dt, before[i], after[i], outs[i]));
        assert(outs[i]);
        assert(roster::is_leaving(longer, id));
    }
}

/// What the queue holds once the first players have walked out.
proof fn lemma_walked_out(
    queue: Seq<(PlayerId, LeaveReason)>,
    players: Seq<PlayerHold>,
    outs: Seq<bool>,
    id: PlayerId,
)
    ensures
        ({
            let longer = join::walked_out(queue, players, outs);
            &&& queue.len() <= longer.len()
            &&& forall|k: int| 0 <= k < queue.len() ==> #[trigger] longer[k] == queue[k]
            &&& forall|k: int|
                queue.len() <= k < longer.len() ==> (#[trigger] longer[k]).1
                    == LeaveReason::Requested
            &&& roster::is_leaving(longer, id) <==> roster::is_leaving(queue, id) || exists|i: int|
                0 <= i < outs.len() && #[trigger] outs[i] && players[i].player == id
        }),
    decreases outs.len(),
{
    if outs.len() > 0 {
        let rest = outs.drop_last();
        let n = outs.len() - 1;
        lemma_walked_out(queue, players, rest, id);
        let so_far = join::walked_out(queue, players, rest);
        lemma_queued(so_far, players[n].player, LeaveReason::Requested, id);
        assert forall|i: int| 0 <= i < rest.len() implies rest[i] == #[trigger] outs[i] by {}
        if exists|i: int| 0 <= i < rest.len() && #[trigger] rest[i] && players[i].player == id {
            let i = choose|i: int|
                0 <= i < rest.len() && #[trigger] rest[i] && players[i].player == id;
            assert(outs[i]);
        }
        if exists|i: int| 0 <= i < outs.len() && #[trigger] outs[i] && players[i].player == id {
            let i = choose|i: int|
                0 <= i < outs.len() && #[trigger] outs[i] && players[i].player == id;
            if i < n {
                assert(rest[i]);
            }
        }
    }
}

/// How a hold moves in a frame: a button that is up means no time held, and one
/// that is down adds `dt` to it, until the required time is reached and it
/// starts over. The player stays the same, and what is required is shown.
pub proof fn law_holding_adds_up<M: Arithmetic>(
    math: &M,
    required: Single,
    dt: Single,
    before: Seq<PlayerHold>,
    after: Seq<PlayerHold>,
    outs: Seq<bool>,
    i: int,
)
    requires
        join::all_held_on(math, required, dt, before, after, outs, before.len() as int),
        0 <= i < before.len(),
    ensures
        after.len() == before.len(),
        after[i].player == before[i].player,
        after[i].holding == before[i].holding,
        !required.nan() ==> after[i].hold.required_secs.same(required),
        !before[i].holding ==> after[i].hold.held_secs.same(Single { bits: scalar::ZERO }),
        before[i].holding ==> exists|held: Single| #[trigger]
            arithmetic::sum(math, before[i].hold.held_secs, dt, held) && {
                &&& required.within(held) ==> after[i].hold.held_secs.same(
                    Single { bits: scalar::ZERO },
                )
                &&& !required.within(held) ==> after[i].hold.held_secs == held
            },
{
    assert(join::held_on(math, required, dt, before[i], after[i], outs[i]));
    if before[i].holding {
        let held = choose|held: Single| #[trigger]
            arithmetic::sum(math, before[i].hold.held_secs, dt, held) && outs[i]
                == required.within(held) && after[i] == (PlayerHold {
                hold: join::LeaveHold {
                    held_secs: if outs[i] {
                        Single { bits: scalar::ZERO }
                    } else {
                        held
                    },
                    required_secs: required,
                },
                ..before[i]
            });
        assert(arithmetic::sum(math, before[i].hold.held_secs, dt, held));
    }
}

/// What makes a gamepad join: in automatic mode it being there, in manual mode
/// nothing, and otherwise a button that went down on it in this frame: the one
/// that is asked for, one of those that are, or any but the analog triggers,
/// `Select`, `Mode` and buttons beyond the standard ones.
pub open spec fn pressed_to_join(mode: JoinMode, pad: Gamepad) -> bool {
    match mode {
        JoinMode::Automatic => true,
        JoinMode::Manual => false,
        JoinMode::PressToJoin(JoinTrigger::Button(button)) => pad.just_pressed@.contains(button),
        JoinMode::PressToJoin(JoinTrigger::AnyOf(list)) => exists|button: GamepadButton| #[trigger]
            list@.contains(button) && pad.just_pressed@.contains(button),
        JoinMode::PressToJoin(JoinTrigger::AnyButton) => exists|button: GamepadButton| #[trigger]
            pad.just_pressed@.contains(button) && !(button is Other) && !(button is LeftTrigger2)
                && !(button is RightTrigger2) && !(button is Select) && !(button is Mode),
    }
}

/// Asking to join: a gamepad that is there asks where its player did what the
/// mode wants, at the end of the queue, and once. Nothing else changes.
pub proof fn law_pressing_asks_to_join(
    queue: Seq<Entity>,
    mode: JoinMode,
    gamepads: Seq<Gamepad>,
    i: int,
)
    requires
        0 <= i < gamepads.len(),
        forall|j: int| 0 <= j < i ==> (#[trigger] gamepads[j]).entity != gamepads[i].entity,
    ensures
        ({
            let pad = gamepads[i].entity;
            let after = join::asked(queue, mode, gamepads, seq![pad]);
            &&& pressed_to_join(mode, gamepads[i]) && !queue.contains(pad) ==> after == queue.push(
                pad,
            )
            &&& !pressed_to_join(mode, gamepads[i]) || queue.contains(pad) ==> after == queue
        }),
{
    let pad = gamepads[i].entity;
    gamepad::law_gamepads_are_found_by_their_entity(gamepads, pad);
    assert(gamepad::place(gamepads, pad) == Some(i));
    let pads = seq![pad];
    assert(pads.drop_last() == Seq::<Entity>::empty());
    assert(pads.last() == pad);
    reveal_with_fuel(join::asked, 2);
    let here = gamepads[i];
    match mode {
        JoinMode::PressToJoin(trigger) => {
            lemma_fired(trigger, here);
            assert(join::eager(mode, gamepads, pad) == join::fired(trigger, here));
        },
        _ => {},
    }
    assert(join::eager(mode, gamepads, pad) == pressed_to_join(mode, here));
}

proof fn lemma_fired(trigger: JoinTrigger, pad: Gamepad)
    ensures
        join::fired(trigger, pad) == pressed_to_join(JoinMode::PressToJoin(trigger), pad),
{
    match trigger {
        JoinTrigger::Button(button) => {},
        JoinTrigger::AnyOf(list) => {
            if join::fired(trigger, pad) {
                let i = choose|i: int|
                    0 <= i < list@.len() && pad.went_down(#[trigger] list@[i]);
                assert(list@.contains(list@[i]));
            }
            if exists|button: GamepadButton| #[trigger]
                list@.contains(button) && pad.just_pressed@.contains(button) {
                let button = choose|button: GamepadButton| #[trigger]
                    list@.contains(button) && pad.just_pressed@.contains(button);
                let i = choose|i: int| 0 <= i < list@.len() && list@[i] == button;
                assert(pad.went_down(list@[i]));
            }
        },
        JoinTrigger::AnyButton => {
            if join::fired(trigger, pad) {
                let button = choose|button: GamepadButton| #[trigger]
                    button.joins() && pad.went_down(button);
                assert(pad.just_pressed@.contains(button));
            }
            if exists|button: GamepadButton| #[trigger]
                pad.just_pressed@.contains(button) && !(button is Other) && !(
                button is LeftTrigger2) && !(button is RightTrigger2) && !(button is Select) && !(
                button is Mode) {
                let button = choose|button: GamepadButton| #[trigger]
                    pad.just_pressed@.contains(button) && !(button is Other) && !(
                    button is LeftTrigger2) && !(button is RightTrigger2) && !(button is Select)
                        && !(button is Mode);
                assert(button.joins());
            }
        },
    }
}

/// Requests come in one after the other: gamepads that ask later are queued
/// behind those who asked before.
pub proof fn law_requests_queue_up(
    queue: Seq<Entity>,
    mode: JoinMode,
    gamepads: Seq<Gamepad>,
    one: Seq<Entity>,
    two: Seq<Entity>,
)
    ensures
        join::asked(queue, mode, gamepads, one + two) == join::asked(
            join::asked(queue, mode, gamepads, one),
            mode,
            gamepads,
            two,
        ),
    decreases two.len(),
{
    if two.len() == 0 {
        assert(one + two == one);
    } else {
        law_requests_queue_up(queue, mode, gamepads, one, two.drop_last());
        assert((one + two).drop_last() == one + two.drop_last());
        assert((one + two).last() == two.last());
    }
}

/// Gamepads are let in one after the other: what comes of the later ones is
/// what comes of them where the earlier ones have left the roster.
pub proof fn law_gamepads_are_let_in_one_by_one(
    roster: RosterView,
    adopt_any: bool,
    gamepads: Seq<Gamepad>,
    one: Seq<Entity>,
    two: Seq<Entity>,
    spawned: Seq<Entity>,
    others: Seq<Entity>,
)
    requires
        ({
            let first = join::admitted(roster, adopt_any, gamepads, one, spawned);
            let second = join::admitted(first.roster, adopt_any, gamepads, two, others);
            forall|k: int|
                0 <= k < second.joined.len() ==> #[trigger] others[k] == spawned[first.joined.len()
                    + k]
        }),
    ensures
        ({
            let first = join::admitted(roster, adopt_any, gamepads, one, spawned);
            let second = join::admitted(first.roster, adopt_any, gamepads, two, others);
            let both = join::admitted(roster, adopt_any, gamepads, one + two, spawned);
            &&& both.roster == second.roster
            &&& both.joined == first.joined + second.joined
            &&& both.reconnected == first.reconnected + second.reconnected
            &&& both.refused == first.refused + second.refused
        }),
    decreases two.len(),
{
    let first = join::admitted(roster, adopt_any, gamepads, one, spawned);
    if two.len() == 0 {
        assert(one + two == one);
    } else {
        let rest = two.drop_last();
        let so_far = join::admitted(first.roster, adopt_any, gamepads, rest, others);
        let second = join::admitted(first.roster, adopt_any, gamepads, two, others);
        assert(so_far.joined.len() <= second.joined.len());
        law_gamepads_are_let_in_one_by_one(
            roster,
            adopt_any,
            gamepads,
            one,
            rest,
            spawned,
            others,
        );
        assert((one + two).drop_last() == one + rest);
        assert((one + two).last() == two.last());
        if second.joined.len() > so_far.joined.len() {
            let k = so_far.joined.len() as int;
            assert(others[k] == spawned[first.joined.len() + k]);
        }
        let both = join::admitted(roster, adopt_any, gamepads, one + two, spawned);
        assert(both.joined == first.joined + second.joined);
        assert(both.reconnected == first.reconnected + second.reconnected);
        assert(both.refused == first.refused + second.refused);
    }
}

/// Nobody drives on the gamepad.
pub open spec fn unclaimed(roster: RosterView, pad: Entity) -> bool {
    forall|j: int|
        0 <= j < roster.slots.len() && (#[trigger] roster.slots[j]) is Occupied
            ==> roster.slots[j]->device != PlayerDevice::Gamepad(pad)
}

/// Nobody is left to restore: everybody has their hardware, or a stranger's
/// gamepad is not to be handed to them.
pub open spec fn nobody_to_restore(roster: RosterView, adopt_any: bool) -> bool {
    adopt_any ==> forall|j: int|
        0 <= j < roster.slots.len() && (#[trigger] roster.slots[j]) is Occupied
            ==> roster.slots[j]->device != PlayerDevice::Missing
}

/// A gamepad that nobody drives on takes the lowest free slot, where there is
/// nobody to restore: the new player is there with their own entity, that
/// gamepad and its look, no other slot changes, and the gamepad is out of the
/// pool. Where no slot is free it is refused and nothing changes. One that
/// somebody drives on changes nothing either way.
pub proof fn law_a_gamepad_takes_the_lowest_free_slot(
    roster: RosterView,
    adopt_any: bool,
    gamepads: Seq<Gamepad>,
    pad: Entity,
    spawned: Seq<Entity>,
    i: int,
)
    requires
        roster.wf(),
    ensures
        ({
            let after = join::admitted(roster, adopt_any, gamepads, seq![pad], spawned);
            &&& unclaimed(roster, pad) && nobody_to_restore(roster, adopt_any) && 0 <= i
                < roster.slots.len() && roster.slots[i] is Empty && (forall|j: int|
                0 <= j < i ==> (#[trigger] roster.slots[j]) is Occupied) ==> {
                &&& after.roster.slots == roster.slots.update(
                    i,
                    SlotState::Occupied {
                        player_entity: spawned[0],
                        device: PlayerDevice::Gamepad(pad),
                        fingerprint: gamepad::fingerprint(gamepads, pad),
                        lost_at: None,
                    },
                )
                &&& after.joined == seq![
                    PlayerJoined {
                        id: PlayerId(i as u8),
                        player_entity: spawned[0],
                        gamepad: pad,
                    },
                ]
                &&& after.reconnected.len() == 0
                &&& after.refused.len() == 0
                &&& !after.roster.unassigned.contains(pad)
                &&& forall|other: Entity| #[trigger]
                    roster.unassigned.contains(other) && other != pad
                        ==> after.roster.unassigned.contains(other)
            }
            &&& unclaimed(roster, pad) && nobody_to_restore(roster, adopt_any) && (forall|j: int|
                0 <= j < roster.slots.len() ==> (#[trigger] roster.slots[j]) is Occupied) ==> {
                &&& after.roster == roster
                &&& after.refused == seq![pad]
                &&& after.joined.len() == 0
                &&& after.reconnected.len() == 0
            }
            &&& !unclaimed(roster, pad) ==> {
                &&& after.roster == roster
                &&& after.refused.len() == 0
                &&& after.joined.len() == 0
                &&& after.reconnected.len() == 0
            }
        }),
{
    let after = join::admitted(roster, adopt_any, gamepads, seq![pad], spawned);
    let n = roster.slots.len();
    roster_laws::law_a_gamepad_has_one_owner(roster, pad);
    join::lemma_longest_waiting_waits(roster, n);
    let test = roster.free();
    select::lemma_first(n, test);
    lemma_one_admission(roster, adopt_any, gamepads, pad, spawned);
    lemma_taken_out(roster.unassigned, pad);
    if unclaimed(roster, pad) {
        assert(roster.owner(pad) is None);
    } else {
        let j = choose|j: int|
            0 <= j < n && (#[trigger] roster.slots[j]) is Occupied && roster.slots[j]->device
                == PlayerDevice::Gamepad(pad);
        assert(roster.slots[j].holds(pad));
        assert(roster.owner(pad) is Some);
    }
    if nobody_to_restore(roster, adopt_any) {
        assert(join::adopted(roster, adopt_any) is None);
    }
    if 0 <= i < n && roster.slots[i] is Empty && (forall|j: int|
        0 <= j < i ==> (#[trigger] roster.slots[j]) is Occupied) {
        assert(test(i));
        assert forall|j: int| 0 <= j < i implies !#[trigger] test(j) by {
            assert(roster.slots[j] is Occupied);
        }
        select::lemma_first_is(n, test, i);
    }
    if forall|j: int| 0 <= j < n ==> (#[trigger] roster.slots[j]) is Occupied {
        match select::first(n, test) {
            Some(j) => {
                assert(roster.slots[j] is Occupied);
            },
            None => {},
        }
    }
}

/// One step of an admission.
proof fn lemma_one_admission(
    roster: RosterView,
    adopt_any: bool,
    gamepads: Seq<Gamepad>,
    pad: Entity,
    spawned: Seq<Entity>,
)
    ensures
        ({
            let after = join::admitted(roster, adopt_any, gamepads, seq![pad], spawned);
            let look = gamepad::fingerprint(gamepads, pad);
            let none = join::admitted(roster, adopt_any, gamepads, Seq::empty(), spawned);
            &&& none.roster == roster
            &&& none.joined.len() == 0
            &&& none.reconnected.len() == 0
            &&& none.refused.len() == 0
            &&& roster.owner(pad) is Some ==> after == none
            &&& roster.owner(pad) is None ==> match join::adopted(roster, adopt_any) {
                Some(i) => {
                    &&& after.roster == join::claimed(
                        roster.attach(roster::id_of(i), pad, look),
                        pad,
                    )
                    &&& after.joined.len() == 0
                    &&& after.refused.len() == 0
                    &&& after.reconnected == seq![
                        PlayerReconnected {
                            id: roster::id_of(i),
                            player_entity: roster.slots[i]->player_entity,
                            gamepad: pad,
                            same_device: roster.slots[i]->fingerprint.alike(look),
                        },
                    ]
                },
                None => match select::first(roster.slots.len(), roster.free()) {
                    Some(i) => {
                        &&& after.roster == join::claimed(
                            roster.occupy(roster::id_of(i), spawned[0], pad, look),
                            pad,
                        )
                        &&& after.refused.len() == 0
                        &&& after.reconnected.len() == 0
                        &&& after.joined == seq![
                            PlayerJoined {
                                id: roster::id_of(i),
                                player_entity: spawned[0],
                                gamepad: pad,
                            },
                        ]
                    },
                    None => {
                        &&& after.roster == roster
                        &&& after.joined.len() == 0
                        &&& after.reconnected.len() == 0
                        &&& after.refused == seq![pad]
                    },
                },
            }
        }),
{
    let pads = seq![pad];
    assert(pads.drop_last() == Seq::<Entity>::empty());
    assert(pads.last() == pad);
    reveal_with_fuel(join::admitted, 2);
}

/// Taking an entity out leaves the others.
proof fn lemma_taken_out(list: Seq<Entity>, entity: Entity)
    ensures
        !entities::without(list, entity).contains(entity),
        forall|other: Entity| #[trigger]
            list.contains(other) && other != entity ==> entities::without(list, entity).contains(
                other,
            ),
        forall|other: Entity| #[trigger]
            entities::without(list, entity).contains(other) ==> list.contains(other),
{
    let test = entities::other_than(entity);
    let rest = list.filter(test);
    if rest.contains(entity) {
        let k = choose|k: int| 0 <= k < rest.len() && rest[k] == entity;
        list.lemma_filter_pred(test, k);
    }
    assert forall|other: Entity| #[trigger]
        list.contains(other) && other != entity implies rest.contains(other) by {
        let k = choose|k: int| 0 <= k < list.len() && list[k] == other;
        assert(test(list[k]));
        list.lemma_filter_contains(test, k);
    }
    assert forall|other: Entity| #[trigger] rest.contains(other) implies list.contains(other) by {
        let k = choose|k: int| 0 <= k < rest.len() && rest[k] == other;
        list.lemma_filter_contains_rev(test, rest[k]);
    }
}

/// A borrowed gamepad restores the player whose hardware went away first: they
/// have their entity still, drive on that gamepad, and their clock is gone.
/// Everybody else is left alone.
pub proof fn law_a_borrowed_gamepad_restores_who_waited_longest(
    roster: RosterView,
    gamepads: Seq<Gamepad>,
    pad: Entity,
    spawned: Seq<Entity>,
    i: int,
)
    requires
        roster.wf(),
        unclaimed(roster, pad),
        roster_laws::clocked(roster, roster.slots.len() as int),
        0 <= i < roster.slots.len(),
        roster.slots[i] is Occupied,
        roster.slots[i]->device == PlayerDevice::Missing,
        forall|j: int|
            0 <= j < roster.slots.len() && j != i && (#[trigger] roster.slots[j]) is Occupied
                && roster.slots[j]->device == PlayerDevice::Missing
                ==> roster.slots[i]->lost_at->0.below(roster.slots[j]->lost_at->0),
    ensures
        ({
            let after = join::admitted(roster, true, gamepads, seq![pad], spawned);
            &&& after.roster.slots == roster.slots.update(
                i,
                SlotState::Occupied {
                    player_entity: roster.slots[i]->player_entity,
                    device: PlayerDevice::Gamepad(pad),
                    fingerprint: gamepad::fingerprint(gamepads, pad),
                    lost_at: None,
                },
            )
            &&& after.reconnected.len() == 1
            &&& after.reconnected[0].id == PlayerId(i as u8)
            &&& after.reconnected[0].player_entity == roster.slots[i]->player_entity
            &&& after.reconnected[0].gamepad == pad
            &&& after.joined.len() == 0
            &&& after.refused.len() == 0
            &&& !after.roster.unassigned.contains(pad)
        }),
{
    let n = roster.slots.len();
    roster_laws::law_a_gamepad_has_one_owner(roster, pad);
    roster_laws::law_longest_waiting_lost_theirs_first(roster, n);
    lemma_one_admission(roster, true, gamepads, pad, spawned);
    lemma_taken_out(roster.unassigned, pad);
    assert(roster.owner(pad) is None);
    let first = roster.longest_waiting(n);
    assert(roster.slots[i].waiting());
    assert(first is Some);
    let f = first->0;
    if f != i {
        assert(roster.slots[f].waiting());
        assert(roster.slots[i]->lost_at->0.below(roster.slots[f]->lost_at->0));
        assert(roster.slots[f]->lost_at->0.within(roster.slots[i]->lost_at->0));
    }
    assert(roster.joined(roster::id_of(i)));
}

/// Players leave one after the other: what comes of the later requests is what
/// comes of them where the earlier ones have left the roster.
pub proof fn law_players_leave_one_by_one(
    roster: RosterView,
    gamepads: Seq<Gamepad>,
    one: Seq<(PlayerId, LeaveReason)>,
    two: Seq<(PlayerId, LeaveReason)>,
)
    ensures
        ({
            let first = join::departed(roster, gamepads, one);
            let second = join::departed(first.roster, gamepads, two);
            let both = join::departed(roster, gamepads, one + two);
            &&& both.roster == second.roster
            &&& both.left == first.left + second.left
            &&& both.stopped == first.stopped + second.stopped
        }),
    decreases two.len(),
{
    let first = join::departed(roster, gamepads, one);
    if two.len() == 0 {
        assert(one + two == one);
    } else {
        let rest = two.drop_last();
        law_players_leave_one_by_one(roster, gamepads, one, rest);
        assert((one + two).drop_last() == one + rest);
        assert((one + two).last() == two.last());
        let second = join::departed(first.roster, gamepads, two);
        let both = join::departed(roster, gamepads, one + two);
        assert(both.left == first.left + second.left);
        assert(both.stopped == first.stopped + second.stopped);
    }
}

/// What leaving is: the player's slot is empty, they are announced with their
/// entity and the reason, and a gamepad that is still there is told to stop and
/// waits in the pool. One that is gone is neither. A request for an empty slot
/// changes nothing.
pub proof fn law_a_leaver_hands_back_the_gamepad(
    roster: RosterView,
    gamepads: Seq<Gamepad>,
    id: PlayerId,
    reason: LeaveReason,
)
    ensures
        ({
            let after = join::departed(roster, gamepads, seq![(id, reason)]);
            let slot = roster.slots[id.0 as int];
            let there = id.0 < roster.slots.len() && slot is Occupied;
            &&& !there ==> {
                &&& after.roster == roster
                &&& after.left.len() == 0
                &&& after.stopped.len() == 0
            }
            &&& there ==> {
                &&& after.roster.slots == roster.slots.update(id.0 as int, SlotState::Empty)
                &&& after.left == seq![
                    PlayerLeft { id, player_entity: slot->player_entity, reason },
                ]
            }
            &&& there && slot->device == PlayerDevice::Missing ==> {
                &&& after.stopped.len() == 0
                &&& after.roster.unassigned == roster.unassigned
            }
            &&& forall|pad: Entity|
                #![trigger roster.unassigned.contains(pad)]
                there && slot->device == PlayerDevice::Gamepad(pad) ==> {
                    let plugged_in = exists|i: int|
                        0 <= i < gamepads.len() && (#[trigger] gamepads[i]).entity == pad;
                    &&& plugged_in ==> after.stopped == seq![pad]
                    &&& plugged_in && !roster.unassigned.contains(pad) ==> after.roster.unassigned
                        == roster.unassigned.push(pad)
                    &&& !plugged_in ==> after.stopped.len() == 0
                    &&& !plugged_in || roster.unassigned.contains(pad)
                        ==> after.roster.unassigned == roster.unassigned
                }
        }),
{
    let requests = seq![(id, reason)];
    assert(requests.drop_last() == Seq::<(PlayerId, LeaveReason)>::empty());
    assert(requests.last() == (id, reason));
    reveal_with_fuel(join::departed, 2);
    if id.0 < roster.slots.len() {
        match roster.slots[id.0 as int] {
            SlotState::Occupied { device: PlayerDevice::Gamepad(pad), .. } => {
                gamepad::law_gamepads_are_found_by_their_entity(gamepads, pad);
            },
            _ => {},
        }
    }
}

/// What a grace period does to the leave queue: everybody who was in it stays
/// in it, for the reason they had. Whoever is new in it has waited for at least
/// that long and is out of time, and whoever has is in it.
pub proof fn law_who_waited_too_long_is_out_of_time<M: Arithmetic>(
    math: &M,
    grace: Single,
    now: Double,
    before: RosterView,
    after: RosterView,
    id: PlayerId,
)
    requires
        before.wf(),
        join::after_expiry(math, Some(grace), now, before, after),
    ensures
        ({
            let queue = before.leave_queue;
            let longer = after.leave_queue;
            &&& queue.len() <= longer.len()
            &&& forall|k: int| 0 <= k < queue.len() ==> #[trigger] longer[k] == queue[k]
            &&& forall|k: int|
                queue.len() <= k < longer.len() ==> (#[trigger] longer[k]).1
                    == LeaveReason::TimedOut
            &&& (exists|k: int| 0 <= k < longer.len() && (#[trigger] longer[k]).0 == id) ==> (
            exists|k: int| 0 <= k < queue.len() && (#[trigger] queue[k]).0 == id) || overstays(
                math,
                grace,
                now,
                before,
                id,
            )
            &&& surely_overstays(math, grace, now, before, id) ==> exists|k: int|
                0 <= k < longer.len() && (#[trigger] longer[k]).0 == id
        }),
        after.slots == before.slots,
        after.unassigned == before.unassigned,
        after.join_queue == before.join_queue,
{
    let ids = choose|ids: Seq<PlayerId>| #[trigger]
        before.expired(math, grace, now, ids) && after == (RosterView {
            leave_queue: join::timed_out(before.leave_queue, ids),
            ..before
        });
    roster_laws::law_waits_end_on_time(math, before, grace, now, ids, id);
    lemma_timed_out(before.leave_queue, ids, id);
    lemma_timed_out_is_appended(before.leave_queue, ids);
    assert((exists|k: int|
        0 <= k < after.leave_queue.len() && (#[trigger] after.leave_queue[k]).0 == id)
        == roster::is_leaving(after.leave_queue, id));
}

/// The player waits, and the time since their hardware went away has reached
/// `grace`.
pub open spec fn overstays<M: Arithmetic>(
    math: &M,
    grace: Single,
    now: Double,
    roster: RosterView,
    id: PlayerId,
) -> bool {
    let slot = roster.slots[id.0 as int];
    &&& id.0 < roster.slots.len() && slot is Occupied && slot->device == PlayerDevice::Missing
    &&& exists|limit: Double, gone: Double|
        #[trigger] arithmetic::widened(math, grace, limit)
            && #[trigger] arithmetic::double_difference(math, now, slot->lost_at->0, gone)
            && limit.within(gone)
}

/// The player waits, and whatever the arithmetic makes of the time since their
/// hardware went away has reached `grace`.
pub open spec fn surely_overstays<M: Arithmetic>(
    math: &M,
    grace: Single,
    now: Double,
    roster: RosterView,
    id: PlayerId,
) -> bool {
    let slot = roster.slots[id.0 as int];
    &&& id.0 < roster.slots.len() && slot is Occupied && slot->device == PlayerDevice::Missing
    &&& forall|limit: Double, gone: Double|
        #[trigger] arithmetic::widened(math, grace, limit)
            && #[trigger] arithmetic::double_difference(math, now, slot->lost_at->0, gone)
            ==> limit.within(gone)
}

proof fn lemma_timed_out_is_appended(queue: Seq<(PlayerId, LeaveReason)>, ids: Seq<PlayerId>)
    ensures
        ({
            let longer = join::timed_out(queue, ids);
            &&& queue.len() <= longer.len()
            &&& forall|k: int| 0 <= k < queue.len() ==> #[trigger] longer[k] == queue[k]
            &&& forall|k: int|
                queue.len() <= k < longer.len() ==> (#[trigger] longer[k]).1
                    == LeaveReason::TimedOut
        }),
    decreases ids.len(),
{
    if ids.len() > 0 {
        lemma_timed_out_is_appended(queue, ids.drop_last());
    }
}

/// The button that the settings name is the one to leave by, for a connected
/// player who has it down; and it has to be held for as long as they say.
pub proof fn law_the_configured_button_leaves(
    config: CouchConfig,
    input: PlayerInput,
    button: GamepadButton,
    secs: Single,
)
    ensures
        config.leave_mode == (LeaveMode::HoldButton { button, secs }) ==> {
            &&& join::leave_button_down(config.leave_mode, input) <==> input.connected
                && buttons::held(input.buttons).contains(button.number())
            &&& (Single { bits: scalar::ZERO }).within(secs) ==> config.hold_secs().same(secs)
            &&& !(Single { bits: scalar::ZERO }).within(secs) ==> config.hold_secs().same(
                Single { bits: scalar::ZERO },
            )
        },
        config.leave_mode == LeaveMode::Manual ==> {
            &&& !join::leave_button_down(config.leave_mode, input)
            &&& config.hold_secs().same(Single { bits: scalar::ZERO })
        },
{
}

/// The progress of a hold is from 0 to 1, shows a longer hold as no less, and is
/// at 1 once the required time is reached.
pub proof fn law_progress_fills_up<M: Arithmetic>(
    math: &M,
    hold: LeaveHold,
    longer: LeaveHold,
    r: Single,
    s: Single,
)
    requires
        rounding::ascends(math),
        rounding::stays_a_number(math),
        hold.held_secs.finite(),
        longer.held_secs.finite(),
        hold.required_secs.finite(),
        hold.required_secs == longer.required_secs,
        (Single { bits: scalar::ZERO }).within(hold.held_secs),
        hold.held_secs.within(longer.held_secs),
        hold.filled(math, r),
        longer.filled(math, s),
    ensures
        (Single { bits: scalar::ZERO }).within(r),
        r.within(Single { bits: scalar::ONE }),
        r.within(s),
        hold.required_secs.within(hold.held_secs) && (Single { bits: scalar::ZERO }).below(
            hold.held_secs,
        ) ==> r.same(Single { bits: scalar::ONE }),
{
}

/// A frame sizes the lobby where the settings changed, and nowhere else.
pub proof fn law_only_changed_settings_resize(
    roster: RosterView,
    config: CouchConfig,
    changed: bool,
    gamepads: Seq<Gamepad>,
)
    ensures
        ({
            let after = join::before_admission(roster, config, changed, gamepads);
            &&& !changed ==> after.slots == roster.slots
            &&& changed ==> after.slots == roster.resize(config.max_players).slots
            &&& after.unassigned == roster.unassigned
            &&& after.leave_queue == roster.leave_queue
        }),
{
}

/// Who leaves in a frame: players who were queued to, who completed their hold
/// in it, or who have waited for too long. Nobody else does, and all of those
/// do.
pub proof fn law_who_leaves_in_a_frame<M: Arithmetic>(
    math: &M,
    config: CouchConfig,
    now: Double,
    dt: Single,
    gamepads: Seq<Gamepad>,
    before: RosterView,
    players_before: Seq<PlayerHold>,
    players_after: Seq<PlayerHold>,
    after: RosterView,
    left: Seq<PlayerLeft>,
    stopped: Seq<Entity>,
    id: PlayerId,
)
    requires
        before.wf(),
        join::settled(
            math,
            config,
            now,
            dt,
            gamepads,
            before,
            players_before,
            players_after,
            after,
            left,
            stopped,
        ),
    ensures
        ({
            let queue = before.leave_queue;
            let required = config.hold_secs();
            let gone = exists|k: int| 0 <= k < left.len() && (#[trigger] left[k]).id == id;
            let asked = exists|k: int| 0 <= k < queue.len() && (#[trigger] queue[k]).0 == id;
            let held_on = exists|i: int, held: Single|
                0 <= i < players_before.len() && players_before[i].player == id
                    && players_before[i].holding && #[trigger] arithmetic::sum(
                    math,
                    players_before[i].hold.held_secs,
                    dt,
                    held,
                ) && required.within(held);
            let surely_held_on = exists|i: int|
                0 <= i < players_before.len() && (#[trigger] players_before[i]).player == id
                    && players_before[i].holding && forall|held: Single| #[trigger]
                    arithmetic::sum(math, players_before[i].hold.held_secs, dt, held)
                        ==> required.within(held);
            &&& gone ==> id.0 < before.slots.len() && before.slots[id.0 as int] is Occupied
            &&& gone ==> asked || held_on || (config.reconnect.grace_secs matches Some(grace)
                && overstays(math, grace, now, before, id))
            &&& id.0 < before.slots.len() && before.slots[id.0 as int] is Occupied && (asked
                || surely_held_on || (config.reconnect.grace_secs matches Some(grace)
                && surely_overstays(math, grace, now, before, id))) ==> gone
        }),
{
    let (outs, leaving): (Seq<bool>, RosterView) = choose|outs: Seq<bool>, leaving: RosterView|
        #[trigger] join::all_held_on(
            math,
            config.hold_secs(),
            dt,
            players_before,
            players_after,
            outs,
            players_before.len() as int,
        ) && #[trigger] join::after_expiry(
            math,
            config.reconnect.grace_secs,
            now,
            join::after_holds(before, players_before, outs),
            leaving,
        ) && (join::Departure { roster: after, left, stopped }) == join::departed(
            join::without_leavers(leaving),
            gamepads,
            leaving.leave_queue,
        );
    let walked = join::after_holds(before, players_before, outs);
    let required = config.hold_secs();
    law_only_completed_holds_leave(
        math,
        required,
        dt,
        players_before,
        players_after,
        outs,
        before.leave_queue,
        id,
    );
    lemma_walked_out(before.leave_queue, players_before, outs, id);
    lemma_walked_out_is_distinct(before.leave_queue, players_before, outs);
    assert(walked.wf());
    match config.reconnect.grace_secs {
        Some(grace) => {
            law_who_waited_too_long_is_out_of_time(math, grace, now, walked, leaving, id);
            if roster::is_leaving(walked.leave_queue, id) {
                let k = choose|k: int|
                    0 <= k < walked.leave_queue.len() && (#[trigger] walked.leave_queue[k]).0
                        == id;
                assert(leaving.leave_queue[k].0 == id);
            }
            assert(overstays(math, grace, now, walked, id) == overstays(
                math,
                grace,
                now,
                before,
                id,
            ));
            assert(surely_overstays(math, grace, now, walked, id) == surely_overstays(
                math,
                grace,
                now,
                before,
                id,
            ));
        },
        None => {},
    }
    law_leaving_empties_the_slot(
        join::without_leavers(leaving),
        gamepads,
        leaving.leave_queue,
        id,
    );
    if exists|i: int|
        0 <= i < players_before.len() && (#[trigger] players_before[i]).player == id
            && players_before[i].holding && forall|held: Single| #[trigger]
            arithmetic::sum(math, players_before[i].hold.held_secs, dt, held) ==> required.within(
                held,
            ) {
        let i = choose|i: int|
            0 <= i < players_before.len() && (#[trigger] players_before[i]).player == id
                && players_before[i].holding && forall|held: Single| #[trigger]
                arithmetic::sum(math, players_before[i].hold.held_secs, dt, held)
                    ==> required.within(held);
        assert(players_before[i].player == id);
        assert(roster::is_leaving(walked.leave_queue, id));
    }
}

proof fn lemma_walked_out_is_distinct(
    queue: Seq<(PlayerId, LeaveReason)>,
    players: Seq<PlayerHold>,
    outs: Seq<bool>,
)
    requires
        forall|j: int, k: int|
            0 <= j < k < queue.len() ==> (#[trigger] queue[j]).0 != (#[trigger] queue[k]).0,
    ensures
        ({
            let longer = join::walked_out(queue, players, outs);
            forall|j: int, k: int|
                0 <= j < k < longer.len() ==> (#[trigger] longer[j]).0 != (#[trigger] longer[k]).0
        }),
    decreases outs.len(),
{
    if outs.len() > 0 {
        lemma_walked_out_is_distinct(queue, players, outs.drop_last());
        let so_far = join::walked_out(queue, players, outs.drop_last());
        let longer = join::walked_out(queue, players, outs);
        assert forall|j: int, k: int| 0 <= j < k < longer.len() implies (
        #[trigger] longer[j]).0 != (#[trigger] longer[k]).0 by {
            assert(longer[j] == so_far[j]);
        }
    }
}

/// Who asks to join in a frame: a gamepad that had asked before, or that is
/// there without a player and whose owner did what the mode wants.
pub proof fn law_who_asks_in_a_frame(
    roster: RosterView,
    config: CouchConfig,
    changed: bool,
    gamepads: Seq<Gamepad>,
    i: int,
)
    requires
        0 <= i < gamepads.len(),
        forall|j: int| 0 <= j < i ==> (#[trigger] gamepads[j]).entity != gamepads[i].entity,
    ensures
        join::before_admission(roster, config, changed, gamepads).join_queue.contains(
            gamepads[i].entity,
        ) <==> roster.join_queue.contains(gamepads[i].entity) || (roster.unassigned.contains(
            gamepads[i].entity,
        ) && pressed_to_join(config.join_mode, gamepads[i])),
{
    let pad = gamepads[i].entity;
    gamepad::law_gamepads_are_found_by_their_entity(gamepads, pad);
    assert(gamepad::place(gamepads, pad) == Some(i));
    law_only_eager_gamepads_ask(
        roster.join_queue,
        config.join_mode,
        gamepads,
        roster.unassigned,
        pad,
    );
    match config.join_mode {
        JoinMode::PressToJoin(trigger) => {
            lemma_fired(trigger, gamepads[i]);
        },
        _ => {},
    }
}

/// The policy decides whether a stranger's gamepad restores who waits: where it
/// does, no slot is opened for it while somebody waits, and where it does not,
/// nobody is restored by joining. Either way nobody is left in the queue.
pub proof fn law_the_policy_decides_about_borrowed_gamepads(
    roster: RosterView,
    config: CouchConfig,
    gamepads: Seq<Gamepad>,
    spawned: Seq<Entity>,
    pad: Entity,
    waiting: int,
)
    requires
        roster.wf(),
        roster.join_queue == seq![pad],
        unclaimed(roster, pad),
        0 <= waiting < roster.slots.len(),
        roster.slots[waiting] is Occupied,
        roster.slots[waiting]->device == PlayerDevice::Missing,
    ensures
        ({
            let after = join::admission(roster, config, gamepads, spawned);
            &&& config.reconnect.adopt_any ==> after.joined.len() == 0 && after.reconnected.len()
                == 1
            &&& !config.reconnect.adopt_any ==> after.reconnected.len() == 0
                && after.joined.len() + after.refused.len() == 1
            &&& after.roster.join_queue.len() == 0
            &&& after.roster.leave_queue == roster.leave_queue
        }),
{
    let start = join::without_requests(roster);
    lemma_one_admission(start, config.reconnect.adopt_any, gamepads, pad, spawned);
    roster_laws::law_a_gamepad_has_one_owner(start, pad);
    assert(start.slots[waiting].waiting());
    lemma_somebody_waits(start, start.slots.len(), waiting);
    law_admission_displaces_nobody(
        start,
        config.reconnect.adopt_any,
        gamepads,
        roster.join_queue,
        spawned,
    );
}

/// The progress of a hold is the share of the required time that was held, cut
/// off at 0 and 1. Where no time is required it is all or nothing: 1 while the
/// button is held, 0 otherwise.
pub proof fn law_progress_is_the_share_held<M: Arithmetic>(math: &M, hold: LeaveHold, r: Single)
    requires
        hold.filled(math, r),
    ensures
        ({
            let zero = Single { bits: scalar::ZERO };
            let one = Single { bits: scalar::ONE };
            &&& hold.required_secs.within(zero) && zero.below(hold.held_secs) ==> r.same(one)
            &&& hold.required_secs.within(zero) && !zero.below(hold.held_secs) ==> r.same(zero)
            &&& !hold.required_secs.within(zero) ==> exists|share: Single| #[trigger]
                arithmetic::quotient(math, hold.held_secs, hold.required_secs, share) && {
                    &&& zero.within(share) && share.within(one) ==> r == share
                    &&& share.below(zero) ==> r.same(zero)
                    &&& one.below(share) ==> r.same(one)
                }
        }),
{
    if !hold.required_secs.within(Single { bits: scalar::ZERO }) {
        let share = choose|share: Single| #[trigger]
            arithmetic::quotient(math, hold.held_secs, hold.required_secs, share) && r
                == share.clamped(Single { bits: scalar::ZERO }, Single { bits: scalar::ONE });
        assert(arithmetic::quotient(math, hold.held_secs, hold.required_secs, share));
    }
}

} // verus!
