//! What holds of a roster whatever happens to it.

use crate::arithmetic;
use crate::arithmetic::Arithmetic;
use crate::player::{DeviceFingerprint, LeaveReason, PlayerDevice, PlayerId};
use crate::roster;
use crate::roster::{RosterView, SlotState};
use crate::scalar::{Double, Single};
use crate::select;
use bevy_ecs::entity::Entity;
use vstd::prelude::*;

verus! {

/// Raising and lowering the lobby size never kicks anyone out: every player
/// keeps their slot and everything in it, and the new slots are empty.
pub proof fn law_resizing_kicks_nobody(roster: RosterView, max: u8, i: int)
    requires
        roster.wf(),
        0 <= i,
    ensures
        roster.resize(max).wf(),
        max <= roster.resize(max).slots.len(),
        i < roster.slots.len() && roster.slots[i].occupied() ==> i < roster.resize(max).slots.len(),
        i < roster.slots.len() && i < roster.resize(max).slots.len() ==> roster.resize(
            max,
        ).slots[i] == roster.slots[i],
        roster.slots.len() <= i < roster.resize(max).slots.len() ==> roster.resize(max).slots[i]
            == SlotState::Empty,
{
    roster::lemma_occupied_through(roster, roster.slots.len());
}

/// A lobby shrinks to the size asked for once nobody sits beyond it.
pub proof fn law_empty_trailing_slots_are_dropped(roster: RosterView, max: u8)
    requires
        roster.wf(),
        max >= 1,
        forall|i: int| max <= i < roster.slots.len() ==> !(#[trigger] roster.slots[i]).occupied(),
    ensures
        roster.resize(max).slots.len() == max,
{
    lemma_occupied_up_to(roster, roster.slots.len(), max as nat);
}

proof fn lemma_occupied_up_to(roster: RosterView, n: nat, bound: nat)
    requires
        n <= roster.slots.len(),
        forall|i: int| bound <= i < n ==> !(#[trigger] roster.slots[i]).occupied(),
    ensures
        roster.occupied_through(n) <= bound,
    decreases n,
{
    if n > 0 {
        lemma_occupied_up_to(roster, (n - 1) as nat, bound);
        if n > bound {
            assert(!roster.slots[n - 1].occupied());
        }
    }
}

/// A disconnect holds the slot: the player, their entity and what is known of
/// their controller stay, and nobody else is touched.
pub proof fn law_disconnect_holds_the_slot(roster: RosterView, id: PlayerId, now: Double)
    requires
        id.0 < roster.slots.len(),
        roster.slots[id.0 as int].connected(),
    ensures
        ({
            let before = roster.slots[id.0 as int];
            let after = roster.lose(id, now).slots[id.0 as int];
            &&& after.waiting()
            &&& after->player_entity == before->player_entity
            &&& after->fingerprint == before->fingerprint
            &&& after->lost_at == Some(now)
        }),
        roster.lose(id, now).slots.len() == roster.slots.len(),
        forall|i: int|
            0 <= i < roster.slots.len() && i != id.0 ==> #[trigger] roster.lose(id, now).slots[i]
                == roster.slots[i],
{
}

/// Losing the hardware a second time does not restart the clock.
pub proof fn law_second_disconnect_keeps_the_clock(
    roster: RosterView,
    id: PlayerId,
    now: Double,
    later: Double,
)
    ensures
        roster.lose(id, now).lose(id, later) == roster.lose(id, now),
{
}

/// A reconnect restores the player: the same entity drives on, the clock is
/// cleared, and nobody else is touched.
pub proof fn law_reconnect_restores_the_player(
    roster: RosterView,
    id: PlayerId,
    now: Double,
    pad: Entity,
    look: DeviceFingerprint,
)
    requires
        roster.wf(),
        roster.joined(id),
    ensures
        ({
            let before = roster.slots[id.0 as int];
            let after = roster.lose(id, now).attach(id, pad, look).slots[id.0 as int];
            &&& after.holds(pad)
            &&& after->player_entity == before->player_entity
            &&& after->fingerprint == look
            &&& after->lost_at is None
        }),
        forall|i: int|
            0 <= i < roster.slots.len() && i != id.0 ==> #[trigger] roster.lose(id, now).attach(
                id,
                pad,
                look,
            ).slots[i] == roster.slots[i],
{
}

/// A connected slot is never offered to a controller that matches it: only a
/// slot that waits for such hardware is, and the lowest of them.
pub proof fn law_connected_slots_are_not_offered(roster: RosterView, look: DeviceFingerprint)
    ensures
        match select::first(roster.slots.len(), roster.missing(look)) {
            Some(i) => {
                &&& 0 <= i < roster.slots.len()
                &&& roster.slots[i].waiting()
                &&& roster.slots[i]->fingerprint.alike(look)
                &&& forall|j: int|
                    0 <= j < i && (#[trigger] roster.slots[j]).waiting()
                        ==> !roster.slots[j]->fingerprint.alike(look)
            },
            None => forall|j: int|
                0 <= j < roster.slots.len() && (#[trigger] roster.slots[j]).waiting()
                    ==> !roster.slots[j]->fingerprint.alike(look),
        },
{
    let test = roster.missing(look);
    select::lemma_first(roster.slots.len(), test);
    assert forall|j: int| 0 <= j < roster.slots.len() implies test(j) == ((
    #[trigger] roster.slots[j]).waiting() && roster.slots[j]->fingerprint.alike(look)) by {}
}

/// Every clock of the first `n` slots shows a time.
pub open spec fn clocked(roster: RosterView, n: int) -> bool {
    forall|i: int|
        0 <= i < n && (#[trigger] roster.slots[i]).waiting() ==> roster.slots[i]->lost_at is Some
            && !roster.slots[i]->lost_at->0.nan()
}

/// The longest waiting slot is the one whose hardware went away first; of
/// several that lost theirs at the same time it is the lowest. There is one
/// whenever somebody waits.
pub proof fn law_longest_waiting_lost_theirs_first(roster: RosterView, n: nat)
    requires
        n <= roster.slots.len(),
        clocked(roster, n as int),
    ensures
        match roster.longest_waiting(n) {
            Some(i) => {
                &&& 0 <= i < n
                &&& roster.slots[i].waiting()
                &&& forall|j: int|
                    0 <= j < n && (#[trigger] roster.slots[j]).waiting()
                        ==> roster.slots[i]->lost_at->0.within(roster.slots[j]->lost_at->0)
                &&& forall|j: int|
                    0 <= j < i && (#[trigger] roster.slots[j]).waiting()
                        ==> roster.slots[i]->lost_at->0.below(roster.slots[j]->lost_at->0)
            },
            None => forall|j: int| 0 <= j < n ==> !(#[trigger] roster.slots[j]).waiting(),
        },
    decreases n,
{
    if n > 0 {
        law_longest_waiting_lost_theirs_first(roster, (n - 1) as nat);
        let last = roster.slots[n - 1];
        if last.waiting() {
            assert(!last->lost_at->0.nan());
            match roster.longest_waiting((n - 1) as nat) {
                Some(i) => {
                    assert(!roster.slots[i]->lost_at->0.nan());
                },
                None => {},
            }
        }
    }
}

/// A vacated slot is reused before any higher one: it is free, and the next
/// player to join gets it unless a lower one is free too.
pub proof fn law_vacated_slots_are_reused(roster: RosterView, id: PlayerId)
    requires
        id.0 < roster.slots.len(),
    ensures
        ({
            let after = roster.vacate(id);
            &&& !after.joined(id)
            &&& select::first(after.slots.len(), after.free()) is Some
            &&& select::first(after.slots.len(), after.free())->0 <= id.0
            &&& (forall|j: int| 0 <= j < id.0 ==> (#[trigger] roster.slots[j]).occupied())
                ==> select::first(after.slots.len(), after.free()) == Some(id.0 as int)
        }),
{
    let after = roster.vacate(id);
    let test = after.free();
    assert(test(id.0 as int));
    select::lemma_first(after.slots.len(), test);
    if forall|j: int| 0 <= j < id.0 ==> (#[trigger] roster.slots[j]).occupied() {
        let i = select::first(after.slots.len(), test)->0;
        if i < id.0 {
            assert(roster.slots[i].occupied());
            assert(after.slots[i] == roster.slots[i]);
        }
    }
}

/// A lobby is full exactly when there is no slot left to join.
pub proof fn law_a_full_lobby_has_no_free_slot(roster: RosterView)
    ensures
        (forall|i: int| 0 <= i < roster.slots.len() ==> (#[trigger] roster.slots[i]).occupied())
            <==> select::first(roster.slots.len(), roster.free()) is None,
{
    let test = roster.free();
    select::lemma_first(roster.slots.len(), test);
    if select::first(roster.slots.len(), test) is None {
        assert forall|i: int| 0 <= i < roster.slots.len() implies (
        #[trigger] roster.slots[i]).occupied() by {
            assert(!test(i));
        }
    }
}

/// Asking to join twice is the same as asking once.
pub proof fn law_join_requests_are_idempotent(roster: RosterView, pad: Entity)
    ensures
        roster.ask_join(pad).join_queue.contains(pad),
        roster.ask_join(pad).ask_join(pad) == roster.ask_join(pad),
{
    if !roster.join_queue.contains(pad) {
        assert(roster.join_queue.push(pad)[roster.join_queue.len() as int] == pad);
    }
}

/// A player leaves once, for the reason that came first.
pub proof fn law_first_reason_to_leave_wins(
    roster: RosterView,
    id: PlayerId,
    first: LeaveReason,
    second: LeaveReason,
)
    ensures
        roster::is_leaving(roster.ask_leave(id, first).leave_queue, id),
        roster.ask_leave(id, first).ask_leave(id, second) == roster.ask_leave(id, first),
{
    let queue = roster.leave_queue;
    if !roster::is_leaving(queue, id) {
        assert(queue.push((id, first))[queue.len() as int].0 == id);
    }
}

/// Everybody who has joined is either connected or waiting.
pub proof fn law_counts_add_up(roster: RosterView, n: nat)
    requires
        n <= roster.slots.len(),
    ensures
        select::selected(n, roster.occupied()).len() == select::selected(
            n,
            roster.connected(),
        ).len() + select::selected(n, roster.waiting()).len(),
    decreases n,
{
    if n > 0 {
        law_counts_add_up(roster, (n - 1) as nat);
        let slot = roster.slots[n - 1];
        assert((roster.occupied())(n - 1) == slot.occupied());
        assert((roster.connected())(n - 1) == slot.connected());
        assert((roster.waiting())(n - 1) == slot.waiting());
        assert(slot.occupied() == (slot.connected() || slot.waiting()));
    }
}

/// Only players who miss their hardware ever run out of time, and each is
/// named once, in slot order.
pub proof fn law_only_waiting_slots_expire<M: Arithmetic>(
    math: &M,
    roster: RosterView,
    grace: Single,
    now: Double,
    ids: Seq<PlayerId>,
)
    requires
        roster.wf(),
        roster.expired(math, grace, now, ids),
    ensures
        forall|k: int|
            0 <= k < ids.len() ==> (#[trigger] ids[k]).0 < roster.slots.len()
                && roster.slots[ids[k].0 as int].waiting(),
        forall|j: int, k: int|
            0 <= j < k < ids.len() ==> (#[trigger] ids[j]).0 < (#[trigger] ids[k]).0,
{
    let (limit, verdicts): (Double, Seq<bool>) = choose|limit: Double, verdicts: Seq<bool>|
        #[trigger] roster.judged(math, grace, now, limit, verdicts) && ids == roster::ids_of(
            select::selected(roster.slots.len(), roster.condemned(verdicts)),
        );
    let test = roster.condemned(verdicts);
    let numbers = select::selected(roster.slots.len(), test);
    select::lemma_selected(roster.slots.len(), test);
    assert forall|k: int| 0 <= k < ids.len() implies (#[trigger] ids[k]).0 == numbers[k] && test(
        numbers[k],
    ) by {}
    assert forall|k: int| 0 <= k < ids.len() implies (#[trigger] ids[k]).0 < roster.slots.len()
        && roster.slots[ids[k].0 as int].waiting() by {
        assert(test(numbers[k]));
    }
}

/// Seating a player puts them, their gamepad and its look into that slot and
/// nowhere else.
pub proof fn law_seating_touches_one_slot(
    roster: RosterView,
    id: PlayerId,
    player_entity: Entity,
    pad: Entity,
    look: DeviceFingerprint,
    other: PlayerId,
)
    requires
        id.0 < roster.slots.len(),
        other.0 < roster.slots.len(),
    ensures
        ({
            let after = roster.occupy(id, player_entity, pad, look);
            let slot = after.slots[id.0 as int];
            &&& slot.connected() && slot.holds(pad)
            &&& slot->player_entity == player_entity
            &&& slot->fingerprint == look
            &&& slot->lost_at is None
            &&& other != id ==> after.slots[other.0 as int] == roster.slots[other.0 as int]
            &&& after.slots.len() == roster.slots.len()
            &&& after.unassigned == roster.unassigned
            &&& after.join_queue == roster.join_queue
            &&& after.leave_queue == roster.leave_queue
        }),
{
}

/// Emptying a slot, losing its hardware or resizing the lobby leaves the other
/// slots and the queues alone.
pub proof fn law_changes_touch_one_slot(
    roster: RosterView,
    id: PlayerId,
    now: Double,
    max: u8,
    other: PlayerId,
)
    requires
        id.0 < roster.slots.len(),
        other.0 < roster.slots.len(),
    ensures
        !roster.vacate(id).slots[id.0 as int].occupied(),
        other != id ==> roster.vacate(id).slots[other.0 as int] == roster.slots[other.0 as int],
        other != id ==> roster.lose(id, now).slots[other.0 as int] == roster.slots[other.0 as int],
        !roster.slots[id.0 as int].connected() ==> roster.lose(id, now) == roster,
        forall|after: RosterView|
            #![trigger after.slots]
            after == roster.vacate(id) || after == roster.lose(id, now) || after == roster.resize(
                max,
            ) ==> after.unassigned == roster.unassigned && after.join_queue == roster.join_queue
                && after.leave_queue == roster.leave_queue,
{
}

/// A gamepad's player is the lowest slot that drives on it; one that drives no
/// slot has none.
pub proof fn law_a_gamepad_has_one_owner(roster: RosterView, pad: Entity)
    ensures
        match roster.owner(pad) {
            Some(i) => 0 <= i < roster.slots.len() && roster.slots[i].holds(pad) && forall|j: int|
                0 <= j < i ==> !(#[trigger] roster.slots[j]).holds(pad),
            None => forall|j: int|
                0 <= j < roster.slots.len() ==> !(#[trigger] roster.slots[j]).holds(pad),
        },
{
    let test = roster.driven_by(pad);
    select::lemma_first(roster.slots.len(), test);
    assert forall|j: int| 0 <= j < roster.slots.len() implies (#[trigger] roster.slots[j]).holds(
        pad,
    ) == test(j) by {}
}

/// Everybody who has joined is listed once, in the order of the slots.
pub proof fn law_players_are_listed_in_order(roster: RosterView, id: PlayerId)
    requires
        roster.wf(),
    ensures
        ({
            let ids = roster::ids_of(roster.seats());
            &&& ids.contains(id) <==> roster.joined(id)
            &&& forall|j: int, k: int|
                0 <= j < k < ids.len() ==> (#[trigger] ids[j]).0 < (#[trigger] ids[k]).0
        }),
{
    let test = roster.occupied();
    let numbers = roster.seats();
    let ids = roster::ids_of(numbers);
    select::lemma_selected(roster.slots.len(), test);
    assert forall|k: int| 0 <= k < ids.len() implies (#[trigger] ids[k]).0 == numbers[k] by {}
    if ids.contains(id) {
        let k = choose|k: int| 0 <= k < ids.len() && ids[k] == id;
        assert(test(numbers[k]));
    }
    if roster.joined(id) {
        assert(test(id.0 as int));
        assert(numbers.contains(id.0 as int));
        let k = choose|k: int| 0 <= k < numbers.len() && numbers[k] == id.0;
        assert(ids[k] == id);
    }
}

/// Exactly the slots with live hardware are assigned, each to its gamepad.
pub proof fn law_assignments_are_the_connected_slots(
    roster: RosterView,
    id: PlayerId,
    pad: Entity,
)
    requires
        roster.wf(),
    ensures
        roster.assignments().contains((id, pad)) <==> id.0 < roster.slots.len()
            && roster.slots[id.0 as int].holds(pad),
{
    let test = roster.connected();
    let numbers = select::selected(roster.slots.len(), test);
    let pairs = roster.assignments();
    select::lemma_selected(roster.slots.len(), test);
    if pairs.contains((id, pad)) {
        let k = choose|k: int| 0 <= k < pairs.len() && pairs[k] == (id, pad);
        assert(test(numbers[k]));
    }
    if id.0 < roster.slots.len() && roster.slots[id.0 as int].holds(pad) {
        assert(test(id.0 as int));
        assert(numbers.contains(id.0 as int));
        let k = choose|k: int| 0 <= k < numbers.len() && numbers[k] == id.0;
        assert(pairs[k] == (id, pad));
    }
}

/// A wait is over exactly when the time since the hardware went away has
/// reached the grace period: whoever is named has waited that long, and whoever
/// has is named.
pub proof fn law_waits_end_on_time<M: Arithmetic>(
    math: &M,
    roster: RosterView,
    grace: Single,
    now: Double,
    ids: Seq<PlayerId>,
    id: PlayerId,
)
    requires
        roster.wf(),
        roster.expired(math, grace, now, ids),
    ensures
        ids.contains(id) ==> {
            &&& id.0 < roster.slots.len()
            &&& roster.slots[id.0 as int].waiting()
            &&& exists|limit: Double, gone: Double|
                #[trigger] arithmetic::widened(math, grace, limit)
                    && #[trigger] arithmetic::double_difference(
                    math,
                    now,
                    roster.slots[id.0 as int]->lost_at->0,
                    gone,
                ) && limit.within(gone)
        },
        id.0 < roster.slots.len() && roster.slots[id.0 as int].waiting() && (forall|
            limit: Double,
            gone: Double,
        |
            #[trigger] arithmetic::widened(math, grace, limit)
                && #[trigger] arithmetic::double_difference(
                math,
                now,
                roster.slots[id.0 as int]->lost_at->0,
                gone,
            ) ==> limit.within(gone)) ==> ids.contains(id),
{
    let (limit, verdicts): (Double, Seq<bool>) = choose|limit: Double, verdicts: Seq<bool>|
        #[trigger] roster.judged(math, grace, now, limit, verdicts) && ids == roster::ids_of(
            select::selected(roster.slots.len(), roster.condemned(verdicts)),
        );
    let test = roster.condemned(verdicts);
    let numbers = select::selected(roster.slots.len(), test);
    select::lemma_selected(roster.slots.len(), test);
    assert forall|k: int| 0 <= k < ids.len() implies (#[trigger] ids[k]).0 == numbers[k] by {}
    let i = id.0 as int;
    if i < roster.slots.len() && roster.slots[i].waiting() {
        assert(roster::overdue(math, limit, now, roster.slots[i]->lost_at->0, verdicts[i]));
        let gone = choose|gone: Double|
            #[trigger] arithmetic::double_difference(
                math,
                now,
                roster.slots[i]->lost_at->0,
                gone,
            ) && verdicts[i] == limit.within(gone);
        assert(arithmetic::widened(math, grace, limit));
        assert(arithmetic::double_difference(math, now, roster.slots[i]->lost_at->0, gone));
        if verdicts[i] {
            assert(test(i));
            assert(numbers.contains(i));
            let k = choose|k: int| 0 <= k < numbers.len() && numbers[k] == i;
            assert(ids[k] == id);
        }
    }
    if ids.contains(id) {
        let k = choose|k: int| 0 <= k < ids.len() && ids[k] == id;
        assert(test(numbers[k]));
        assert(numbers[k] == i);
    }
}

/// A lobby is never larger than it has to be: it has more slots than asked for
/// only where somebody sits in the last one, and one slot at least.
pub proof fn law_a_lobby_is_as_small_as_it_can_be(roster: RosterView, max: u8)
    requires
        roster.wf(),
    ensures
        ({
            let slots = roster.resize(max).slots;
            &&& slots.len() >= 1
            &&& slots.len() > 1 && slots.len() > max ==> slots.last().occupied()
        }),
{
    let n = roster.slots.len();
    roster::lemma_occupied_through(roster, n);
    lemma_last_is_occupied(roster, n);
}

proof fn lemma_last_is_occupied(roster: RosterView, n: nat)
    requires
        n <= roster.slots.len(),
    ensures
        roster.occupied_through(n) <= n,
        roster.occupied_through(n) > 0 ==> roster.slots[roster.occupied_through(n)
            - 1].occupied(),
    decreases n,
{
    if n > 0 {
        lemma_last_is_occupied(roster, (n - 1) as nat);
    }
}

/// Whoever has joined is driven by one gamepad or waits for one, never both,
/// and an empty slot does neither.
pub proof fn law_players_are_driven_or_wait(slot: SlotState, pad: Entity)
    ensures
        slot is Empty ==> !slot.occupied() && !slot.connected() && !slot.waiting() && !slot.holds(
            pad,
        ),
        slot is Occupied ==> {
            &&& slot.occupied()
            &&& slot.waiting() <==> slot->device == PlayerDevice::Missing
            &&& slot.connected() <==> !slot.waiting()
            &&& slot.holds(pad) <==> slot->device == PlayerDevice::Gamepad(pad)
        },
{
}

/// The wait of a player is the time from when their hardware went away until
/// now, and never negative.
pub proof fn law_waits_are_counted_from_the_loss<M: Arithmetic>(
    math: &M,
    now: Double,
    at: Double,
    secs: Single,
)
    requires
        roster::waited(math, now, at, secs),
    ensures
        exists|gone: Double, shown: Double|
            #[trigger] arithmetic::double_difference(math, now, at, gone)
                && #[trigger] arithmetic::narrowed(math, shown, secs) && (Double {
                bits: 0,
            }).within(shown) && ((Double { bits: 0 }).within(gone) ==> shown.same(gone)) && (
            gone.below(Double { bits: 0 }) ==> shown.same(Double { bits: 0 })),
{
    let gone = choose|gone: Double|
        #[trigger] arithmetic::double_difference(math, now, at, gone) && arithmetic::narrowed(
            math,
            gone.larger(Double { bits: 0 }),
            secs,
        );
    assert(arithmetic::double_difference(math, now, at, gone));
    assert(arithmetic::narrowed(math, gone.larger(Double { bits: 0 }), secs));
}

/// What is known about a slot is what it holds, under its own number, and
/// nothing is known where nobody has joined.
pub proof fn law_a_slot_shows_what_it_holds(roster: RosterView, id: PlayerId)
    ensures
        roster.slot(id) is Some <==> id.0 < roster.slots.len()
            && roster.slots[id.0 as int] is Occupied,
        roster.slot(id) matches Some(shown) ==> {
            let slot = roster.slots[id.0 as int];
            &&& shown.id == id
            &&& shown.player_entity == slot->player_entity
            &&& shown.device == slot->device
            &&& shown.fingerprint == slot->fingerprint
            &&& shown.lost_at == slot->lost_at
        },
{
}

/// Exactly those who miss their hardware are listed as disconnected, in the
/// order of the slots.
pub proof fn law_the_disconnected_are_those_who_wait(roster: RosterView, id: PlayerId)
    requires
        roster.wf(),
    ensures
        ({
            let ids = roster::ids_of(select::selected(roster.slots.len(), roster.waiting()));
            &&& ids.contains(id) <==> id.0 < roster.slots.len() && roster.slots[id.0 as int]
                is Occupied && roster.slots[id.0 as int]->device == PlayerDevice::Missing
            &&& forall|j: int, k: int|
                0 <= j < k < ids.len() ==> (#[trigger] ids[j]).0 < (#[trigger] ids[k]).0
        }),
{
    let test = roster.waiting();
    let numbers = select::selected(roster.slots.len(), test);
    let ids = roster::ids_of(numbers);
    select::lemma_selected(roster.slots.len(), test);
    assert forall|k: int| 0 <= k < ids.len() implies (#[trigger] ids[k]).0 == numbers[k] by {}
    if ids.contains(id) {
        let k = choose|k: int| 0 <= k < ids.len() && ids[k] == id;
        assert(test(numbers[k]));
    }
    if id.0 < roster.slots.len() && roster.slots[id.0 as int].waiting() {
        assert(test(id.0 as int));
        assert(numbers.contains(id.0 as int));
        let k = choose|k: int| 0 <= k < numbers.len() && numbers[k] == id.0;
        assert(ids[k] == id);
    }
}

} // verus!
