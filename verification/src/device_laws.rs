//! What holds of hardware that comes and goes.

use crate::devices;
use crate::gamepad;
use crate::gamepad::Gamepad;
use crate::player;
use crate::player::{DeviceFingerprint, PlayerDevice, PlayerId, PlayerReconnected};
use crate::roster;
use crate::roster::{RosterView, SlotState};
use crate::roster_laws;
use crate::scalar::Double;
use crate::select;
use bevy_ecs::entity::Entity;
use vstd::prelude::*;

verus! {

/// Every player of `before` is in `after`, in the same slot and with the same
/// entity.
pub open spec fn keeps_players(before: RosterView, after: RosterView) -> bool {
    &&& after.slots.len() == before.slots.len()
    &&& forall|i: int|
        0 <= i < before.slots.len() && (#[trigger] before.slots[i]).occupied()
            ==> after.slots[i].occupied() && after.slots[i]->player_entity
            == before.slots[i]->player_entity
}

/// No gamepad drives two players.
pub open spec fn distinct_pads(roster: RosterView) -> bool {
    forall|i: int, j: int, pad: Entity|
        0 <= i < roster.slots.len() && 0 <= j < roster.slots.len()
            && #[trigger] roster.slots[i].holds(pad) && #[trigger] roster.slots[j].holds(pad) ==> i
            == j
}

/// A slot drives on `pad`.
pub open spec fn taken(roster: RosterView, pad: Entity) -> bool {
    exists|i: int| 0 <= i < roster.slots.len() && #[trigger] roster.slots[i].holds(pad)
}

/// The owner of a gamepad is found exactly where it drives a player.
pub proof fn lemma_owner_is_taken(roster: RosterView, pad: Entity)
    ensures
        roster.owner(pad) is Some <==> taken(roster, pad),
{
    let test = roster.driven_by(pad);
    select::lemma_first(roster.slots.len(), test);
    match roster.owner(pad) {
        Some(i) => {
            assert(roster.slots[i].holds(pad));
        },
        None => {
            assert forall|i: int| 0 <= i < roster.slots.len() implies !(
            #[trigger] roster.slots[i].holds(pad)) by {
                assert(!test(i));
            }
        },
    }
}

proof fn lemma_claimant_waits(roster: RosterView, pad: Entity, gamepads: Seq<Gamepad>)
    ensures
        devices::claimant(roster, gamepad::fingerprint(gamepads, pad)) matches Some(i) ==> 0 <= i
            < roster.slots.len() && roster.slots[i].waiting(),
{
    roster_laws::law_connected_slots_are_not_offered(roster, gamepad::fingerprint(gamepads, pad));
}

/// Handing controllers back moves nobody, touches no connected slot, and gives
/// out only the controllers that were free.
proof fn lemma_rematched(gamepads: Seq<Gamepad>, free: Seq<Entity>, roster: RosterView)
    requires
        roster.wf(),
    ensures
        ({
            let back = devices::rematched(gamepads, free, roster);
            &&& back.roster.wf()
            &&& keeps_players(roster, back.roster)
            &&& forall|i: int|
                0 <= i < roster.slots.len() && !(#[trigger] roster.slots[i]).waiting()
                    ==> back.roster.slots[i] == roster.slots[i]
            &&& forall|pad: Entity| #[trigger]
                taken(back.roster, pad) ==> taken(roster, pad) || free.contains(pad)
            &&& forall|pad: Entity| #[trigger] back.left.contains(pad) ==> free.contains(pad)
        }),
    decreases free.len(),
{
    if free.len() > 0 {
        let rest = free.drop_last();
        let pad = free.last();
        lemma_rematched(gamepads, rest, roster);
        let so_far = devices::rematched(gamepads, rest, roster);
        let back = devices::rematched(gamepads, free, roster);
        lemma_claimant_waits(so_far.roster, pad, gamepads);
        assert(free[free.len() - 1] == pad);
        assert forall|e: Entity| #[trigger] rest.contains(e) implies free.contains(e) by {
            let k = choose|k: int| 0 <= k < rest.len() && rest[k] == e;
            assert(free[k] == e);
        }
        assert forall|e: Entity| #[trigger] taken(back.roster, e) implies taken(roster, e)
            || free.contains(e) by {
            let i = choose|i: int|
                0 <= i < back.roster.slots.len() && #[trigger] back.roster.slots[i].holds(e);
            if e != pad {
                assert(so_far.roster.slots[i].holds(e));
                assert(taken(so_far.roster, e));
            }
        }
        assert forall|e: Entity| #[trigger] back.left.contains(e) implies free.contains(e) by {
            let k = choose|k: int| 0 <= k < back.left.len() && back.left[k] == e;
            if e != pad {
                assert(so_far.left[k] == e);
                assert(so_far.left.contains(e));
            }
        }
    }
}

/// Handing out controllers that are free and all different gives none to two
/// players, and leaves over none that drives one.
proof fn lemma_rematched_is_distinct(
    gamepads: Seq<Gamepad>,
    free: Seq<Entity>,
    roster: RosterView,
)
    requires
        roster.wf(),
        distinct_pads(roster),
        free.no_duplicates(),
        forall|k: int| 0 <= k < free.len() ==> !taken(roster, #[trigger] free[k]),
    ensures
        ({
            let back = devices::rematched(gamepads, free, roster);
            &&& distinct_pads(back.roster)
            &&& forall|pad: Entity| #[trigger]
                back.left.contains(pad) ==> !taken(back.roster, pad)
        }),
    decreases free.len(),
{
    if free.len() > 0 {
        let rest = free.drop_last();
        let pad = free.last();
        assert forall|k: int| 0 <= k < rest.len() implies !taken(roster, #[trigger] rest[k]) by {
            assert(free[k] == rest[k]);
        }
        lemma_rematched_is_distinct(gamepads, rest, roster);
        lemma_rematched(gamepads, rest, roster);
        let so_far = devices::rematched(gamepads, rest, roster);
        let back = devices::rematched(gamepads, free, roster);
        lemma_claimant_waits(so_far.roster, pad, gamepads);
        assert(free[free.len() - 1] == pad);
        assert(!rest.contains(pad));
        assert(!taken(roster, pad));
        assert(!taken(so_far.roster, pad));
        assert forall|i: int, j: int, e: Entity|
            0 <= i < back.roster.slots.len() && 0 <= j < back.roster.slots.len()
                && #[trigger] back.roster.slots[i].holds(e)
                && #[trigger] back.roster.slots[j].holds(e) implies i == j by {
            if e == pad {
                assert(!so_far.roster.slots[i].holds(e));
                assert(!so_far.roster.slots[j].holds(e));
            } else {
                assert(so_far.roster.slots[i].holds(e));
                assert(so_far.roster.slots[j].holds(e));
            }
        }
        assert forall|e: Entity| #[trigger] back.left.contains(e) implies !taken(
            back.roster,
            e,
        ) by {
            let k = choose|k: int| 0 <= k < back.left.len() && back.left[k] == e;
            if k < so_far.left.len() {
                assert(so_far.left[k] == e);
                assert(so_far.left.contains(e));
                assert(rest.contains(e));
            }
            if taken(back.roster, e) {
                let i = choose|i: int|
                    0 <= i < back.roster.slots.len() && #[trigger] back.roster.slots[i].holds(e);
                if e != pad {
                    assert(so_far.roster.slots[i].holds(e));
                    assert(taken(so_far.roster, e));
                }
            }
        }
    }
}

/// Every controller is handed out or left over, and left over once.
proof fn lemma_rematched_loses_none(
    gamepads: Seq<Gamepad>,
    free: Seq<Entity>,
    roster: RosterView,
)
    requires
        roster.wf(),
        free.no_duplicates(),
    ensures
        ({
            let back = devices::rematched(gamepads, free, roster);
            &&& back.left.no_duplicates()
            &&& forall|pad: Entity| #[trigger]
                free.contains(pad) ==> back.left.contains(pad) || taken(back.roster, pad)
            &&& forall|pad: Entity| #[trigger] taken(roster, pad) ==> taken(back.roster, pad)
        }),
    decreases free.len(),
{
    if free.len() > 0 {
        let rest = free.drop_last();
        let pad = free.last();
        lemma_rematched_loses_none(gamepads, rest, roster);
        lemma_rematched(gamepads, rest, roster);
        let so_far = devices::rematched(gamepads, rest, roster);
        let back = devices::rematched(gamepads, free, roster);
        lemma_claimant_waits(so_far.roster, pad, gamepads);
        assert(free[free.len() - 1] == pad);
        assert(!rest.contains(pad));
        assert forall|e: Entity| #[trigger] taken(so_far.roster, e) implies taken(
            back.roster,
            e,
        ) by {
            let i = choose|i: int|
                0 <= i < so_far.roster.slots.len() && #[trigger] so_far.roster.slots[i].holds(e);
            assert(back.roster.slots[i].holds(e));
        }
        match devices::claimant(so_far.roster, gamepad::fingerprint(gamepads, pad)) {
            Some(i) => {
                assert(back.roster.slots[i].holds(pad));
                assert(taken(back.roster, pad));
            },
            None => {
                assert(back.left[so_far.left.len() as int] == pad);
                assert(!so_far.left.contains(pad));
            },
        }
        assert forall|e: Entity| #[trigger] free.contains(e) implies back.left.contains(e) || taken(
            back.roster,
            e,
        ) by {
            if e != pad {
                let k = choose|k: int| 0 <= k < free.len() && free[k] == e;
                assert(rest[k] == e);
                assert(rest.contains(e));
                if so_far.left.contains(e) {
                    let j = choose|j: int| 0 <= j < so_far.left.len() && so_far.left[j] == e;
                    assert(back.left[j] == e);
                }
            }
        }
    }
}

proof fn lemma_filtered(pads: Seq<Entity>, test: spec_fn(Entity) -> bool)
    ensures
        forall|k: int|
            0 <= k < pads.filter(test).len() ==> test(#[trigger] pads.filter(test)[k])
                && pads.contains(pads.filter(test)[k]),
        pads.no_duplicates() ==> pads.filter(test).no_duplicates(),
    decreases pads.len(),
{
    reveal(Seq::filter);
    if pads.len() > 0 {
        let rest = pads.drop_last();
        lemma_filtered(rest, test);
        let all = pads.filter(test);
        assert(pads[pads.len() - 1] == pads.last());
        assert forall|k: int| 0 <= k < all.len() implies test(#[trigger] all[k]) && pads.contains(
            all[k],
        ) by {
            if k < rest.filter(test).len() {
                assert(all[k] == rest.filter(test)[k]);
                let j = choose|j: int| 0 <= j < rest.len() && rest[j] == all[k];
                assert(pads[j] == all[k]);
            }
        }
        if pads.no_duplicates() {
            assert(rest.no_duplicates());
            assert forall|j: int, k: int| 0 <= j < k < all.len() implies all[j] != all[k] by {
                assert(all[j] == rest.filter(test)[j]);
                if k == rest.filter(test).len() {
                    let m = choose|m: int| 0 <= m < rest.len() && rest[m] == all[j];
                    assert(pads[m] == all[j]);
                    assert(pads[pads.len() - 1] == all[k]);
                } else {
                    assert(all[k] == rest.filter(test)[k]);
                }
            }
        }
    }
}

proof fn lemma_after_losses(
    roster: RosterView,
    gamepads: Seq<Gamepad>,
    dropped: Seq<Entity>,
    now: Double,
)
    requires
        roster.wf(),
    ensures
        ({
            let held = devices::after_losses(roster, gamepads, dropped, now);
            &&& held.wf()
            &&& keeps_players(roster, held)
            &&& forall|i: int, pad: Entity|
                0 <= i < roster.slots.len() && #[trigger] held.slots[i].holds(pad)
                    ==> roster.slots[i].holds(pad) && !devices::gone(gamepads, dropped, pad)
            &&& distinct_pads(roster) ==> distinct_pads(held)
        }),
{
    let held = devices::after_losses(roster, gamepads, dropped, now);
    assert forall|i: int, pad: Entity|
        0 <= i < roster.slots.len() && #[trigger] held.slots[i].holds(pad) implies
        roster.slots[i].holds(pad) && !devices::gone(gamepads, dropped, pad) by {
        if devices::stranded(roster.slots[i], gamepads, dropped) {
            assert(held.slots[i] == roster::unplugged(roster.slots[i], now));
        } else {
            assert(held.slots[i] == roster.slots[i]);
        }
    }
}

/// A disconnect never drops a player: through a frame of coming and going
/// hardware everybody keeps their slot and their entity, and no slot that was
/// empty is filled.
pub proof fn law_disconnects_drop_nobody(
    roster: RosterView,
    gamepads: Seq<Gamepad>,
    dropped: Seq<Entity>,
    match_device: bool,
    now: Double,
)
    requires
        roster.wf(),
    ensures
        ({
            let after = devices::synced(roster, gamepads, dropped, match_device, now).roster;
            &&& keeps_players(roster, after)
            &&& forall|i: int|
                0 <= i < roster.slots.len() && !(#[trigger] roster.slots[i]).occupied()
                    ==> !after.slots[i].occupied()
        }),
{
    lemma_after_losses(roster, gamepads, dropped, now);
    let held = devices::after_losses(roster, gamepads, dropped, now);
    let free = devices::idle_pads(held, gamepads);
    lemma_rematched(gamepads, free, held);
    let after = devices::synced(roster, gamepads, dropped, match_device, now).roster;
    assert forall|i: int| 0 <= i < roster.slots.len() && (
    #[trigger] roster.slots[i]).occupied() implies after.slots[i].occupied()
        && after.slots[i]->player_entity == roster.slots[i]->player_entity by {
        assert(held.slots[i].occupied());
    }
    assert forall|i: int| 0 <= i < roster.slots.len() && !(
    #[trigger] roster.slots[i]).occupied() implies !after.slots[i].occupied() by {
        assert(held.slots[i] == roster.slots[i]);
    }
}

/// A connected player whose controller is there is left alone.
pub proof fn law_live_hardware_is_left_alone(
    roster: RosterView,
    gamepads: Seq<Gamepad>,
    dropped: Seq<Entity>,
    match_device: bool,
    now: Double,
    i: int,
)
    requires
        roster.wf(),
        0 <= i < roster.slots.len(),
        roster.slots[i].connected(),
        !devices::gone(gamepads, dropped, roster.slots[i]->device->Gamepad_0),
    ensures
        devices::synced(roster, gamepads, dropped, match_device, now).roster.slots[i]
            == roster.slots[i],
{
    lemma_after_losses(roster, gamepads, dropped, now);
    let held = devices::after_losses(roster, gamepads, dropped, now);
    assert(held.slots[i] == roster.slots[i]);
    lemma_rematched(gamepads, devices::idle_pads(held, gamepads), held);
}

/// After a frame nobody drives on dead hardware, no gamepad drives two
/// players, and the unassigned gamepads are exactly the live ones that drive
/// nobody, each once.
pub proof fn law_slots_point_at_live_hardware(
    roster: RosterView,
    gamepads: Seq<Gamepad>,
    dropped: Seq<Entity>,
    match_device: bool,
    now: Double,
)
    requires
        roster.wf(),
        distinct_pads(roster),
        gamepad::entities_of(gamepads).no_duplicates(),
    ensures
        ({
            let after = devices::synced(roster, gamepads, dropped, match_device, now).roster;
            &&& distinct_pads(after)
            &&& forall|pad: Entity| #[trigger] taken(after, pad) ==> gamepad::live(gamepads, pad)
            &&& after.unassigned.no_duplicates()
            &&& forall|pad: Entity| #[trigger]
                after.unassigned.contains(pad) <==> gamepad::live(gamepads, pad) && !taken(
                    after,
                    pad,
                )
        }),
{
    lemma_after_losses(roster, gamepads, dropped, now);
    let held = devices::after_losses(roster, gamepads, dropped, now);
    let pads = gamepad::entities_of(gamepads);
    let free = devices::idle_pads(held, gamepads);
    lemma_filtered(pads, devices::idle(held));
    assert forall|k: int| 0 <= k < free.len() implies !taken(held, #[trigger] free[k]) by {
        assert((devices::idle(held))(free[k]));
        lemma_owner_is_taken(held, free[k]);
    }
    lemma_rematched(gamepads, free, held);
    lemma_rematched_is_distinct(gamepads, free, held);
    let after = devices::synced(roster, gamepads, dropped, match_device, now).roster;
    assert forall|pad: Entity| #[trigger] free.contains(pad) implies gamepad::live(
        gamepads,
        pad,
    ) by {
        let k = choose|k: int| 0 <= k < free.len() && free[k] == pad;
        assert(pads.contains(free[k]));
        let j = choose|j: int| 0 <= j < pads.len() && pads[j] == pad;
        let test = gamepad::stands_for(gamepads, pad);
        assert(test(j));
        select::lemma_first(gamepads.len(), test);
    }
    let seats = if match_device {
        devices::rematched(gamepads, free, held).roster
    } else {
        held
    };
    assert(after.slots == seats.slots);
    assert forall|pad: Entity| #[trigger] taken(after, pad) implies gamepad::live(
        gamepads,
        pad,
    ) by {
        let i = choose|i: int| 0 <= i < after.slots.len() && #[trigger] after.slots[i].holds(pad);
        assert(seats.slots[i].holds(pad));
        assert(taken(seats, pad));
        if taken(held, pad) {
            let j = choose|j: int| 0 <= j < held.slots.len() && #[trigger] held.slots[j].holds(pad);
            assert(!devices::gone(gamepads, dropped, pad));
        }
    }
    assert forall|pad: Entity| #[trigger] after.unassigned.contains(pad) implies gamepad::live(
        gamepads,
        pad,
    ) && !taken(after, pad) by {
        assert(free.contains(pad));
        if !match_device {
            let k = choose|k: int| 0 <= k < free.len() && free[k] == pad;
            assert(!taken(held, free[k]));
        }
        assert(!taken(seats, pad));
        if taken(after, pad) {
            let i = choose|i: int|
                0 <= i < after.slots.len() && #[trigger] after.slots[i].holds(pad);
            assert(seats.slots[i].holds(pad));
        }
    }
    lemma_rematched_loses_none(gamepads, free, held);
    assert forall|pad: Entity|
        gamepad::live(gamepads, pad) && !taken(
            after,
            pad,
        ) implies #[trigger] after.unassigned.contains(pad) by {
        if taken(seats, pad) {
            let i = choose|i: int|
                0 <= i < seats.slots.len() && #[trigger] seats.slots[i].holds(pad);
            assert(after.slots[i].holds(pad));
        }
        assert(!taken(held, pad));
        let test = gamepad::stands_for(gamepads, pad);
        select::lemma_first(gamepads.len(), test);
        let j = gamepad::place(gamepads, pad)->0;
        assert(test(j));
        assert(pads[j] == pad);
        lemma_owner_is_taken(held, pad);
        assert((devices::idle(held))(pads[j]));
        pads.lemma_filter_contains(devices::idle(held), j);
        assert(free.contains(pad));
    }
}

/// Of the controllers `free`, the one at `k` is the only one that looks like
/// the one slot `i` waits for, and no other slot waits for one like it.
pub open spec fn meant_for(
    roster: RosterView,
    gamepads: Seq<Gamepad>,
    free: Seq<Entity>,
    i: int,
    k: int,
) -> bool {
    let look = gamepad::fingerprint(gamepads, free[k]);
    &&& 0 <= i < roster.slots.len()
    &&& 0 <= k < free.len()
    &&& roster.slots[i].waiting()
    &&& look.known()
    &&& roster.slots[i]->fingerprint.alike(look)
    &&& forall|j: int|
        0 <= j < free.len() && j != k ==> !wanted_by(roster, gamepads, i, #[trigger] free[j])
    &&& forall|m: int|
        0 <= m < roster.slots.len() && m != i && (#[trigger] roster.slots[m]).waiting()
            ==> !roster.slots[m]->fingerprint.alike(look)
}

/// The controller can be told to look like the one slot `i` waits for.
pub open spec fn wanted_by(
    roster: RosterView,
    gamepads: Seq<Gamepad>,
    i: int,
    pad: Entity,
) -> bool {
    let look = gamepad::fingerprint(gamepads, pad);
    look.known() && roster.slots[i]->fingerprint.alike(look)
}

/// Handing controllers back never makes a slot wait, nor changes one that
/// still does, nor touches one that none of the controllers looks right for.
proof fn lemma_rematched_leaves_waiting(
    gamepads: Seq<Gamepad>,
    free: Seq<Entity>,
    roster: RosterView,
    i: int,
)
    requires
        roster.wf(),
        0 <= i < roster.slots.len(),
    ensures
        ({
            let after = devices::rematched(gamepads, free, roster).roster;
            &&& forall|m: int|
                0 <= m < roster.slots.len() && (#[trigger] after.slots[m]).waiting()
                    ==> after.slots[m] == roster.slots[m]
            &&& (forall|j: int|
                0 <= j < free.len() ==> !wanted_by(roster, gamepads, i, #[trigger] free[j]))
                ==> after.slots[i] == roster.slots[i]
        }),
    decreases free.len(),
{
    if free.len() > 0 {
        let rest = free.drop_last();
        let pad = free.last();
        lemma_rematched_leaves_waiting(gamepads, rest, roster, i);
        lemma_rematched(gamepads, rest, roster);
        let so_far = devices::rematched(gamepads, rest, roster);
        lemma_claimant_waits(so_far.roster, pad, gamepads);
        if forall|j: int|
            0 <= j < free.len() ==> !wanted_by(roster, gamepads, i, #[trigger] free[j]) {
            assert forall|j: int| 0 <= j < rest.len() implies !wanted_by(
                roster,
                gamepads,
                i,
                #[trigger] rest[j],
            ) by {
                assert(free[j] == rest[j]);
            }
            assert(!wanted_by(roster, gamepads, i, free[free.len() - 1]));
            roster_laws::law_connected_slots_are_not_offered(
                so_far.roster,
                gamepad::fingerprint(gamepads, pad),
            );
        }
    }
}

proof fn lemma_meant_for_is_handed_back(
    gamepads: Seq<Gamepad>,
    free: Seq<Entity>,
    roster: RosterView,
    i: int,
    k: int,
)
    requires
        roster.wf(),
        meant_for(roster, gamepads, free, i, k),
    ensures
        devices::rematched(gamepads, free, roster).roster.slots[i].holds(free[k]),
    decreases free.len(),
{
    let rest = free.drop_last();
    let pad = free.last();
    let so_far = devices::rematched(gamepads, rest, roster);
    lemma_rematched(gamepads, rest, roster);
    lemma_rematched_leaves_waiting(gamepads, rest, roster, i);
    assert forall|j: int| 0 <= j < rest.len() && j != k implies !wanted_by(
        roster,
        gamepads,
        i,
        #[trigger] rest[j],
    ) by {
        assert(free[j] == rest[j]);
    }
    if k == free.len() - 1 {
        let look = gamepad::fingerprint(gamepads, pad);
        let test = so_far.roster.missing(look);
        assert(so_far.roster.slots[i] == roster.slots[i]);
        assert(test(i));
        assert forall|j: int| 0 <= j < i implies !#[trigger] test(j) by {
            if so_far.roster.slots[j].waiting() {
                assert(so_far.roster.slots[j] == roster.slots[j]);
                assert(roster.slots[j].waiting());
            }
        }
        select::lemma_first_is(so_far.roster.slots.len(), test, i);
    } else {
        assert(rest[k] == free[k]);
        lemma_meant_for_is_handed_back(gamepads, rest, roster, i, k);
        lemma_claimant_waits(so_far.roster, pad, gamepads);
    }
}

/// A returning controller goes straight back to the slot that waits for it,
/// and so to the same player: P3 does not come back as P1.
pub proof fn law_a_returning_controller_gets_its_slot_back(
    roster: RosterView,
    gamepads: Seq<Gamepad>,
    dropped: Seq<Entity>,
    now: Double,
    i: int,
    k: int,
)
    requires
        roster.wf(),
        meant_for(
            devices::after_losses(roster, gamepads, dropped, now),
            gamepads,
            devices::idle_pads(
                devices::after_losses(roster, gamepads, dropped, now),
                gamepads,
            ),
            i,
            k,
        ),
    ensures
        ({
            let held = devices::after_losses(roster, gamepads, dropped, now);
            let after = devices::synced(roster, gamepads, dropped, true, now).roster;
            &&& after.slots[i].holds(devices::idle_pads(held, gamepads)[k])
            &&& after.slots[i]->player_entity == roster.slots[i]->player_entity
            &&& after.slots[i]->lost_at is None
        }),
{
    lemma_after_losses(roster, gamepads, dropped, now);
    let held = devices::after_losses(roster, gamepads, dropped, now);
    let free = devices::idle_pads(held, gamepads);
    lemma_meant_for_is_handed_back(gamepads, free, held, i, k);
    lemma_rematched(gamepads, free, held);
    let after = devices::rematched(gamepads, free, held).roster;
    assert(after.slots[i].consistent());
    assert(held.slots[i].occupied());
    assert(roster.slots[i].occupied());
}

proof fn lemma_reconnected_were_waiting(
    gamepads: Seq<Gamepad>,
    free: Seq<Entity>,
    roster: RosterView,
    k: int,
)
    requires
        roster.wf(),
        0 <= k < devices::rematched(gamepads, free, roster).reconnected.len(),
    ensures
        ({
            let back = devices::rematched(gamepads, free, roster).reconnected[k];
            let slot = roster.slots[back.id.0 as int];
            &&& back.id.0 < roster.slots.len()
            &&& slot.waiting()
            &&& slot->fingerprint.alike(gamepad::fingerprint(gamepads, back.gamepad))
            &&& slot->player_entity == back.player_entity
            &&& back.same_device
        }),
    decreases free.len(),
{
    if free.len() > 0 {
        let rest = free.drop_last();
        let so_far = devices::rematched(gamepads, rest, roster);
        if k < so_far.reconnected.len() {
            lemma_reconnected_were_waiting(gamepads, rest, roster, k);
        } else {
            let look = gamepad::fingerprint(gamepads, free.last());
            lemma_rematched(gamepads, rest, roster);
            roster_laws::law_connected_slots_are_not_offered(so_far.roster, look);
            let i = devices::claimant(so_far.roster, look)->0;
            lemma_rematched_leaves_waiting(gamepads, rest, roster, i);
            assert(so_far.roster.slots[i] == roster.slots[i]);
        }
    }
}

/// Whoever a frame brings back without a button press was waiting, and is back
/// on hardware that looks like what they lost, which is announced as such;
/// with matching off nobody is brought back.
pub proof fn law_matched_players_are_on_the_same_device(
    roster: RosterView,
    gamepads: Seq<Gamepad>,
    dropped: Seq<Entity>,
    match_device: bool,
    now: Double,
    k: int,
)
    requires
        roster.wf(),
    ensures
        ({
            let held = devices::after_losses(roster, gamepads, dropped, now);
            let all = devices::synced(roster, gamepads, dropped, match_device, now).reconnected;
            &&& !match_device ==> all.len() == 0
            &&& 0 <= k < all.len() ==> {
                let slot = held.slots[all[k].id.0 as int];
                &&& all[k].same_device
                &&& all[k].id.0 < roster.slots.len()
                &&& slot.waiting()
                &&& slot->fingerprint.alike(gamepad::fingerprint(gamepads, all[k].gamepad))
                &&& slot->fingerprint == roster.slots[all[k].id.0 as int]->fingerprint
                &&& slot->player_entity == all[k].player_entity
            }
        }),
{
    lemma_after_losses(roster, gamepads, dropped, now);
    let held = devices::after_losses(roster, gamepads, dropped, now);
    let free = devices::idle_pads(held, gamepads);
    if match_device && 0 <= k < devices::rematched(gamepads, free, held).reconnected.len() {
        lemma_reconnected_were_waiting(gamepads, free, held, k);
    }
}

/// A loss is announced for exactly the slots that drove on hardware that was
/// reported gone or is not there anymore, once each, with the player's entity.
pub proof fn law_losses_are_announced(
    roster: RosterView,
    gamepads: Seq<Gamepad>,
    dropped: Seq<Entity>,
    id: PlayerId,
)
    requires
        roster.wf(),
    ensures
        ({
            let all = devices::losses(
                roster.slots,
                select::selected(
                    roster.slots.len(),
                    devices::strands(roster.slots, gamepads, dropped),
                ),
            );
            &&& (exists|k: int| 0 <= k < all.len() && (#[trigger] all[k]).id == id) <==> {
                &&& id.0 < roster.slots.len()
                &&& exists|pad: Entity| #[trigger]
                    roster.slots[id.0 as int].holds(pad) && (dropped.contains(pad) || forall|i: int|
                        0 <= i < gamepads.len() ==> (#[trigger] gamepads[i]).entity != pad)
            }
            &&& forall|k: int|
                0 <= k < all.len() && (#[trigger] all[k]).id == id ==> all[k].player_entity
                    == roster.slots[id.0 as int]->player_entity
            &&& forall|j: int, k: int|
                0 <= j < k < all.len() ==> (#[trigger] all[j]).id.0 < (#[trigger] all[k]).id.0
        }),
{
    let test = devices::strands(roster.slots, gamepads, dropped);
    let numbers = select::selected(roster.slots.len(), test);
    let all = devices::losses(roster.slots, numbers);
    select::lemma_selected(roster.slots.len(), test);
    assert forall|k: int| 0 <= k < all.len() implies (#[trigger] all[k]).id.0 == numbers[k]
        && all[k].player_entity == roster.slots[numbers[k]]->player_entity by {}
    let i = id.0 as int;
    if i < roster.slots.len() {
        let slot = roster.slots[i];
        if slot.connected() {
            let pad = slot->device->Gamepad_0;
            assert(slot.holds(pad));
            gamepad::law_gamepads_are_found_by_their_entity(gamepads, pad);
            assert forall|other: Entity| #[trigger] slot.holds(other) implies other == pad by {}
        }
        assert(test(i) == devices::stranded(slot, gamepads, dropped));
    }
    if exists|k: int| 0 <= k < all.len() && (#[trigger] all[k]).id == id {
        let k = choose|k: int| 0 <= k < all.len() && (#[trigger] all[k]).id == id;
        assert(test(numbers[k]));
    }
    if i < roster.slots.len() && test(i) {
        assert(numbers.contains(i));
        let k = choose|k: int| 0 <= k < numbers.len() && numbers[k] == i;
        assert(all[k].id == id);
    }
}

/// Where the policy hands nothing back, a slot whose hardware is gone waits
/// from now on, for hardware that looks like what it had, and every other slot
/// is as it was.
pub proof fn law_lost_slots_wait_from_now(
    roster: RosterView,
    gamepads: Seq<Gamepad>,
    dropped: Seq<Entity>,
    now: Double,
    i: int,
)
    requires
        roster.wf(),
        0 <= i < roster.slots.len(),
    ensures
        ({
            let slot = roster.slots[i];
            let after = devices::synced(roster, gamepads, dropped, false, now).roster;
            let lost = exists|pad: Entity| #[trigger]
                slot.holds(pad) && (dropped.contains(pad) || forall|k: int|
                    0 <= k < gamepads.len() ==> (#[trigger] gamepads[k]).entity != pad);
            &&& lost ==> {
                &&& after.slots[i].waiting()
                &&& after.slots[i]->player_entity == slot->player_entity
                &&& after.slots[i]->fingerprint == slot->fingerprint
                &&& after.slots[i]->lost_at == Some(now)
            }
            &&& !lost ==> after.slots[i] == slot
            &&& after.join_queue == roster.join_queue
            &&& after.leave_queue == roster.leave_queue
        }),
{
    let slot = roster.slots[i];
    if slot.connected() {
        let pad = slot->device->Gamepad_0;
        assert(slot.holds(pad));
        gamepad::law_gamepads_are_found_by_their_entity(gamepads, pad);
        assert forall|other: Entity| #[trigger] slot.holds(other) implies other == pad by {}
    }
}

/// Whoever is announced as back drives on the controller that is announced with
/// them.
pub proof fn law_announced_controllers_drive(
    gamepads: Seq<Gamepad>,
    free: Seq<Entity>,
    roster: RosterView,
    k: int,
)
    requires
        roster.wf(),
        0 <= k < devices::rematched(gamepads, free, roster).reconnected.len(),
    ensures
        ({
            let back = devices::rematched(gamepads, free, roster);
            let news = back.reconnected[k];
            let slot = back.roster.slots[news.id.0 as int];
            &&& news.id.0 < back.roster.slots.len()
            &&& slot.holds(news.gamepad)
            &&& slot->player_entity == news.player_entity
            &&& slot->fingerprint == gamepad::fingerprint(gamepads, news.gamepad)
            &&& free.contains(news.gamepad)
        }),
    decreases free.len(),
{
    if free.len() > 0 {
        let rest = free.drop_last();
        let pad = free.last();
        let so_far = devices::rematched(gamepads, rest, roster);
        lemma_rematched(gamepads, rest, roster);
        lemma_claimant_waits(so_far.roster, pad, gamepads);
        assert(free[free.len() - 1] == pad);
        if k < so_far.reconnected.len() {
            law_announced_controllers_drive(gamepads, rest, roster, k);
            let e = so_far.reconnected[k].gamepad;
            let j = choose|j: int| 0 <= j < rest.len() && rest[j] == e;
            assert(free[j] == e);
        }
    }
}

/// A controller that has a look goes to the lowest slot that waits for one like
/// it: that player has their entity still, drives on it, and their clock is
/// gone. Where no slot does, or the controller has no look, it is left over and
/// nothing changes.
pub proof fn law_a_controller_goes_to_who_waits_for_it(
    gamepads: Seq<Gamepad>,
    pad: Entity,
    roster: RosterView,
    i: int,
)
    requires
        roster.wf(),
    ensures
        ({
            let look = gamepad::fingerprint(gamepads, pad);
            let after = devices::rematched(gamepads, seq![pad], roster);
            &&& 0 <= i < roster.slots.len() && lacks(roster.slots[i], look) && (forall|j: int|
                0 <= j < i ==> !lacks(#[trigger] roster.slots[j], look)) ==> {
                &&& after.roster.slots == roster.slots.update(
                    i,
                    SlotState::Occupied {
                        player_entity: roster.slots[i]->player_entity,
                        device: PlayerDevice::Gamepad(pad),
                        fingerprint: look,
                        lost_at: None,
                    },
                )
                &&& after.left.len() == 0
                &&& after.reconnected == seq![
                    PlayerReconnected {
                        id: PlayerId(i as u8),
                        player_entity: roster.slots[i]->player_entity,
                        gamepad: pad,
                        same_device: true,
                    },
                ]
            }
            &&& (forall|j: int|
                0 <= j < roster.slots.len() ==> !lacks(#[trigger] roster.slots[j], look)) ==> {
                &&& after.roster == roster
                &&& after.left == seq![pad]
                &&& after.reconnected.len() == 0
            }
        }),
{
    let look = gamepad::fingerprint(gamepads, pad);
    let free = seq![pad];
    let n = roster.slots.len();
    let test = roster.missing(look);
    assert(free.drop_last() == Seq::<Entity>::empty());
    assert(free.last() == pad);
    reveal_with_fuel(devices::rematched, 2);
    select::lemma_first(n, test);
    assert forall|j: int| 0 <= j < n implies #[trigger] test(j) == lacks(
        roster.slots[j],
        look,
    ) by {
        if roster.slots[j].waiting() && roster.slots[j]->fingerprint.alike(look) {
            player::law_only_known_devices_match(roster.slots[j]->fingerprint, look);
        }
    }
    if 0 <= i < n && lacks(roster.slots[i], look) && (forall|j: int|
        0 <= j < i ==> !lacks(#[trigger] roster.slots[j], look)) {
        assert(test(i));
        assert forall|j: int| 0 <= j < i implies !#[trigger] test(j) by {
            assert(!lacks(roster.slots[j], look));
        }
        select::lemma_first_is(n, test, i);
        player::law_only_known_devices_match(roster.slots[i]->fingerprint, look);
        assert(roster.joined(roster::id_of(i)));
    }
    if forall|j: int| 0 <= j < n ==> !lacks(#[trigger] roster.slots[j], look) {
        match select::first(n, test) {
            Some(j) => {
                assert(!lacks(roster.slots[j], look));
            },
            None => {},
        }
    }
}

/// Somebody sits there without hardware, and what they lost looks like this.
pub open spec fn lacks(slot: SlotState, look: DeviceFingerprint) -> bool {
    slot is Occupied && slot->device == PlayerDevice::Missing && slot->fingerprint.alike(look)
}

/// Controllers are handed back one after the other: what becomes of the later
/// ones is what becomes of them where the earlier ones have left the roster.
pub proof fn law_controllers_are_handed_back_one_by_one(
    gamepads: Seq<Gamepad>,
    one: Seq<Entity>,
    two: Seq<Entity>,
    roster: RosterView,
)
    ensures
        ({
            let first = devices::rematched(gamepads, one, roster);
            let second = devices::rematched(gamepads, two, first.roster);
            let both = devices::rematched(gamepads, one + two, roster);
            &&& both.roster == second.roster
            &&& both.left == first.left + second.left
            &&& both.reconnected == first.reconnected + second.reconnected
        }),
    decreases two.len(),
{
    let first = devices::rematched(gamepads, one, roster);
    if two.len() == 0 {
        assert(one + two == one);
    } else {
        let rest = two.drop_last();
        law_controllers_are_handed_back_one_by_one(gamepads, one, rest, roster);
        assert((one + two).drop_last() == one + rest);
        assert((one + two).last() == two.last());
        let second = devices::rematched(gamepads, two, first.roster);
        let both = devices::rematched(gamepads, one + two, roster);
        assert(both.left == first.left + second.left);
        assert(both.reconnected == first.reconnected + second.reconnected);
    }
}

} // verus!
