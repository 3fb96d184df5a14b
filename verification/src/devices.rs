//! Keeping slots pointed at live hardware.

use crate::buttons;
use crate::config::CouchConfig;
use crate::entities;
use crate::gamepad;
use crate::gamepad::Gamepad;
use crate::input::PlayerInput;
use crate::player::{DeviceFingerprint, PlayerDevice, PlayerDisconnected, PlayerReconnected};
use crate::roster;
use crate::roster::{PlayerRoster, RosterView, SlotState};
use crate::scalar::Double;
use crate::select;
use bevy_ecs::entity::Entity;
use vstd::prelude::*;

verus! {

/// Who lost their hardware and who got it back.
#[derive(Debug)]
pub struct DeviceChanges {
    /// Players whose controller vanished, in slot order.
    pub disconnected: Vec<PlayerDisconnected>,
    /// Players who are back on their own controller.
    pub reconnected: Vec<PlayerReconnected>,
}

/// The hardware is gone: it was reported so, or is not there anymore.
pub open spec fn gone(gamepads: Seq<Gamepad>, dropped: Seq<Entity>, pad: Entity) -> bool {
    dropped.contains(pad) || !gamepad::live(gamepads, pad)
}

/// A slot whose hardware is gone.
pub open spec fn stranded(
    slot: SlotState,
    gamepads: Seq<Gamepad>,
    dropped: Seq<Entity>,
) -> bool {
    slot.connected() && gone(gamepads, dropped, slot->device->Gamepad_0)
}

/// Slots whose hardware is gone.
pub open spec fn strands(
    slots: Seq<SlotState>,
    gamepads: Seq<Gamepad>,
    dropped: Seq<Entity>,
) -> spec_fn(int) -> bool {
    |i: int| stranded(slots[i], gamepads, dropped)
}

/// The slots, those among the first `n` whose hardware is gone now waiting
/// for it.
pub open spec fn held_open(
    slots: Seq<SlotState>,
    gamepads: Seq<Gamepad>,
    dropped: Seq<Entity>,
    now: Double,
    n: int,
) -> Seq<SlotState> {
    Seq::new(
        slots.len(),
        |i: int|
            if i < n && stranded(slots[i], gamepads, dropped) {
                roster::unplugged(slots[i], now)
            } else {
                slots[i]
            },
    )
}

/// What is announced of the numbered slots.
pub open spec fn losses(slots: Seq<SlotState>, numbers: Seq<int>) -> Seq<PlayerDisconnected> {
    Seq::new(
        numbers.len(),
        |k: int|
            PlayerDisconnected {
                id: roster::id_of(numbers[k]),
                player_entity: slots[numbers[k]]->player_entity,
            },
    )
}

/// Not driving a player.
pub open spec fn idle(roster: RosterView) -> spec_fn(Entity) -> bool {
    |pad: Entity| roster.owner(pad) is None
}

/// Handing controllers back: where the roster stands, which controllers are
/// left, and who is back.
#[verifier::ext_equal]
pub struct Rematch {
    /// The roster.
    pub roster: RosterView,
    /// The controllers that nobody was waiting for.
    pub left: Seq<Entity>,
    /// Who got theirs back.
    pub reconnected: Seq<PlayerReconnected>,
}

/// The slot that is waiting for hardware of this look, if it has a look to go
/// by. Nothing to match on means joining as a new player, not taking the first
/// slot that happens to be waiting.
pub open spec fn claimant(roster: RosterView, look: DeviceFingerprint) -> Option<int> {
    if look.known() {
        select::first(roster.slots.len(), roster.missing(look))
    } else {
        None
    }
}

/// The free controllers handed, one after the other, each to the first slot
/// that is waiting for one like it.
pub open spec fn rematched(
    gamepads: Seq<Gamepad>,
    free: Seq<Entity>,
    roster: RosterView,
) -> Rematch
    decreases free.len(),
{
    if free.len() == 0 {
        Rematch { roster, left: Seq::empty(), reconnected: Seq::empty() }
    } else {
        let so_far = rematched(gamepads, free.drop_last(), roster);
        let pad = free.last();
        let look = gamepad::fingerprint(gamepads, pad);
        match claimant(so_far.roster, look) {
            Some(i) => Rematch {
                roster: so_far.roster.attach(roster::id_of(i), pad, look),
                left: so_far.left,
                reconnected: so_far.reconnected.push(
                    PlayerReconnected {
                        id: roster::id_of(i),
                        player_entity: so_far.roster.slots[i]->player_entity,
                        gamepad: pad,
                        same_device: true,
                    },
                ),
            },
            None => Rematch { left: so_far.left.push(pad), ..so_far },
        }
    }
}

/// The roster with the slots whose hardware is gone waiting for it.
pub open spec fn after_losses(
    roster: RosterView,
    gamepads: Seq<Gamepad>,
    dropped: Seq<Entity>,
    now: Double,
) -> RosterView {
    RosterView {
        slots: held_open(roster.slots, gamepads, dropped, now, roster.slots.len() as int),
        ..roster
    }
}

/// The controllers that drive nobody, in the order of the gamepads.
pub open spec fn idle_pads(roster: RosterView, gamepads: Seq<Gamepad>) -> Seq<Entity> {
    gamepad::entities_of(gamepads).filter(idle(roster))
}

/// Everything a frame does to the devices: first the losses, then, where the
/// policy says so, the matches among the controllers that drive nobody; those
/// that are left are unassigned.
pub open spec fn synced(
    roster: RosterView,
    gamepads: Seq<Gamepad>,
    dropped: Seq<Entity>,
    match_device: bool,
    now: Double,
) -> Rematch {
    let held = after_losses(roster, gamepads, dropped, now);
    let free = idle_pads(held, gamepads);
    if match_device {
        let back = rematched(gamepads, free, held);
        Rematch { roster: RosterView { unassigned: back.left, ..back.roster }, ..back }
    } else {
        Rematch {
            roster: RosterView { unassigned: free, ..held },
            left: free,
            reconnected: Seq::empty(),
        }
    }
}

/// Turn the slots whose hardware is gone into waiting ones.
fn hold_slots(
    roster: &mut PlayerRoster,
    now: Double,
    dropped: &Vec<Entity>,
    gamepads: &Vec<Gamepad>,
) -> (r: Vec<PlayerDisconnected>)
    requires
        old(roster)@.wf(),
    ensures
        final(roster)@ == after_losses(old(roster)@, gamepads@, dropped@, now),
        final(roster)@.wf(),
        r@ == losses(
            old(roster)@.slots,
            select::selected(
                old(roster)@.slots.len(),
                strands(old(roster)@.slots, gamepads@, dropped@),
            ),
        ),
{
    let ghost before = roster@;
    let ghost slots = before.slots;
    let ghost test = strands(slots, gamepads@, dropped@);
    let ghost seats = select::selected(slots.len(), before.connected());
    let assigned = roster.assigned();
    let mut disconnected: Vec<PlayerDisconnected> = Vec::new();
    proof {
        select::lemma_selected(slots.len(), before.connected());
        assert(held_open(slots, gamepads@, dropped@, now, 0) == slots);
    }
    let mut k: usize = 0;
    // Every slot below this one has been looked at.
    let ghost mut done: int = 0;
    while k < assigned.len()
        invariant
            before.wf(),
            slots == before.slots,
            test == strands(slots, gamepads@, dropped@),
            seats == select::selected(slots.len(), before.connected()),
            assigned@ == before.assigned_among(seats),
            roster@.wf(),
            k <= assigned.len(),
            0 <= done <= slots.len(),
            forall|j: int| 0 <= j < k ==> #[trigger] seats[j] < done,
            forall|j: int| k <= j < seats.len() ==> done <= #[trigger] seats[j],
            forall|j: int|
                0 <= j < seats.len() ==> 0 <= #[trigger] seats[j] < slots.len()
                    && slots[seats[j]].connected(),
            forall|i: int, j: int|
                0 <= i < j < seats.len() ==> #[trigger] seats[i] < #[trigger] seats[j],
            forall|i: int|
                0 <= i < slots.len() && (#[trigger] slots[i]).connected() ==> seats.contains(i),
            roster@ == (RosterView {
                slots: held_open(slots, gamepads@, dropped@, now, done),
                ..before
            }),
            disconnected@ == losses(slots, select::selected(done as nat, test)),
        decreases assigned.len() - k,
    {
        let (id, pad) = assigned[k];
        let ghost seat = seats[k as int];
        proof {
            lemma_nobody_between(slots, gamepads@, dropped@, now, seats, k as int, done);
        }
        let lost = entities::contains(dropped, pad) || !gamepad::is_live(gamepads, pad);
        assert(lost == test(seat));
        if lost {
            match roster.mark_disconnected(id, now) {
                Some(player_entity) => {
                    disconnected.push(PlayerDisconnected { id, player_entity });
                },
                None => {},
            }
        }
        proof {
            assert(roster@.slots == held_open(slots, gamepads@, dropped@, now, seat + 1));
            assert(disconnected@ == losses(slots, select::selected((seat + 1) as nat, test)));
            assert forall|j: int| k < j < seats.len() implies seat + 1 <= #[trigger] seats[j] by {
                assert(seats[k as int] < seats[j]);
            }
            done = seat + 1;
        }
        k += 1;
    }
    proof {
        lemma_nobody_between(slots, gamepads@, dropped@, now, seats, k as int, done);
    }
    disconnected
}

/// Between two connected slots, and past the last, there is nothing to do.
proof fn lemma_nobody_between(
    slots: Seq<SlotState>,
    gamepads: Seq<Gamepad>,
    dropped: Seq<Entity>,
    now: Double,
    seats: Seq<int>,
    k: int,
    done: int,
)
    requires
        0 <= k <= seats.len(),
        0 <= done <= slots.len(),
        forall|j: int| 0 <= j < k ==> #[trigger] seats[j] < done,
        forall|j: int| k <= j < seats.len() ==> done <= #[trigger] seats[j] < slots.len(),
        forall|i: int, j: int|
            0 <= i < j < seats.len() ==> #[trigger] seats[i] < #[trigger] seats[j],
        forall|i: int|
            0 <= i < slots.len() && (#[trigger] slots[i]).connected() ==> seats.contains(i),
    ensures
        ({
            let next = if k < seats.len() {
                seats[k]
            } else {
                slots.len() as int
            };
            let test = strands(slots, gamepads, dropped);
            &&& held_open(slots, gamepads, dropped, now, done) == held_open(
                slots,
                gamepads,
                dropped,
                now,
                next,
            )
            &&& select::selected(done as nat, test) == select::selected(next as nat, test)
        }),
{
    let next = if k < seats.len() {
        seats[k]
    } else {
        slots.len() as int
    };
    let test = strands(slots, gamepads, dropped);
    assert forall|i: int| done <= i < next implies !(#[trigger] slots[i]).connected() by {
        if slots[i].connected() {
            let j = choose|j: int| 0 <= j < seats.len() && seats[j] == i;
            if k < j {
                assert(seats[k] < seats[j]);
            }
        }
    }
    assert(held_open(slots, gamepads, dropped, now, done) == held_open(
        slots,
        gamepads,
        dropped,
        now,
        next,
    ));
    assert forall|i: int| done <= i < next implies !#[trigger] test(i) by {
        assert(!slots[i].connected());
    }
    lemma_selected_to(test, done as nat, next as nat);
}

/// Numbers that do not pass select nothing.
proof fn lemma_selected_to(test: spec_fn(int) -> bool, from: nat, to: nat)
    requires
        from <= to,
        forall|i: int| from <= i < to ==> !#[trigger] test(i),
    ensures
        select::selected(from, test) == select::selected(to, test),
    decreases to - from,
{
    if from < to {
        lemma_selected_to(test, from, (to - 1) as nat);
        assert(!test(to - 1));
    }
}

/// The controllers that drive nobody.
fn idle_gamepads(roster: &PlayerRoster, gamepads: &Vec<Gamepad>) -> (r: Vec<Entity>)
    requires
        roster@.wf(),
    ensures
        r@ == idle_pads(roster@, gamepads@),
{
    let ghost pads = gamepad::entities_of(gamepads@);
    let ghost test = idle(roster@);
    let mut free: Vec<Entity> = Vec::new();
    let mut i: usize = 0;
    proof {
        reveal(Seq::filter);
    }
    while i < gamepads.len()
        invariant
            roster@.wf(),
            pads == gamepad::entities_of(gamepads@),
            test == idle(roster@),
            i <= gamepads.len(),
            free@ == pads.take(i as int).filter(test),
        decreases gamepads.len() - i,
    {
        proof {
            reveal(Seq::filter);
            assert(pads.take(i + 1).drop_last() == pads.take(i as int));
            assert(pads.take(i + 1).last() == gamepads@[i as int].entity);
        }
        if roster.player_of_gamepad(gamepads[i].entity).is_none() {
            free.push(gamepads[i].entity);
        }
        i += 1;
    }
    assert(pads.take(i as int) == pads);
    free
}

/// Hand free controllers back to the slots that wait for them.
fn rematch(roster: &mut PlayerRoster, gamepads: &Vec<Gamepad>, free: &Vec<Entity>) -> (r: (
    Vec<Entity>,
    Vec<PlayerReconnected>,
))
    requires
        old(roster)@.wf(),
    ensures
        final(roster)@.wf(),
        ({
            let back = rematched(gamepads@, free@, old(roster)@);
            final(roster)@ == back.roster && r.0@ == back.left && r.1@ == back.reconnected
        }),
{
    let mut left: Vec<Entity> = Vec::new();
    let mut reconnected: Vec<PlayerReconnected> = Vec::new();
    let mut i: usize = 0;
    while i < free.len()
        invariant
            roster@.wf(),
            i <= free.len(),
            ({
                let back = rematched(gamepads@, free@.take(i as int), old(roster)@);
                roster@ == back.roster && left@ == back.left && reconnected@ == back.reconnected
            }),
        decreases free.len() - i,
    {
        let pad = free[i];
        proof {
            assert(free@.take(i + 1).drop_last() == free@.take(i as int));
            assert(free@.take(i + 1).last() == pad);
        }
        let fingerprint = gamepad::fingerprint_of(pad, gamepads);
        let waiting = if fingerprint.is_known() {
            roster.waiting_slot_matching(&fingerprint)
        } else {
            None
        };
        proof {
            select::lemma_first(roster@.slots.len(), roster@.missing(fingerprint));
        }
        match waiting {
            Some(id) => {
                match roster.attach_device(id, pad, fingerprint) {
                    Some(player_entity) => {
                        reconnected.push(
                            PlayerReconnected {
                                id,
                                player_entity,
                                gamepad: pad,
                                same_device: true,
                            },
                        );
                    },
                    None => {
                        left.push(pad);
                    },
                }
            },
            None => {
                left.push(pad);
            },
        }
        i += 1;
    }
    assert(free@.take(i as int) == free@);
    (left, reconnected)
}

/// Keeps slots pointed at live hardware. `dropped` are the gamepads that were
/// reported gone, `gamepads` those that are there.
///
/// A disconnect never drops the player: the slot is held, their input goes
/// neutral (see [`lose_device`]), and it is announced so you can pause.
///
/// The hardware is looked at rather than trusting reports alone: a gamepad can
/// also go away without one, and a report missed would otherwise strand a
/// player on dead hardware forever. For the same reason controllers plugged in
/// before the start are picked up the same as ones plugged in later.
pub fn sync_devices(
    roster: &mut PlayerRoster,
    config: &CouchConfig,
    now: Double,
    dropped: &Vec<Entity>,
    gamepads: &Vec<Gamepad>,
) -> (r: DeviceChanges)
    requires
        old(roster)@.wf(),
    ensures
        final(roster)@.wf(),
        r.disconnected@ == losses(
            old(roster)@.slots,
            select::selected(
                old(roster)@.slots.len(),
                strands(old(roster)@.slots, gamepads@, dropped@),
            ),
        ),
        ({
            let after = synced(
                old(roster)@,
                gamepads@,
                dropped@,
                config.reconnect.match_device,
                now,
            );
            final(roster)@ == after.roster && r.reconnected@ == after.reconnected
        }),
{
    let disconnected = hold_slots(roster, now, dropped, gamepads);
    let free = idle_gamepads(roster, gamepads);
    if config.reconnect.match_device {
        let (left, reconnected) = rematch(roster, gamepads, &free);
        roster.set_unassigned(left);
        DeviceChanges { disconnected, reconnected }
    } else {
        roster.set_unassigned(free);
        DeviceChanges { disconnected, reconnected: Vec::new() }
    }
}

/// What a disconnect does to a player: no hardware drives them, and they let
/// go of everything, which is reported as released in this frame. Without this
/// they would keep holding whatever direction they were pushing when the cable
/// came out.
pub fn lose_device(device: &mut PlayerDevice, input: &mut PlayerInput)
    ensures
        *final(device) == PlayerDevice::Missing,
        old(input).lost(*final(input)),
        final(input).wf(),
        final(input).neutral(),
{
    *device = PlayerDevice::Missing;
    input.tick();
    input.go_neutral();
    input.just_lost = true;
    assert(buttons::lifted(input.buttons) == buttons::held(old(input).buttons));
}

/// What a reconnect does to a player: the controller drives them.
pub fn regain_device(device: &mut PlayerDevice, gamepad: Entity)
    ensures
        *final(device) == PlayerDevice::Gamepad(gamepad),
{
    *device = PlayerDevice::Gamepad(gamepad);
}

} // verus!
