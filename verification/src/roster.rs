//! Who is playing, and on what.

use crate::arithmetic;
use crate::arithmetic::Arithmetic;
use crate::brand::GamepadBrand;
use crate::entities;
use crate::player::{DeviceFingerprint, LeaveReason, PlayerDevice, PlayerId};
use crate::scalar::{Double, Single};
use crate::select;
use bevy_ecs::entity::Entity;
use vstd::prelude::*;

verus! {

/// What a slot holds.
#[derive(Debug)]
pub enum SlotState {
    /// Nobody.
    Empty,
    /// A player, with or without hardware.
    Occupied {
        /// The player entity.
        player_entity: Entity,
        /// What hardware drives the slot.
        device: PlayerDevice,
        /// The last controller that did.
        fingerprint: DeviceFingerprint,
        /// Seconds (since app start) when the device dropped, if it has.
        lost_at: Option<Double>,
    },
}

impl SlotState {
    /// Somebody has joined here.
    pub open spec fn occupied(self) -> bool {
        self is Occupied
    }

    /// Somebody has joined here and holds live hardware.
    pub open spec fn connected(self) -> bool {
        self is Occupied && self->device is Gamepad
    }

    /// Somebody has joined here and is missing their hardware.
    pub open spec fn waiting(self) -> bool {
        self is Occupied && self->device is Missing
    }

    /// The slot is driven by `pad`.
    pub open spec fn holds(self, pad: Entity) -> bool {
        self is Occupied && self->device.holds(pad)
    }

    /// The clock runs exactly while the hardware is gone.
    pub open spec fn consistent(self) -> bool {
        self is Occupied ==> (self->lost_at is Some <==> self->device is Missing)
    }

    fn is_occupied(&self) -> (r: bool)
        ensures
            r == self.occupied(),
    {
        match self {
            SlotState::Occupied { .. } => true,
            SlotState::Empty => false,
        }
    }

    fn is_connected(&self) -> (r: bool)
        ensures
            r == self.connected(),
    {
        match self {
            SlotState::Occupied { device, .. } => device.is_connected(),
            SlotState::Empty => false,
        }
    }

    fn is_waiting(&self) -> (r: bool)
        ensures
            r == self.waiting(),
    {
        match self {
            SlotState::Occupied { device, .. } => !device.is_connected(),
            SlotState::Empty => false,
        }
    }

    fn is_on(&self, pad: Entity) -> (r: bool)
        ensures
            r == self.holds(pad),
    {
        match self {
            SlotState::Occupied { device, .. } => device.is_on(pad),
            SlotState::Empty => false,
        }
    }
}

/// A read-only view of one occupied slot.
///
/// Cheaper to pass around than four separate roster lookups, and it can't
/// disagree with itself.
#[derive(Debug, Clone, Copy)]
pub struct PlayerSlot<'a> {
    id: PlayerId,
    player_entity: Entity,
    device: PlayerDevice,
    fingerprint: &'a DeviceFingerprint,
    lost_at: Option<Double>,
}

/// What a [`PlayerSlot`] shows.
pub struct SlotView {
    /// Which slot.
    pub id: PlayerId,
    /// The player entity.
    pub player_entity: Entity,
    /// What drives it.
    pub device: PlayerDevice,
    /// The last controller in it.
    pub fingerprint: DeviceFingerprint,
    /// Since when it waits for hardware.
    pub lost_at: Option<Double>,
}

impl<'a> View for PlayerSlot<'a> {
    type V = SlotView;

    closed spec fn view(&self) -> SlotView {
        SlotView {
            id: self.id,
            player_entity: self.player_entity,
            device: self.device,
            fingerprint: *self.fingerprint,
            lost_at: self.lost_at,
        }
    }
}

impl<'a> PlayerSlot<'a> {
    /// Which slot this is.
    pub fn id(self) -> (r: PlayerId)
        ensures
            r == self@.id,
    {
        self.id
    }

    /// The player entity: yours to attach gameplay components to.
    pub fn entity(self) -> (r: Entity)
        ensures
            r == self@.player_entity,
    {
        self.player_entity
    }

    /// What hardware is driving this slot, if any.
    pub fn device(self) -> (r: PlayerDevice)
        ensures
            r == self@.device,
    {
        self.device
    }

    /// The live gamepad entity, if the controller is plugged in.
    pub fn gamepad(self) -> (r: Option<Entity>)
        ensures
            r == (match self@.device {
                PlayerDevice::Gamepad(pad) => Some(pad),
                PlayerDevice::Missing => None,
            }),
    {
        self.device.gamepad()
    }

    /// Whether the controller is plugged in right now.
    pub fn is_connected(self) -> (r: bool)
        ensures
            r == (self@.device is Gamepad),
    {
        self.device.is_connected()
    }

    /// Identity of the controller in this slot, kept even while it's
    /// unplugged, so "P2: reconnect your DualSense" still works.
    pub fn fingerprint(self) -> (r: &'a DeviceFingerprint)
        ensures
            *r == self@.fingerprint,
    {
        self.fingerprint
    }

    /// Which button glyphs to show this player. See
    /// [`GamepadBrand::button_label`].
    pub fn brand(self) -> (r: GamepadBrand)
        ensures
            r == self@.fingerprint.family(),
    {
        self.fingerprint.brand()
    }

    /// How long this player has been waiting for hardware, in seconds.
    /// `None` while they're connected.
    pub fn waiting_secs<M: Arithmetic>(self, now: Double, math: &M) -> (r: Option<Single>)
        ensures
            match self@.lost_at {
                None => r is None,
                Some(at) => r is Some && waited(math, now, at, r->0),
            },
    {
        match self.lost_at {
            Some(at) => {
                let gone = math.double_minus(now, at);
                assert(arithmetic::double_difference(math, now, at, gone));
                Some(math.narrow(gone.max(Double { bits: 0 })))
            },
            None => None,
        }
    }
}

/// `secs` is the time from `at` to `now`, or 0 where that is negative.
pub open spec fn waited<M: Arithmetic>(math: &M, now: Double, at: Double, secs: Single) -> bool {
    exists|gone: Double|
        #[trigger] arithmetic::double_difference(math, now, at, gone) && arithmetic::narrowed(
            math,
            gone.larger(Double { bits: 0 }),
            secs,
        )
}

/// A slot waiting since `at` is overdue at `now` where at least `grace` has
/// passed.
pub open spec fn overdue<M: Arithmetic>(
    math: &M,
    grace: Double,
    now: Double,
    at: Double,
    verdict: bool,
) -> bool {
    exists|gone: Double|
        #[trigger] arithmetic::double_difference(math, now, at, gone) && verdict == grace.within(
            gone,
        )
}

/// The number of a slot as its id.
pub open spec fn id_of(slot: int) -> PlayerId {
    PlayerId(slot as u8)
}

/// The id of a slot that was looked for.
pub open spec fn found(slot: Option<int>) -> Option<PlayerId> {
    match slot {
        Some(i) => Some(id_of(i)),
        None => None,
    }
}

/// The ids of the numbered slots.
pub open spec fn ids_of(slots: Seq<int>) -> Seq<PlayerId> {
    Seq::new(slots.len(), |k: int| id_of(slots[k]))
}

/// Whether a leave request for `id` is in the queue.
pub open spec fn is_leaving(queue: Seq<(PlayerId, LeaveReason)>, id: PlayerId) -> bool {
    exists|k: int| 0 <= k < queue.len() && (#[trigger] queue[k]).0 == id
}

/// The queue after a leave request: at its end, unless there is one for that
/// slot already.
pub open spec fn queued(
    queue: Seq<(PlayerId, LeaveReason)>,
    id: PlayerId,
    reason: LeaveReason,
) -> Seq<(PlayerId, LeaveReason)> {
    if is_leaving(queue, id) {
        queue
    } else {
        queue.push((id, reason))
    }
}

/// What a roster holds.
#[verifier::ext_equal]
pub struct RosterView {
    /// The slots, by index.
    pub slots: Seq<SlotState>,
    /// Gamepads that are plugged in but haven't joined.
    pub unassigned: Seq<Entity>,
    /// Gamepads that asked to join.
    pub join_queue: Seq<Entity>,
    /// Players that asked to leave, or were asked to.
    pub leave_queue: Seq<(PlayerId, LeaveReason)>,
}

impl RosterView {
    /// There is a slot, every slot has an id, clocks run exactly for missing
    /// hardware, and nothing is queued twice.
    pub open spec fn wf(self) -> bool {
        &&& 1 <= self.slots.len() <= 255
        &&& forall|i: int| 0 <= i < self.slots.len() ==> (#[trigger] self.slots[i]).consistent()
        &&& self.join_queue.no_duplicates()
        &&& forall|j: int, k: int|
            0 <= j < k < self.leave_queue.len() ==> (#[trigger] self.leave_queue[j]).0 != (
            #[trigger] self.leave_queue[k]).0
    }

    /// There is a slot of that number and somebody has joined there.
    pub open spec fn joined(self, id: PlayerId) -> bool {
        id.0 < self.slots.len() && self.slots[id.0 as int].occupied()
    }

    /// Everything known about one slot.
    pub open spec fn slot(self, id: PlayerId) -> Option<SlotView> {
        if id.0 < self.slots.len() {
            match self.slots[id.0 as int] {
                SlotState::Occupied { player_entity, device, fingerprint, lost_at } => Some(
                    SlotView { id, player_entity, device, fingerprint, lost_at },
                ),
                SlotState::Empty => None,
            }
        } else {
            None
        }
    }

    /// Slots that somebody has joined.
    pub open spec fn occupied(self) -> spec_fn(int) -> bool {
        |i: int| self.slots[i].occupied()
    }

    /// Slots with live hardware.
    pub open spec fn connected(self) -> spec_fn(int) -> bool {
        |i: int| self.slots[i].connected()
    }

    /// Slots that miss their hardware.
    pub open spec fn waiting(self) -> spec_fn(int) -> bool {
        |i: int| self.slots[i].waiting()
    }

    /// Slots that nobody has joined.
    pub open spec fn free(self) -> spec_fn(int) -> bool {
        |i: int| !self.slots[i].occupied()
    }

    /// Slots driven by `pad`.
    pub open spec fn driven_by(self, pad: Entity) -> spec_fn(int) -> bool {
        |i: int| self.slots[i].holds(pad)
    }

    /// Slots that miss hardware of this look.
    pub open spec fn missing(self, fingerprint: DeviceFingerprint) -> spec_fn(int) -> bool {
        |i: int| self.slots[i].waiting() && self.slots[i]->fingerprint.alike(fingerprint)
    }

    /// The joined slots, in slot order.
    pub open spec fn seats(self) -> Seq<int> {
        select::selected(self.slots.len(), self.occupied())
    }

    /// The given slots with the hardware that drives them.
    pub open spec fn assigned_among(self, slots: Seq<int>) -> Seq<(PlayerId, Entity)> {
        Seq::new(slots.len(), |k: int| (id_of(slots[k]), self.slots[slots[k]]->device->Gamepad_0))
    }

    /// The slots with live hardware, in slot order, with that hardware.
    pub open spec fn assignments(self) -> Seq<(PlayerId, Entity)> {
        self.assigned_among(select::selected(self.slots.len(), self.connected()))
    }

    /// The slot that drives on `pad`.
    pub open spec fn owner(self, pad: Entity) -> Option<int> {
        select::first(self.slots.len(), self.driven_by(pad))
    }

    /// Among the first `n` slots, the one that has waited longest: the first
    /// with a clock that no other's is before.
    pub open spec fn longest_waiting(self, n: nat) -> Option<int>
        decreases n,
    {
        if n == 0 {
            None
        } else {
            let slot = self.slots[n - 1];
            let best = self.longest_waiting((n - 1) as nat);
            if slot.waiting() && slot->lost_at is Some {
                match best {
                    Some(i) => if slot->lost_at->0.below(self.slots[i]->lost_at->0) {
                        Some(n - 1)
                    } else {
                        Some(i)
                    },
                    None => Some(n - 1),
                }
            } else {
                best
            }
        }
    }

    /// Slots that miss their hardware and were judged overdue.
    pub open spec fn condemned(self, verdicts: Seq<bool>) -> spec_fn(int) -> bool {
        |i: int| self.slots[i].waiting() && verdicts[i]
    }

    /// `verdicts` says of every waiting slot whether `grace_secs` have passed;
    /// `limit` is `grace_secs` in double precision.
    pub open spec fn judged<M: Arithmetic>(
        self,
        math: &M,
        grace_secs: Single,
        now: Double,
        limit: Double,
        verdicts: Seq<bool>,
    ) -> bool {
        &&& arithmetic::widened(math, grace_secs, limit)
        &&& verdicts.len() == self.slots.len()
        &&& forall|i: int|
            0 <= i < self.slots.len() && (#[trigger] self.slots[i]).waiting() ==> overdue(
                math,
                limit,
                now,
                self.slots[i]->lost_at->0,
                verdicts[i],
            )
    }

    /// `ids` are the slots that have waited for at least `grace_secs`, in slot
    /// order.
    pub open spec fn expired<M: Arithmetic>(
        self,
        math: &M,
        grace_secs: Single,
        now: Double,
        ids: Seq<PlayerId>,
    ) -> bool {
        exists|limit: Double, verdicts: Seq<bool>| #[trigger]
            self.judged(math, grace_secs, now, limit, verdicts) && ids == ids_of(
                select::selected(self.slots.len(), self.condemned(verdicts)),
            )
    }

    /// The roster with a player seated in a slot.
    pub open spec fn occupy(
        self,
        id: PlayerId,
        player_entity: Entity,
        pad: Entity,
        fingerprint: DeviceFingerprint,
    ) -> RosterView {
        if id.0 < self.slots.len() {
            RosterView {
                slots: self.slots.update(
                    id.0 as int,
                    SlotState::Occupied {
                        player_entity,
                        device: PlayerDevice::Gamepad(pad),
                        fingerprint,
                        lost_at: None,
                    },
                ),
                ..self
            }
        } else {
            self
        }
    }

    /// The roster with hardware handed to a joined slot.
    pub open spec fn attach(
        self,
        id: PlayerId,
        pad: Entity,
        fingerprint: DeviceFingerprint,
    ) -> RosterView {
        if self.joined(id) {
            self.occupy(id, self.slots[id.0 as int]->player_entity, pad, fingerprint)
        } else {
            self
        }
    }

    /// The roster with the hardware of a slot gone.
    pub open spec fn lose(self, id: PlayerId, now: Double) -> RosterView {
        if id.0 < self.slots.len() && self.slots[id.0 as int].connected() {
            RosterView {
                slots: self.slots.update(id.0 as int, unplugged(self.slots[id.0 as int], now)),
                ..self
            }
        } else {
            self
        }
    }

    /// The roster with a slot emptied.
    pub open spec fn vacate(self, id: PlayerId) -> RosterView {
        if id.0 < self.slots.len() {
            RosterView { slots: self.slots.update(id.0 as int, SlotState::Empty), ..self }
        } else {
            self
        }
    }

    /// One past the last of the first `n` slots that somebody has joined.
    pub open spec fn occupied_through(self, n: nat) -> nat
        decreases n,
    {
        if n == 0 {
            0
        } else if self.slots[n - 1].occupied() {
            n
        } else {
            self.occupied_through((n - 1) as nat)
        }
    }

    /// How many slots a lobby of `max` players leaves open: not fewer than
    /// one, nor than seats everybody who has joined.
    pub open spec fn room(self, max: u8) -> int {
        let target = if max == 0 {
            1
        } else {
            max as int
        };
        let taken = self.occupied_through(self.slots.len()) as int;
        if target < taken {
            taken
        } else {
            target
        }
    }

    /// The roster grown or shrunk to a lobby of `max` players.
    pub open spec fn resize(self, max: u8) -> RosterView {
        let room = self.room(max);
        RosterView {
            slots: Seq::new(
                room as nat,
                |i: int|
                    if i < self.slots.len() {
                        self.slots[i]
                    } else {
                        SlotState::Empty
                    },
            ),
            ..self
        }
    }

    /// The roster with a join request queued.
    pub open spec fn ask_join(self, pad: Entity) -> RosterView {
        RosterView { join_queue: entities::joined(self.join_queue, pad), ..self }
    }

    /// The roster with a leave request queued.
    pub open spec fn ask_leave(self, id: PlayerId, reason: LeaveReason) -> RosterView {
        RosterView { leave_queue: queued(self.leave_queue, id, reason), ..self }
    }
}

/// A joined slot after its hardware went away.
pub open spec fn unplugged(slot: SlotState, now: Double) -> SlotState {
    SlotState::Occupied {
        player_entity: slot->player_entity,
        device: PlayerDevice::Missing,
        fingerprint: slot->fingerprint,
        lost_at: Some(now),
    }
}

/// The source of truth for who is playing and on what.
///
/// Read it for UI and call [`request_join`](Self::request_join) /
/// [`request_leave`](Self::request_leave) to drive a lobby yourself.
#[derive(Debug)]
pub struct PlayerRoster {
    slots: Vec<SlotState>,
    unassigned: Vec<Entity>,
    join_queue: Vec<Entity>,
    leave_queue: Vec<(PlayerId, LeaveReason)>,
}

impl View for PlayerRoster {
    type V = RosterView;

    closed spec fn view(&self) -> RosterView {
        RosterView {
            slots: self.slots@,
            unassigned: self.unassigned@,
            join_queue: self.join_queue@,
            leave_queue: self.leave_queue@,
        }
    }
}

impl PlayerRoster {
    /// An empty lobby with `max_players` slots, at least one.
    pub fn new(max_players: u8) -> (r: PlayerRoster)
        ensures
            r@.wf(),
            r@ == (RosterView {
                slots: Seq::new(
                    if max_players == 0 {
                        1
                    } else {
                        max_players as nat
                    },
                    |i: int| SlotState::Empty,
                ),
                unassigned: Seq::empty(),
                join_queue: Seq::empty(),
                leave_queue: Seq::empty(),
            }),
    {
        let target: usize = if max_players == 0 {
            1
        } else {
            max_players as usize
        };
        let mut slots: Vec<SlotState> = Vec::new();
        while slots.len() < target
            invariant
                slots.len() <= target,
                forall|i: int| 0 <= i < slots.len() ==> slots@[i] == SlotState::Empty,
            decreases target - slots.len(),
        {
            slots.push(SlotState::Empty);
        }
        PlayerRoster {
            slots,
            unassigned: Vec::new(),
            join_queue: Vec::new(),
            leave_queue: Vec::new(),
        }
    }

    /// Total slots, joined or not.
    pub fn capacity(&self) -> (r: usize)
        ensures
            r == self@.slots.len(),
    {
        self.slots.len()
    }

    /// How many players have joined (including ones whose pad is unplugged).
    pub fn player_count(&self) -> (r: usize)
        ensures
            r == select::selected(self@.slots.len(), self@.occupied()).len(),
    {
        let mut count: usize = 0;
        let mut i: usize = 0;
        while i < self.slots.len()
            invariant
                count <= i <= self.slots.len(),
                count == select::selected(i as nat, self@.occupied()).len(),
            decreases self.slots.len() - i,
        {
            if self.slots[i].is_occupied() {
                count += 1;
            }
            i += 1;
        }
        count
    }

    /// Whether nobody has joined yet.
    pub fn is_empty(&self) -> (r: bool)
        ensures
            r == (forall|i: int| 0 <= i < self@.slots.len() ==> !(#[trigger] self@.slots[i]).occupied()),
    {
        proof {
            select::lemma_selected(self@.slots.len(), self@.occupied());
            let all = select::selected(self@.slots.len(), self@.occupied());
            if all.len() > 0 {
                assert(self@.slots[all[0]].occupied());
            } else {
                assert forall|i: int| 0 <= i < self@.slots.len() implies !(
                #[trigger] self@.slots[i]).occupied() by {
                    if self@.slots[i].occupied() {
                        assert((self@.occupied())(i));
                        assert(all.contains(i));
                    }
                }
            }
        }
        self.player_count() == 0
    }

    /// Players whose controller is live right now.
    pub fn connected_count(&self) -> (r: usize)
        ensures
            r == select::selected(self@.slots.len(), self@.connected()).len(),
    {
        let mut count: usize = 0;
        let mut i: usize = 0;
        while i < self.slots.len()
            invariant
                count <= i <= self.slots.len(),
                count == select::selected(i as nat, self@.connected()).len(),
            decreases self.slots.len() - i,
        {
            if self.slots[i].is_connected() {
                count += 1;
            }
            i += 1;
        }
        count
    }

    /// Whether every slot is taken.
    pub fn is_full(&self) -> (r: bool)
        ensures
            r == (forall|i: int| 0 <= i < self@.slots.len() ==> (#[trigger] self@.slots[i]).occupied()),
    {
        proof {
            lemma_full_selection(self@.slots.len(), self@.occupied());
            assert forall|i: int| 0 <= i < self@.slots.len() implies (self@.occupied())(i)
                == (#[trigger] self@.slots[i]).occupied() by {}
        }
        self.player_count() >= self.capacity()
    }

    /// Gamepads that are plugged in but haven't joined.
    pub fn unassigned_gamepads(&self) -> (r: &[Entity])
        ensures
            r@ == self@.unassigned,
    {
        self.unassigned.as_slice()
    }

    /// Whether a slot currently holds a player.
    pub fn is_joined(&self, id: PlayerId) -> (r: bool)
        ensures
            r == self@.joined(id),
    {
        id.index() < self.slots.len() && self.slots[id.index()].is_occupied()
    }

    /// Everything known about one slot, or `None` if nobody is in it.
    pub fn get(&self, id: PlayerId) -> (r: Option<PlayerSlot<'_>>)
        ensures
            match r {
                Some(slot) => self@.slot(id) == Some(slot@),
                None => self@.slot(id) is None,
            },
    {
        if id.index() >= self.slots.len() {
            return None;
        }
        match &self.slots[id.index()] {
            SlotState::Occupied { player_entity, device, fingerprint, lost_at } => Some(
                PlayerSlot {
                    id,
                    player_entity: *player_entity,
                    device: *device,
                    fingerprint,
                    lost_at: *lost_at,
                },
            ),
            SlotState::Empty => None,
        }
    }

    /// Every joined slot, in slot order.
    pub fn iter(&self) -> (r: Vec<PlayerSlot<'_>>)
        requires
            self@.wf(),
        ensures
            r@.len() == self@.seats().len(),
            forall|k: int|
                0 <= k < r@.len() ==> Some((#[trigger] r@[k])@) == self@.slot(
                    id_of(self@.seats()[k]),
                ),
    {
        let mut all: Vec<PlayerSlot<'_>> = Vec::new();
        let mut i: usize = 0;
        while i < self.slots.len()
            invariant
                self@.wf(),
                i <= self.slots.len(),
                all@.len() == select::selected(i as nat, self@.occupied()).len(),
                forall|k: int|
                    0 <= k < all@.len() ==> Some((#[trigger] all@[k])@) == self@.slot(
                        id_of(select::selected(i as nat, self@.occupied())[k]),
                    ),
            decreases self.slots.len() - i,
        {
            let ghost before = select::selected(i as nat, self@.occupied());
            if let Some(slot) = self.get(PlayerId::new(i as u8)) {
                all.push(slot);
            }
            assert(select::selected((i + 1) as nat, self@.occupied()) == if self@.slots[i as int].occupied() {
                before.push(i as int)
            } else {
                before
            });
            i += 1;
        }
        all
    }

    /// Just the ids of joined slots, in order.
    pub fn players(&self) -> (r: Vec<PlayerId>)
        requires
            self@.wf(),
        ensures
            r@ == ids_of(self@.seats()),
    {
        let seats = self.iter();
        let mut ids: Vec<PlayerId> = Vec::new();
        let mut k: usize = 0;
        while k < seats.len()
            invariant
                k <= seats.len(),
                seats@.len() == self@.seats().len(),
                forall|j: int|
                    0 <= j < seats@.len() ==> Some((#[trigger] seats@[j])@) == self@.slot(
                        id_of(self@.seats()[j]),
                    ),
                ids@ == ids_of(self@.seats()).take(k as int),
            decreases seats.len() - k,
        {
            ids.push(seats[k].id());
            assert(Some(seats@[k as int]@) == self@.slot(id_of(self@.seats()[k as int])));
            k += 1;
        }
        ids
    }

    /// The player entity for a slot, if that slot is occupied.
    pub fn player_entity(&self, id: PlayerId) -> (r: Option<Entity>)
        ensures
            r == (match self@.slot(id) {
                Some(slot) => Some(slot.player_entity),
                None => None,
            }),
    {
        match self.get(id) {
            Some(slot) => Some(slot.entity()),
            None => None,
        }
    }

    /// What hardware, if any, a slot is driving.
    pub fn device(&self, id: PlayerId) -> (r: Option<PlayerDevice>)
        ensures
            r == (match self@.slot(id) {
                Some(slot) => Some(slot.device),
                None => None,
            }),
    {
        match self.get(id) {
            Some(slot) => Some(slot.device()),
            None => None,
        }
    }

    /// Whether a slot is joined *and* holding live hardware.
    pub fn is_connected(&self, id: PlayerId) -> (r: bool)
        ensures
            r == (id.0 < self@.slots.len() && self@.slots[id.0 as int].connected()),
    {
        match self.get(id) {
            Some(slot) => slot.is_connected(),
            None => false,
        }
    }

    /// Hardware identity of the controller in a slot, kept even while the
    /// controller is unplugged.
    pub fn fingerprint(&self, id: PlayerId) -> (r: Option<&DeviceFingerprint>)
        ensures
            match r {
                Some(known) => self@.slot(id) is Some && self@.slot(id)->0.fingerprint == *known,
                None => self@.slot(id) is None,
            },
    {
        match self.get(id) {
            Some(slot) => Some(slot.fingerprint()),
            None => None,
        }
    }

    /// Which button glyphs to show this player. See
    /// [`GamepadBrand::button_label`].
    pub fn brand(&self, id: PlayerId) -> (r: GamepadBrand)
        ensures
            r == (match self@.slot(id) {
                Some(slot) => slot.fingerprint.family(),
                None => GamepadBrand::Generic,
            }),
    {
        match self.fingerprint(id) {
            Some(known) => known.brand(),
            None => GamepadBrand::default(),
        }
    }

    /// Slot that owns a given gamepad entity.
    pub fn player_of_gamepad(&self, gamepad: Entity) -> (r: Option<PlayerId>)
        requires
            self@.wf(),
        ensures
            r == found(self@.owner(gamepad)),
    {
        let mut i: usize = 0;
        while i < self.slots.len()
            invariant
                self@.wf(),
                i <= self.slots.len(),
                forall|j: int| 0 <= j < i ==> !#[trigger] (self@.driven_by(gamepad))(j),
            decreases self.slots.len() - i,
        {
            if self.slots[i].is_on(gamepad) {
                proof {
                    select::lemma_first_is(
                        self@.slots.len(),
                        self@.driven_by(gamepad),
                        i as int,
                    );
                }
                return Some(PlayerId::new(i as u8));
            }
            i += 1;
        }
        proof {
            select::lemma_first(self@.slots.len(), self@.driven_by(gamepad));
        }
        None
    }

    /// Joined slots that currently have hardware, paired with it.
    pub fn assigned(&self) -> (r: Vec<(PlayerId, Entity)>)
        requires
            self@.wf(),
        ensures
            r@ == self@.assignments(),
    {
        let mut pairs: Vec<(PlayerId, Entity)> = Vec::new();
        let mut i: usize = 0;
        while i < self.slots.len()
            invariant
                self@.wf(),
                i <= self.slots.len(),
                pairs@ == self@.assigned_among(select::selected(i as nat, self@.connected())),
            decreases self.slots.len() - i,
        {
            if let SlotState::Occupied { device: PlayerDevice::Gamepad(pad), .. } = &self.slots[i] {
                pairs.push((PlayerId::new(i as u8), *pad));
            }
            i += 1;
        }
        pairs
    }

    /// Joined players who are currently missing their controller. Show these
    /// in a "reconnect controller" overlay.
    pub fn disconnected_players(&self) -> (r: Vec<PlayerId>)
        requires
            self@.wf(),
        ensures
            r@ == ids_of(select::selected(self@.slots.len(), self@.waiting())),
    {
        let mut ids: Vec<PlayerId> = Vec::new();
        let mut i: usize = 0;
        while i < self.slots.len()
            invariant
                self@.wf(),
                i <= self.slots.len(),
                ids@ == ids_of(select::selected(i as nat, self@.waiting())),
            decreases self.slots.len() - i,
        {
            if self.slots[i].is_waiting() {
                ids.push(PlayerId::new(i as u8));
            }
            i += 1;
        }
        ids
    }

    /// Whether anyone is waiting on a controller right now.
    pub fn any_disconnected(&self) -> (r: bool)
        ensures
            r == exists|i: int| 0 <= i < self@.slots.len() && (#[trigger] self@.slots[i]).waiting(),
    {
        let mut i: usize = 0;
        while i < self.slots.len()
            invariant
                i <= self.slots.len(),
                forall|j: int| 0 <= j < i ==> !(#[trigger] self@.slots[j]).waiting(),
            decreases self.slots.len() - i,
        {
            if self.slots[i].is_waiting() {
                assert(self@.slots[i as int].waiting());
                return true;
            }
            i += 1;
        }
        false
    }

    /// Ask for a specific gamepad to join on the next update, e.g. from your
    /// own lobby UI.
    pub fn request_join(&mut self, gamepad: Entity)
        requires
            old(self)@.wf(),
        ensures
            final(self)@ == old(self)@.ask_join(gamepad),
            final(self)@.wf(),
    {
        proof {
            entities::lemma_joined_keeps_distinct(self@.join_queue, gamepad);
        }
        entities::join(&mut self.join_queue, gamepad);
        assert(self@ == old(self)@.ask_join(gamepad));
    }

    /// Drop a player on the next update.
    pub fn request_leave(&mut self, id: PlayerId)
        requires
            old(self)@.wf(),
        ensures
            final(self)@ == old(self)@.ask_leave(id, LeaveReason::Requested),
            final(self)@.wf(),
    {
        self.queue_leave(id, LeaveReason::Requested);
    }

    /// The lowest slot that nobody has joined.
    pub fn first_free_slot(&self) -> (r: Option<PlayerId>)
        requires
            self@.wf(),
        ensures
            r == found(select::first(self@.slots.len(), self@.free())),
    {
        let mut i: usize = 0;
        while i < self.slots.len()
            invariant
                self@.wf(),
                i <= self.slots.len(),
                forall|j: int| 0 <= j < i ==> !#[trigger] (self@.free())(j),
            decreases self.slots.len() - i,
        {
            if !self.slots[i].is_occupied() {
                proof {
                    select::lemma_first_is(self@.slots.len(), self@.free(), i as int);
                }
                return Some(PlayerId::new(i as u8));
            }
            i += 1;
        }
        proof {
            select::lemma_first(self@.slots.len(), self@.free());
        }
        None
    }

    /// The disconnected slot that has been waiting longest for hardware.
    pub fn longest_waiting_slot(&self) -> (r: Option<PlayerId>)
        requires
            self@.wf(),
        ensures
            r == found(self@.longest_waiting(self@.slots.len())),
    {
        let mut best: Option<(usize, Double)> = None;
        let mut i: usize = 0;
        while i < self.slots.len()
            invariant
                self@.wf(),
                i <= self.slots.len(),
                match best {
                    Some((slot, at)) => {
                        &&& self@.longest_waiting(i as nat) == Some(slot as int)
                        &&& slot < i
                        &&& self@.slots[slot as int]->lost_at == Some(at)
                    },
                    None => self@.longest_waiting(i as nat) is None,
                },
            decreases self.slots.len() - i,
        {
            if let SlotState::Occupied {
                device: PlayerDevice::Missing,
                lost_at: Some(at),
                ..
            } = &self.slots[i] {
                let longer = match best {
                    Some((_, earliest)) => at.less_than(earliest),
                    None => true,
                };
                if longer {
                    best = Some((i, *at));
                }
            }
            i += 1;
        }
        match best {
            Some((slot, _)) => Some(PlayerId::new(slot as u8)),
            None => None,
        }
    }

    /// A disconnected slot whose old controller looks like `fingerprint`.
    pub fn waiting_slot_matching(&self, fingerprint: &DeviceFingerprint) -> (r: Option<PlayerId>)
        requires
            self@.wf(),
        ensures
            r == found(select::first(self@.slots.len(), self@.missing(*fingerprint))),
    {
        let mut i: usize = 0;
        while i < self.slots.len()
            invariant
                self@.wf(),
                i <= self.slots.len(),
                forall|j: int| 0 <= j < i ==> !#[trigger] (self@.missing(*fingerprint))(j),
            decreases self.slots.len() - i,
        {
            if let SlotState::Occupied {
                device: PlayerDevice::Missing,
                fingerprint: known,
                ..
            } = &self.slots[i] {
                if known.matches(fingerprint) {
                    proof {
                        select::lemma_first_is(
                            self@.slots.len(),
                            self@.missing(*fingerprint),
                            i as int,
                        );
                    }
                    return Some(PlayerId::new(i as u8));
                }
            }
            i += 1;
        }
        proof {
            select::lemma_first(self@.slots.len(), self@.missing(*fingerprint));
        }
        None
    }
}

impl PlayerRoster {
    /// Adds a leave request, unless there is one for that slot already.
    pub fn queue_leave(&mut self, id: PlayerId, reason: LeaveReason)
        requires
            old(self)@.wf(),
        ensures
            final(self)@ == old(self)@.ask_leave(id, reason),
            final(self)@.wf(),
    {
        let mut k: usize = 0;
        while k < self.leave_queue.len()
            invariant
                k <= self.leave_queue.len(),
                *self == *old(self),
                old(self)@.wf(),
                forall|j: int| 0 <= j < k ==> (#[trigger] self@.leave_queue[j]).0 != id,
            decreases self.leave_queue.len() - k,
        {
            if self.leave_queue[k].0 == id {
                assert(self@.leave_queue[k as int].0 == id);
                return ;
            }
            k += 1;
        }
        self.leave_queue.push((id, reason));
    }

    /// Slots whose reconnect grace period has run out.
    pub fn expired_slots<M: Arithmetic>(
        &self,
        grace_secs: Single,
        now: Double,
        math: &M,
    ) -> (r: Vec<PlayerId>)
        requires
            self@.wf(),
        ensures
            self@.expired(math, grace_secs, now, r@),
    {
        let limit = math.widen(grace_secs);
        let mut ids: Vec<PlayerId> = Vec::new();
        let mut i: usize = 0;
        let ghost mut verdicts: Seq<bool> = Seq::empty();
        while i < self.slots.len()
            invariant
                self@.wf(),
                i <= self.slots.len(),
                verdicts.len() == i,
                forall|j: int|
                    0 <= j < i && (#[trigger] self@.slots[j]).waiting() ==> overdue(
                        math,
                        limit,
                        now,
                        self@.slots[j]->lost_at->0,
                        verdicts[j],
                    ),
                ids@ == ids_of(select::selected(i as nat, self@.condemned(verdicts))),
            decreases self.slots.len() - i,
        {
            let mut late = false;
            if let SlotState::Occupied {
                device: PlayerDevice::Missing,
                lost_at: Some(at),
                ..
            } = &self.slots[i] {
                let gone = math.double_minus(now, *at);
                assert(arithmetic::double_difference(math, now, *at, gone));
                late = limit.at_most(gone);
                assert(overdue(math, limit, now, *at, late));
                if late {
                    ids.push(PlayerId::new(i as u8));
                }
            }
            proof {
                let before = verdicts;
                verdicts = verdicts.push(late);
                select::lemma_same_selection(
                    i as nat,
                    self@.condemned(before),
                    self@.condemned(verdicts),
                );
                assert(self@.slots[i as int].waiting() ==> overdue(
                    math,
                    limit,
                    now,
                    self@.slots[i as int]->lost_at->0,
                    verdicts[i as int],
                ));
            }
            i += 1;
        }
        assert(self@.judged(math, grace_secs, now, limit, verdicts));
        ids
    }

    /// Seats a player in a slot; nothing happens where there is no such slot.
    pub fn occupy(
        &mut self,
        id: PlayerId,
        player_entity: Entity,
        gamepad: Entity,
        fingerprint: DeviceFingerprint,
    )
        requires
            old(self)@.wf(),
        ensures
            final(self)@ == old(self)@.occupy(id, player_entity, gamepad, fingerprint),
            final(self)@.wf(),
    {
        if id.index() < self.slots.len() {
            self.slots[id.index()] =
            SlotState::Occupied {
                player_entity,
                device: PlayerDevice::Gamepad(gamepad),
                fingerprint,
                lost_at: None,
            };
        }
        assert(self@ == old(self)@.occupy(id, player_entity, gamepad, fingerprint));
    }

    /// Hand hardware to an occupied slot. Returns its player entity.
    pub fn attach_device(
        &mut self,
        id: PlayerId,
        gamepad: Entity,
        fingerprint: DeviceFingerprint,
    ) -> (r: Option<Entity>)
        requires
            old(self)@.wf(),
        ensures
            final(self)@ == old(self)@.attach(id, gamepad, fingerprint),
            final(self)@.wf(),
            r == (match old(self)@.slot(id) {
                Some(slot) => Some(slot.player_entity),
                None => None,
            }),
    {
        match self.player_entity(id) {
            Some(player_entity) => {
                self.occupy(id, player_entity, gamepad, fingerprint);
                Some(player_entity)
            },
            None => None,
        }
    }

    /// Starts the clock of a slot whose hardware went away. Returns the player
    /// entity, or `None` if the slot was already flagged.
    pub fn mark_disconnected(&mut self, id: PlayerId, now: Double) -> (r: Option<Entity>)
        requires
            old(self)@.wf(),
        ensures
            final(self)@ == old(self)@.lose(id, now),
            final(self)@.wf(),
            r == (match old(self)@.slot(id) {
                Some(slot) => if slot.device is Gamepad {
                    Some(slot.player_entity)
                } else {
                    None
                },
                None => None,
            }),
    {
        if id.index() >= self.slots.len() || !self.slots[id.index()].is_connected() {
            return None;
        }
        match &mut self.slots[id.index()] {
            SlotState::Occupied { player_entity, device, lost_at, .. } => {
                *device = PlayerDevice::Missing;
                *lost_at = Some(now);
                let gone = *player_entity;
                assert(self@ == old(self)@.lose(id, now));
                Some(gone)
            },
            SlotState::Empty => None,
        }
    }

    /// Empty a slot, returning what was in it.
    pub fn vacate(&mut self, id: PlayerId) -> (r: Option<(Entity, PlayerDevice)>)
        requires
            old(self)@.wf(),
        ensures
            final(self)@ == old(self)@.vacate(id),
            final(self)@.wf(),
            r == (match old(self)@.slot(id) {
                Some(slot) => Some((slot.player_entity, slot.device)),
                None => None,
            }),
    {
        let seated = match self.get(id) {
            Some(slot) => Some((slot.entity(), slot.device())),
            None => None,
        };
        if id.index() < self.slots.len() {
            self.slots[id.index()] = SlotState::Empty;
        }
        assert(self@ == old(self)@.vacate(id));
        seated
    }

    /// Grow or shrink the lobby. Shrinking only ever drops empty trailing
    /// slots, so raising and lowering the setting can't kick anyone out
    /// mid-game. Returns whether the capacity actually changed.
    pub fn resize(&mut self, max_players: u8) -> (r: bool)
        requires
            old(self)@.wf(),
        ensures
            final(self)@ == old(self)@.resize(max_players),
            final(self)@.wf(),
            r == (final(self)@.slots.len() != old(self)@.slots.len()),
    {
        let target: usize = if max_players == 0 {
            1
        } else {
            max_players as usize
        };
        let before: usize = self.slots.len();
        proof {
            lemma_occupied_through(self@, self@.slots.len());
        }
        while self.slots.len() < target
            invariant
                old(self)@.wf(),
                before == old(self)@.slots.len(),
                target <= 255,
                before <= self.slots.len(),
                self.slots.len() <= target || self.slots.len() == before,
                self@ == (RosterView { slots: self@.slots, ..old(self)@ }),
                forall|i: int| 0 <= i < before ==> self@.slots[i] == old(self)@.slots[i],
                forall|i: int| before <= i < self@.slots.len() ==> self@.slots[i] == SlotState::Empty,
            decreases target - self.slots.len(),
        {
            self.slots.push(SlotState::Empty);
        }
        if target > before {
            assert(self@ == old(self)@.resize(max_players));
            return true;
        }
        assert(self@ == old(self)@);
        let mut taken: usize = before;
        while taken > 0 && !self.slots[taken - 1].is_occupied()
            invariant
                taken <= before,
                before == self@.slots.len(),
                self@ == old(self)@,
                self@.occupied_through(taken as nat) == self@.occupied_through(before as nat),
            decreases taken,
        {
            taken -= 1;
        }
        let room: usize = if target < taken {
            taken
        } else {
            target
        };
        self.slots.truncate(room);
        assert(self@ == old(self)@.resize(max_players));
        room != before
    }

    /// Replaces the list of gamepads that are plugged in but haven't joined.
    pub fn set_unassigned(&mut self, gamepads: Vec<Entity>)
        requires
            old(self)@.wf(),
        ensures
            final(self)@ == (RosterView { unassigned: gamepads@, ..old(self)@ }),
            final(self)@.wf(),
    {
        self.unassigned = gamepads;
    }

    /// Takes a gamepad off the list of those that haven't joined.
    pub fn claim_unassigned(&mut self, gamepad: Entity)
        requires
            old(self)@.wf(),
        ensures
            final(self)@ == (RosterView {
                unassigned: entities::without(old(self)@.unassigned, gamepad),
                ..old(self)@
            }),
            final(self)@.wf(),
    {
        entities::remove_all(&mut self.unassigned, gamepad);
    }

    /// Puts a gamepad on the list of those that haven't joined.
    pub fn release_unassigned(&mut self, gamepad: Entity)
        requires
            old(self)@.wf(),
        ensures
            final(self)@ == (RosterView {
                unassigned: entities::joined(old(self)@.unassigned, gamepad),
                ..old(self)@
            }),
            final(self)@.wf(),
    {
        entities::join(&mut self.unassigned, gamepad);
    }

    /// Empties the queue of join requests and hands them out.
    pub fn take_join_requests(&mut self) -> (r: Vec<Entity>)
        requires
            old(self)@.wf(),
        ensures
            r@ == old(self)@.join_queue,
            final(self)@ == (RosterView { join_queue: Seq::empty(), ..old(self)@ }),
            final(self)@.wf(),
    {
        let mut requests: Vec<Entity> = Vec::new();
        std::mem::swap(&mut requests, &mut self.join_queue);
        requests
    }

    /// Empties the queue of leave requests and hands them out.
    pub fn take_leave_requests(&mut self) -> (r: Vec<(PlayerId, LeaveReason)>)
        requires
            old(self)@.wf(),
        ensures
            r@ == old(self)@.leave_queue,
            final(self)@ == (RosterView { leave_queue: Seq::empty(), ..old(self)@ }),
            final(self)@.wf(),
    {
        let mut requests: Vec<(PlayerId, LeaveReason)> = Vec::new();
        std::mem::swap(&mut requests, &mut self.leave_queue);
        requests
    }
}

impl Default for PlayerRoster {
    fn default() -> (r: PlayerRoster)
        ensures
            r@.wf(),
            r@ == (RosterView {
                slots: Seq::new(4, |i: int| SlotState::Empty),
                unassigned: Seq::empty(),
                join_queue: Seq::empty(),
                leave_queue: Seq::empty(),
            }),
    {
        PlayerRoster::new(4)
    }
}

/// True while any joined player is missing their controller.
pub fn any_player_disconnected(roster: &PlayerRoster) -> (r: bool)
    ensures
        r == exists|i: int| 0 <= i < roster@.slots.len() && (#[trigger] roster@.slots[i]).waiting(),
{
    roster.any_disconnected()
}

/// True once at least one player has joined.
pub fn any_player_joined(roster: &PlayerRoster) -> (r: bool)
    ensures
        r == exists|i: int| 0 <= i < roster@.slots.len() && (#[trigger] roster@.slots[i]).occupied(),
{
    !roster.is_empty()
}

/// True while every slot is taken.
pub fn lobby_is_full(roster: &PlayerRoster) -> (r: bool)
    ensures
        r == forall|i: int| 0 <= i < roster@.slots.len() ==> (#[trigger] roster@.slots[i]).occupied(),
{
    roster.is_full()
}

/// Past [`RosterView::occupied_through`] nobody has joined.
pub proof fn lemma_occupied_through(roster: RosterView, n: nat)
    requires
        n <= roster.slots.len(),
    ensures
        roster.occupied_through(n) <= n,
        forall|i: int|
            roster.occupied_through(n) <= i < n ==> !(#[trigger] roster.slots[i]).occupied(),
    decreases n,
{
    if n > 0 {
        lemma_occupied_through(roster, (n - 1) as nat);
    }
}

/// As many numbers pass as there are exactly where all of them pass.
proof fn lemma_full_selection(n: nat, test: spec_fn(int) -> bool)
    ensures
        select::selected(n, test).len() >= n <==> forall|i: int|
            0 <= i < n ==> #[trigger] test(i),
    decreases n,
{
    if n > 0 {
        lemma_full_selection((n - 1) as nat, test);
        select::lemma_selected((n - 1) as nat, test);
        if select::selected(n, test).len() >= n {
            assert(test(n - 1));
        }
    }
}

} // verus!
