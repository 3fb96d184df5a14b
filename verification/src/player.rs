//! Players, the devices they hold, and what is announced about them.

use crate::entities;
use crate::scalar::Single;
use bevy_ecs::entity::Entity;
use vstd::prelude::*;

verus! {

/// A stable, zero-based player slot. Slot 0 is "P1" on screen.
///
/// Slots are the whole point of this crate: gamepad `Entity` ids come and go
/// as hardware connects and disconnects, but a `PlayerId` sticks to a human
/// for the whole session.
#[derive(Debug, Clone, Copy, PartialEq, Eq, PartialOrd, Ord, Hash, Structural)]
pub struct PlayerId(
    /// Zero-based slot index.
    pub u8,
);

/// The character of a decimal digit.
pub open spec fn digit(d: int) -> char {
    (0x30 + d) as char
}

/// The decimal digits of `n`, most significant first.
pub open spec fn decimal(n: nat) -> Seq<char>
    decreases n,
{
    if n < 10 {
        seq![digit(n as int)]
    } else {
        decimal(n / 10).push(digit((n % 10) as int))
    }
}

fn digit_text(d: u8) -> (r: &'static str)
    requires
        d < 10,
    ensures
        r@ == seq![digit(d as int)],
{
    proof {
        reveal_strlit("0");
        reveal_strlit("1");
        reveal_strlit("2");
        reveal_strlit("3");
        reveal_strlit("4");
        reveal_strlit("5");
        reveal_strlit("6");
        reveal_strlit("7");
        reveal_strlit("8");
        reveal_strlit("9");
    }
    match d {
        0 => "0",
        1 => "1",
        2 => "2",
        3 => "3",
        4 => "4",
        5 => "5",
        6 => "6",
        7 => "7",
        8 => "8",
        _ => "9",
    }
}

impl PlayerId {
    /// Red, green and blue of the slot's colour, in the encoding of `Single`.
    pub open spec fn palette(self) -> (u32, u32, u32) {
        let hue = self.0 % 8;
        if hue == 0 {
            (0x3e4c_cccd, 0x3f0c_cccd, 0x3f80_0000)  // blue: 0.20, 0.55, 1.00
        } else if hue == 1 {
            (0x3f80_0000, 0x3eb3_3333, 0x3e99_999a)  // red: 1.00, 0.35, 0.30
        } else if hue == 2 {
            (0x3eb3_3333, 0x3f59_999a, 0x3ecc_cccd)  // green: 0.35, 0.85, 0.40
        } else if hue == 3 {
            (0x3f80_0000, 0x3f4c_cccd, 0x3e80_0000)  // yellow: 1.00, 0.80, 0.25
        } else if hue == 4 {
            (0x3f40_0000, 0x3ee6_6666, 0x3f80_0000)  // purple: 0.75, 0.45, 1.00
        } else if hue == 5 {
            (0x3e99_999a, 0x3f59_999a, 0x3f59_999a)  // cyan: 0.30, 0.85, 0.85
        } else if hue == 6 {
            (0x3f80_0000, 0x3f0c_cccd, 0x3e4c_cccd)  // orange: 1.00, 0.55, 0.20
        } else {
            (0x3f73_3333, 0x3ee6_6666, 0x3f40_0000)  // pink: 0.95, 0.45, 0.75
        }
    }

    /// One-based, and 255 for the last two slots.
    pub open spec fn ordinal(self) -> u8 {
        if self.0 < 255 {
            (self.0 + 1) as u8
        } else {
            255
        }
    }

    /// Slot 0.
    pub fn p1() -> (r: PlayerId)
        ensures
            r == PlayerId(0),
    {
        PlayerId(0)
    }

    /// Slot 1.
    pub fn p2() -> (r: PlayerId)
        ensures
            r == PlayerId(1),
    {
        PlayerId(1)
    }

    /// Slot 2.
    pub fn p3() -> (r: PlayerId)
        ensures
            r == PlayerId(2),
    {
        PlayerId(2)
    }

    /// Slot 3.
    pub fn p4() -> (r: PlayerId)
        ensures
            r == PlayerId(3),
    {
        PlayerId(3)
    }

    /// Slot 4.
    pub fn p5() -> (r: PlayerId)
        ensures
            r == PlayerId(4),
    {
        PlayerId(4)
    }

    /// Slot 5.
    pub fn p6() -> (r: PlayerId)
        ensures
            r == PlayerId(5),
    {
        PlayerId(5)
    }

    /// Slot 6.
    pub fn p7() -> (r: PlayerId)
        ensures
            r == PlayerId(6),
    {
        PlayerId(6)
    }

    /// Slot 7.
    pub fn p8() -> (r: PlayerId)
        ensures
            r == PlayerId(7),
    {
        PlayerId(7)
    }

    /// A slot from its zero-based index.
    pub fn new(slot: u8) -> (r: PlayerId)
        ensures
            r == PlayerId(slot),
    {
        PlayerId(slot)
    }

    /// Zero-based, for indexing your own per-player arrays.
    pub fn index(self) -> (r: usize)
        ensures
            r == self.0,
    {
        self.0 as usize
    }

    /// One-based, for UI: "Player 1", "P2 wins".
    pub fn number(self) -> (r: u8)
        ensures
            r == self.ordinal(),
    {
        if self.0 < 255 {
            self.0 + 1
        } else {
            255
        }
    }

    /// The slot as it reads on screen: "P1", "P2".
    pub fn display(self) -> (r: String)
        ensures
            r@ == "P"@ + decimal(self.ordinal() as nat),
    {
        let n: u8 = self.number();
        let mut text = String::from_str("P");
        proof {
            reveal_with_fuel(decimal, 3);
        }
        if n >= 100 {
            text.append(digit_text(n / 100));
        }
        if n >= 10 {
            text.append(digit_text(n / 10 % 10));
        }
        text.append(digit_text(n % 10));
        assert(text@ == "P"@ + decimal(n as nat));
        text
    }

    /// A distinct per-slot colour as sRGB, so you don't have to invent one.
    pub fn color_rgb(self) -> (r: [Single; 3])
        ensures
            r@ == seq![
                Single { bits: self.palette().0 },
                Single { bits: self.palette().1 },
                Single { bits: self.palette().2 },
            ],
    {
        let hue: u8 = self.0 % 8;
        let (red, green, blue): (u32, u32, u32) = if hue == 0 {
            (0x3e4c_cccd, 0x3f0c_cccd, 0x3f80_0000)
        } else if hue == 1 {
            (0x3f80_0000, 0x3eb3_3333, 0x3e99_999a)
        } else if hue == 2 {
            (0x3eb3_3333, 0x3f59_999a, 0x3ecc_cccd)
        } else if hue == 3 {
            (0x3f80_0000, 0x3f4c_cccd, 0x3e80_0000)
        } else if hue == 4 {
            (0x3f40_0000, 0x3ee6_6666, 0x3f80_0000)
        } else if hue == 5 {
            (0x3e99_999a, 0x3f59_999a, 0x3f59_999a)
        } else if hue == 6 {
            (0x3f80_0000, 0x3f0c_cccd, 0x3e4c_cccd)
        } else {
            (0x3f73_3333, 0x3ee6_6666, 0x3f40_0000)
        };
        [Single { bits: red }, Single { bits: green }, Single { bits: blue }]
    }
}

impl From<u8> for PlayerId {
    fn from(slot: u8) -> (r: PlayerId) {
        PlayerId(slot)
    }
}

impl vstd::std_specs::convert::FromSpecImpl<u8> for PlayerId {
    open spec fn obeys_from_spec() -> bool {
        true
    }

    open spec fn from_spec(slot: u8) -> PlayerId {
        PlayerId(slot)
    }
}

/// The first eight slots have eight different colours, and the colours repeat
/// after that.
pub proof fn law_colours_are_distinct(a: PlayerId, b: PlayerId)
    ensures
        a.palette() == b.palette() <==> a.0 % 8 == b.0 % 8,
{
}

/// Marks the entity that represents a joined player.
#[derive(Debug, Clone, Copy, PartialEq, Eq, Hash, Structural)]
pub struct Player {
    /// Which slot this entity plays in.
    pub id: PlayerId,
}

impl Player {
    /// A player in the given slot.
    pub fn new(id: PlayerId) -> (r: Player)
        ensures
            r == (Player { id }),
    {
        Player { id }
    }
}

/// Which physical device is currently driving a player.
#[derive(Debug, Clone, Copy, PartialEq, Eq)]
pub enum PlayerDevice {
    /// The gamepad entity spawned for this controller.
    Gamepad(Entity),
    /// Slot is reserved but has no live hardware right now.
    Missing,
}

impl PlayerDevice {
    /// Driven by `pad`.
    pub open spec fn holds(self, pad: Entity) -> bool {
        self == PlayerDevice::Gamepad(pad)
    }

    /// The live gamepad entity, if there is one.
    pub fn gamepad(&self) -> (r: Option<Entity>)
        ensures
            r == (match *self {
                PlayerDevice::Gamepad(pad) => Some(pad),
                PlayerDevice::Missing => None,
            }),
    {
        match *self {
            PlayerDevice::Gamepad(pad) => Some(pad),
            PlayerDevice::Missing => None,
        }
    }

    /// Whether hardware is currently attached.
    pub fn is_connected(&self) -> (r: bool)
        ensures
            r == (*self is Gamepad),
    {
        match *self {
            PlayerDevice::Gamepad(_) => true,
            PlayerDevice::Missing => false,
        }
    }

    /// Whether `pad` is attached.
    pub(crate) fn is_on(&self, pad: Entity) -> (r: bool)
        ensures
            r == self.holds(pad),
    {
        match *self {
            PlayerDevice::Gamepad(mine) => entities::same_entity(mine, pad),
            PlayerDevice::Missing => false,
        }
    }
}

impl Default for PlayerDevice {
    fn default() -> (r: PlayerDevice)
        ensures
            r == PlayerDevice::Missing,
    {
        PlayerDevice::Missing
    }
}

/// Enough identity to recognise the same controller when it comes back.
#[derive(Debug, PartialEq, Eq)]
pub struct DeviceFingerprint {
    /// Device name as reported by the OS, e.g. "Wireless Controller".
    pub name: Option<String>,
    /// USB vendor id, when the platform exposes one.
    pub vendor_id: Option<u16>,
    /// USB product id, when the platform exposes one.
    pub product_id: Option<u16>,
}

impl Clone for DeviceFingerprint {
    fn clone(&self) -> (r: DeviceFingerprint)
        ensures
            r == *self,
    {
        let name = match &self.name {
            Some(text) => Some(text.clone()),
            None => None,
        };
        DeviceFingerprint { name, vendor_id: self.vendor_id, product_id: self.product_id }
    }
}

impl Default for DeviceFingerprint {
    fn default() -> (r: DeviceFingerprint)
        ensures
            r == DeviceFingerprint::anonymous(),
    {
        DeviceFingerprint { name: None, vendor_id: None, product_id: None }
    }
}

impl DeviceFingerprint {
    /// Nothing is known of the device.
    pub open spec fn anonymous() -> DeviceFingerprint {
        DeviceFingerprint { name: None, vendor_id: None, product_id: None }
    }

    /// Carries a name or a vendor id.
    pub open spec fn known(self) -> bool {
        self.name is Some || self.vendor_id is Some
    }

    /// Vendor and product id are both there.
    pub open spec fn has_ids(self) -> bool {
        self.vendor_id is Some && self.product_id is Some
    }

    /// Looks like the same controller: ids decide where both devices have
    /// them, names otherwise.
    pub open spec fn alike(self, other: DeviceFingerprint) -> bool {
        if self.has_ids() && other.has_ids() {
            self.vendor_id == other.vendor_id && self.product_id == other.product_id
        } else {
            self.name is Some && other.name is Some && self.name->0@ == other.name->0@
        }
    }

    /// Whether this fingerprint carries anything worth matching on.
    pub fn is_known(&self) -> (r: bool)
        ensures
            r == self.known(),
    {
        self.name.is_some() || self.vendor_id.is_some()
    }

    /// Loose match: ids agree when both are known, otherwise fall back to name.
    ///
    /// Two identical controllers are indistinguishable by either measure, so
    /// this can hand P2's pad to P3 when both unplug at once.
    pub fn matches(&self, other: &DeviceFingerprint) -> (r: bool)
        ensures
            r == self.alike(*other),
    {
        match (self.vendor_id, other.vendor_id, self.product_id, other.product_id) {
            (Some(v1), Some(v2), Some(p1), Some(p2)) => v1 == v2 && p1 == p2,
            _ => match (&self.name, &other.name) {
                (Some(mine), Some(theirs)) => *mine == *theirs,
                _ => false,
            },
        }
    }
}

/// A device of which nothing is known matches no device, itself neither. A name
/// or a vendor id is enough to be worth matching on, and nothing else is.
pub proof fn law_anonymous_devices_never_match(other: DeviceFingerprint)
    ensures
        other.name is Some || other.vendor_id is Some ==> other.known(),
        other.name is None && other.vendor_id is None ==> !other.known(),
        !DeviceFingerprint::anonymous().alike(other),
        !other.alike(DeviceFingerprint::anonymous()),
{
}

/// A device with a name, or with both ids, matches itself; matching does not
/// depend on which of the two is asked.
pub proof fn law_matching_is_symmetric(a: DeviceFingerprint, b: DeviceFingerprint)
    ensures
        a.alike(b) <==> b.alike(a),
        a.alike(a) <==> a.has_ids() || a.name is Some,
{
}

/// Devices that match carry something worth matching on.
pub proof fn law_only_known_devices_match(a: DeviceFingerprint, b: DeviceFingerprint)
    requires
        a.alike(b),
    ensures
        a.known(),
        b.known(),
{
}

/// Where both devices carry both ids, the ids decide and names do not matter;
/// where one of them lacks an id, only the names do.
pub proof fn law_ids_decide_before_names(a: DeviceFingerprint, b: DeviceFingerprint)
    ensures
        a.vendor_id is Some && a.product_id is Some && b.vendor_id is Some && b.product_id is Some
            ==> (a.alike(b) <==> a.vendor_id->0 == b.vendor_id->0 && a.product_id->0
            == b.product_id->0),
        (a.vendor_id is None || a.product_id is None || b.vendor_id is None || b.product_id is None)
            ==> (a.alike(b) <==> a.name is Some && b.name is Some && a.name->0@ == b.name->0@),
{
}

/// The number that a row of digits stands for.
pub open spec fn value_of(digits: Seq<char>) -> int
    decreases digits.len(),
{
    if digits.len() == 0 {
        0
    } else {
        10 * value_of(digits.drop_last()) + (digits.last() as int - '0' as int)
    }
}

/// What a slot reads as on screen counts from one: the digits stand for one
/// more than its index, as far as there is a number for it.
pub proof fn law_numbers_are_shown_from_one(id: PlayerId)
    ensures
        id.0 < 255 ==> value_of(decimal(id.ordinal() as nat)) == id.0 + 1,
        id.0 == 255 ==> value_of(decimal(id.ordinal() as nat)) == 255,
{
    lemma_decimal_value(id.ordinal() as nat);
}

proof fn lemma_decimal_value(n: nat)
    ensures
        value_of(decimal(n)) == n,
    decreases n,
{
    reveal_with_fuel(value_of, 2);
    if n < 10 {
        assert(decimal(n).drop_last() == Seq::<char>::empty());
        assert(decimal(n).last() == digit(n as int));
    } else {
        lemma_decimal_value(n / 10);
        assert(decimal(n).drop_last() == decimal(n / 10));
        assert(decimal(n).last() == digit((n % 10) as int));
    }
}

/// A new player took a slot.
#[derive(Debug, Clone, Copy)]
pub struct PlayerJoined {
    /// The slot they took.
    pub id: PlayerId,
    /// The spawned player entity: attach your gameplay components to this.
    pub player_entity: Entity,
    /// The gamepad they joined on.
    pub gamepad: Entity,
}

/// A player gave up their slot. The player entity is despawned right after
/// this is announced, so read anything you need from it now.
#[derive(Debug, Clone, Copy)]
pub struct PlayerLeft {
    /// The slot they vacated.
    pub id: PlayerId,
    /// About to be despawned.
    pub player_entity: Entity,
    /// Why they left.
    pub reason: LeaveReason,
}

/// Why a player left.
#[derive(Debug, Clone, Copy, PartialEq, Eq, Structural)]
pub enum LeaveReason {
    /// Held the leave button, or was asked to leave through the roster.
    Requested,
    /// Their controller stayed gone past the reconnect grace period.
    TimedOut,
}

/// A player's controller vanished but their slot is being held.
#[derive(Debug, Clone, Copy)]
pub struct PlayerDisconnected {
    /// The slot being held open for them.
    pub id: PlayerId,
    /// Still alive: only their hardware went away.
    pub player_entity: Entity,
}

/// A controller was handed back to a slot that was holding it.
#[derive(Debug, Clone, Copy)]
pub struct PlayerReconnected {
    /// The slot that got its controller back.
    pub id: PlayerId,
    /// Unchanged across the disconnect.
    pub player_entity: Entity,
    /// The gamepad entity now driving this player.
    pub gamepad: Entity,
    /// True when this is the same hardware as before. False means a different
    /// controller took over the slot.
    pub same_device: bool,
}

} // verus!
