//! Couch co-op gamepad management.
//!
//! Every local-multiplayer game writes the same awkward layer on top of its
//! gamepads: mapping controllers to player slots, letting people join
//! mid-game, surviving a yanked USB cable, and driving rumble without stomping
//! on itself. This crate is that layer, with its rules stated and proved.
//!
//! # The model
//!
//! - A **slot** ([`PlayerId`]) is stable for the whole session. P2 stays P2.
//! - A **player entity** is made on join and is yours to build on: attach
//!   score, character choice, a sprite. It survives disconnects.
//! - A **gamepad entity** is ephemeral, and you never touch it. It gets
//!   swapped underneath the player when hardware comes and goes.
//!
//! # A frame
//!
//! [`sync_devices`] keeps slots pointed at live hardware,
//! [`process_membership`] applies the rules for joining and leaving,
//! [`read_player_input`] refreshes a player's [`PlayerInput`], and
//! [`drive_haptics`] mixes a player's [`Rumble`] and says what to tell the
//! motors. Each takes plain values and says what changed; nothing in here
//! talks to hardware.
//!
//! Floating-point values are carried by their bits ([`Single`], [`Double`]).
//! They are compared here, and computed with through an [`Arithmetic`] that
//! the caller hands in.

pub mod arithmetic;
pub mod brand;
pub mod buttons;
pub mod config;
pub mod device_laws;
pub mod devices;
pub mod entities;
pub mod gamepad;
pub mod haptic_laws;
pub mod haptics;
pub mod input;
pub mod input_laws;
pub mod join;
pub mod join_laws;
pub mod params;
pub mod pattern;
pub mod pattern_laws;
pub mod player;
pub mod plugin;
pub mod prelude;
pub mod roster;
pub mod roster_laws;
pub mod rounding;
pub mod scalar;
pub mod select;
pub mod vendor;

pub use arithmetic::Arithmetic;
pub use brand::GamepadBrand;
pub use buttons::{GamepadButton, ALL_BUTTONS, JOIN_BUTTONS};
pub use config::{CouchConfig, JoinMode, JoinTrigger, LeaveMode, ReconnectPolicy};
pub use devices::{lose_device, regain_device, sync_devices, DeviceChanges};
pub use gamepad::Gamepad;
pub use haptics::{drive_haptics, Rumble, RumbleHandle, RumbleRequest, RumbleTrack};
pub use input::{radial_deadzone, read_player_input, PlayerInput, Vec2};
pub use join::{process_membership, Admissions, LeaveHold, MembershipChanges, PlayerHold};
pub use params::{Haptics, Players};
pub use pattern::{RumbleKey, RumblePattern};
pub use player::{
    DeviceFingerprint, LeaveReason, Player, PlayerDevice, PlayerDisconnected, PlayerId,
    PlayerJoined, PlayerLeft, PlayerReconnected,
};
pub use plugin::CouchMultiplayerPlugin;
pub use roster::{
    any_player_disconnected, any_player_joined, lobby_is_full, PlayerRoster, PlayerSlot, SlotState,
};
pub use scalar::{Double, Single};
