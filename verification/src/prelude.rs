//! Everything you normally need.

pub use crate::arithmetic::Arithmetic;
pub use crate::brand::GamepadBrand;
pub use crate::buttons::GamepadButton;
pub use crate::config::{CouchConfig, JoinMode, JoinTrigger, LeaveMode, ReconnectPolicy};
pub use crate::haptics::{Rumble, RumbleHandle};
pub use crate::input::PlayerInput;
pub use crate::join::LeaveHold;
pub use crate::params::{Haptics, Players};
pub use crate::pattern::{RumbleKey, RumblePattern};
pub use crate::player::{
    DeviceFingerprint, LeaveReason, Player, PlayerDevice, PlayerDisconnected, PlayerId,
    PlayerJoined, PlayerLeft, PlayerReconnected,
};
pub use crate::plugin::CouchMultiplayerPlugin;
pub use crate::roster::{
    any_player_disconnected, any_player_joined, lobby_is_full, PlayerRoster, PlayerSlot,
};
pub use crate::scalar::{Double, Single};
