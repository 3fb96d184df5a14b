//! Settings gathered before anything runs.

use crate::buttons::GamepadButton;
use crate::config;
use crate::config::{CouchConfig, JoinMode, LeaveMode, ReconnectPolicy};
use crate::scalar;
use crate::scalar::Single;
use vstd::prelude::*;

verus! {

/// Local co-op player management and haptics, as they are to start.
#[derive(Debug, Clone)]
pub struct CouchMultiplayerPlugin {
    /// Starting configuration. An options menu can change it at runtime.
    pub config: CouchConfig,
}

impl Default for CouchMultiplayerPlugin {
    fn default() -> (r: CouchMultiplayerPlugin)
        ensures
            r.config == CouchConfig::standard(),
    {
        CouchMultiplayerPlugin { config: CouchConfig::default() }
    }
}

impl From<CouchConfig> for CouchMultiplayerPlugin {
    fn from(config: CouchConfig) -> (r: CouchMultiplayerPlugin) {
        CouchMultiplayerPlugin::from_config(config)
    }
}

impl vstd::std_specs::convert::FromSpecImpl<CouchConfig> for CouchMultiplayerPlugin {
    open spec fn obeys_from_spec() -> bool {
        true
    }

    open spec fn from_spec(config: CouchConfig) -> CouchMultiplayerPlugin {
        CouchMultiplayerPlugin { config }
    }
}

impl CouchMultiplayerPlugin {
    /// A lobby with `max_players` slots and default behaviour: press Start to
    /// join, hold Select to leave, slots held forever through disconnects.
    pub fn new(max_players: u8) -> (r: CouchMultiplayerPlugin)
        ensures
            r.config == (CouchConfig {
                max_players: if max_players == 0 {
                    1
                } else {
                    max_players
                },
                ..CouchConfig::standard()
            }),
    {
        CouchMultiplayerPlugin { config: CouchConfig::default().with_max_players(max_players) }
    }

    /// Start from a fully specified config.
    pub fn from_config(config: CouchConfig) -> (r: CouchMultiplayerPlugin)
        ensures
            r.config == config,
    {
        CouchMultiplayerPlugin { config }
    }

    /// Slot count, clamped to at least 1.
    pub fn with_max_players(self, max: u8) -> (r: CouchMultiplayerPlugin)
        ensures
            r.config == (CouchConfig {
                max_players: if max == 0 {
                    1
                } else {
                    max
                },
                ..self.config
            }),
    {
        CouchMultiplayerPlugin { config: self.config.with_max_players(max) }
    }

    /// See [`JoinMode`].
    pub fn with_join_mode(self, mode: JoinMode) -> (r: CouchMultiplayerPlugin)
        ensures
            r.config == (CouchConfig {
                join_mode: mode,
                ..self.config
            }),
    {
        CouchMultiplayerPlugin { config: self.config.with_join_mode(mode) }
    }

    /// See [`LeaveMode`].
    pub fn with_leave_mode(self, mode: LeaveMode) -> (r: CouchMultiplayerPlugin)
        ensures
            r.config == (CouchConfig {
                leave_mode: mode,
                ..self.config
            }),
    {
        CouchMultiplayerPlugin { config: self.config.with_leave_mode(mode) }
    }

    /// Shorthand for [`LeaveMode::HoldButton`].
    pub fn with_hold_to_leave(self, button: GamepadButton, secs: Single) -> (r: CouchMultiplayerPlugin)
        ensures
            r.config == (CouchConfig {
                leave_mode: LeaveMode::HoldButton {
                    button,
                    secs: secs.larger(Single { bits: scalar::ZERO }),
                },
                ..self.config
            }),
    {
        CouchMultiplayerPlugin { config: self.config.with_hold_to_leave(button, secs) }
    }

    /// See [`ReconnectPolicy`].
    pub fn with_reconnect(self, policy: ReconnectPolicy) -> (r: CouchMultiplayerPlugin)
        ensures
            r.config == (CouchConfig {
                reconnect: policy,
                ..self.config
            }),
    {
        CouchMultiplayerPlugin { config: self.config.with_reconnect(policy) }
    }

    /// Radial stick deadzone, clamped to 0..0.95.
    pub fn with_stick_deadzone(self, deadzone: Single) -> (r: CouchMultiplayerPlugin)
        ensures
            r.config == (CouchConfig {
                stick_deadzone: deadzone.clamped(
                    Single { bits: scalar::ZERO },
                    Single { bits: config::LARGEST_DEADZONE },
                ),
                ..self.config
            }),
    {
        CouchMultiplayerPlugin { config: self.config.with_stick_deadzone(deadzone) }
    }

    /// Below this, a trigger reads as 0.0; clamped to 0..0.95.
    pub fn with_trigger_deadzone(self, deadzone: Single) -> (r: CouchMultiplayerPlugin)
        ensures
            r.config == (CouchConfig {
                trigger_deadzone: deadzone.clamped(
                    Single { bits: scalar::ZERO },
                    Single { bits: config::LARGEST_DEADZONE },
                ),
                ..self.config
            }),
    {
        CouchMultiplayerPlugin { config: self.config.with_trigger_deadzone(deadzone) }
    }

    /// Master rumble multiplier, clamped to 0..1.
    pub fn with_rumble_scale(self, scale: Single) -> (r: CouchMultiplayerPlugin)
        ensures
            r.config == (CouchConfig {
                rumble_scale: scale.clamped(
                    Single { bits: scalar::ZERO },
                    Single { bits: scalar::ONE },
                ),
                ..self.config
            }),
    {
        CouchMultiplayerPlugin { config: self.config.with_rumble_scale(scale) }
    }

    /// Concurrent rumble effects kept per player.
    pub fn with_max_rumble_tracks(self, max: usize) -> (r: CouchMultiplayerPlugin)
        ensures
            r.config == (CouchConfig {
                max_rumble_tracks: max,
                ..self.config
            }),
    {
        CouchMultiplayerPlugin { config: self.config.with_max_rumble_tracks(max) }
    }

    /// Start with rumble off. Players can turn it back on in the settings.
    pub fn without_rumble(self) -> (r: CouchMultiplayerPlugin)
        ensures
            r.config == (CouchConfig {
                rumble_enabled: false,
                ..self.config
            }),
    {
        CouchMultiplayerPlugin { config: self.config.without_rumble() }
    }

    /// Whether players who leave will be back at once: a controller that joins
    /// on its own re-joins the instant it leaves, so a hold to leave will look
    /// like it does nothing. Worth a warning.
    pub fn rejoins_at_once(&self) -> (r: bool)
        ensures
            r == (self.config.join_mode is Automatic && self.config.leave_mode is HoldButton),
    {
        matches!(self.config.join_mode, JoinMode::Automatic)
            && matches!(self.config.leave_mode, LeaveMode::HoldButton { .. })
    }
}

} // verus!
