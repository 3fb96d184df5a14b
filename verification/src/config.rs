//! Settings.

use crate::buttons::GamepadButton;
use crate::scalar;
use crate::scalar::Single;
use vstd::prelude::*;

verus! {

/// How an unassigned gamepad becomes a player.
#[derive(Debug, Clone, PartialEq, Eq)]
pub enum JoinMode {
    /// Any gamepad that connects is immediately given the lowest free slot.
    ///
    /// Good for games that start straight into gameplay.
    Automatic,
    /// A gamepad joins when the given trigger fires on it.
    ///
    /// This is what most couch co-op games want: a controller can be plugged
    /// in and sit idle until its owner actually presses something.
    PressToJoin(JoinTrigger),
    /// Nothing joins on its own. Drive it yourself with
    /// [`PlayerRoster::request_join`](crate::roster::PlayerRoster::request_join).
    Manual,
}

impl Default for JoinMode {
    fn default() -> (r: JoinMode)
        ensures
            r == JoinMode::PressToJoin(JoinTrigger::Button(GamepadButton::Start)),
    {
        JoinMode::PressToJoin(JoinTrigger::default())
    }
}

/// Which button press counts as "I want in".
#[derive(Debug, Clone, PartialEq, Eq)]
pub enum JoinTrigger {
    /// Any face/shoulder/d-pad button: see
    /// [`JOIN_BUTTONS`](crate::buttons::JOIN_BUTTONS). Triggers are excluded,
    /// since resting triggers on worn pads report spurious presses.
    AnyButton,
    /// One specific button.
    Button(GamepadButton),
    /// Any of several buttons, for "press Start or A to join" prompts.
    AnyOf(Vec<GamepadButton>),
}

impl Default for JoinTrigger {
    fn default() -> (r: JoinTrigger)
        ensures
            r == JoinTrigger::Button(GamepadButton::Start),
    {
        JoinTrigger::Button(GamepadButton::Start)
    }
}

/// How a player drops out.
#[derive(Debug, Clone, PartialEq)]
pub enum LeaveMode {
    /// Players never leave on their own; call
    /// [`PlayerRoster::request_leave`](crate::roster::PlayerRoster::request_leave).
    Manual,
    /// Hold a button for `secs` to drop out. A hold (rather than a tap) avoids
    /// someone rage-quitting the party by fat-fingering Select.
    HoldButton {
        /// Button to hold.
        button: GamepadButton,
        /// How long it must be held. Clamped to at least 0.
        secs: Single,
    },
}

/// `1.5` as a [`Single`].
pub const DEFAULT_HOLD_SECS: u32 = 0x3fc0_0000;

/// `0.12` as a [`Single`].
pub const DEFAULT_STICK_DEADZONE: u32 = 0x3df5_c28f;

/// `0.05` as a [`Single`].
pub const DEFAULT_TRIGGER_DEADZONE: u32 = 0x3d4c_cccd;

/// `0.95` as a [`Single`].
pub const LARGEST_DEADZONE: u32 = 0x3f73_3333;

impl Default for LeaveMode {
    fn default() -> (r: LeaveMode)
        ensures
            r == (LeaveMode::HoldButton {
                button: GamepadButton::Select,
                secs: Single { bits: DEFAULT_HOLD_SECS },
            }),
    {
        LeaveMode::HoldButton {
            button: GamepadButton::Select,
            secs: Single { bits: DEFAULT_HOLD_SECS },
        }
    }
}

/// What happens when a gamepad drops off mid-game.
#[derive(Debug, Clone, PartialEq)]
pub struct ReconnectPolicy {
    /// Keep the player's slot (and their player entity) reserved this long
    /// after a disconnect. `None` reserves it forever.
    pub grace_secs: Option<Single>,
    /// Automatically hand a controller back to the slot whose old device had
    /// the same vendor/product id or name. Costs the player nothing: they
    /// plug back in and they're playing again.
    pub match_device: bool,
    /// Let a *different* controller take over the longest-waiting slot when
    /// it joins, instead of opening a fresh one beside it.
    ///
    /// This is what makes "my battery died, pass me the spare pad" work: the
    /// borrowed controller presses to join and restores P2, score and all.
    /// The trade-off is that a genuinely new player who joins while someone
    /// is disconnected inherits that slot rather than getting their own. Turn
    /// it off if a returning player should only be restored by their original
    /// hardware.
    pub adopt_any: bool,
}

impl ReconnectPolicy {
    /// Slots are held forever, matching hardware and borrowed pads restore
    /// them.
    pub open spec fn lenient() -> ReconnectPolicy {
        ReconnectPolicy { grace_secs: None, match_device: true, adopt_any: true }
    }

    /// Hold slots forever, restore by matching hardware, allow borrowed pads.
    /// Same as [`Default`], spelled out for readability at a call site.
    pub fn forgiving() -> (r: ReconnectPolicy)
        ensures
            r == ReconnectPolicy::lenient(),
    {
        ReconnectPolicy::default()
    }

    /// Drop a player `secs` after their controller goes away, and only ever
    /// restore them on their original hardware.
    pub fn strict(secs: Single) -> (r: ReconnectPolicy)
        ensures
            r == (ReconnectPolicy {
                grace_secs: Some(secs.larger(Single { bits: scalar::ZERO })),
                match_device: true,
                adopt_any: false,
            }),
    {
        ReconnectPolicy {
            grace_secs: Some(secs.max(Single { bits: scalar::ZERO })),
            match_device: true,
            adopt_any: false,
        }
    }
}

impl Default for ReconnectPolicy {
    fn default() -> (r: ReconnectPolicy)
        ensures
            r == ReconnectPolicy::lenient(),
    {
        ReconnectPolicy { grace_secs: None, match_device: true, adopt_any: true }
    }
}

/// Library-wide settings.
///
/// Every field can be changed at runtime: an options menu can flip
/// [`rumble_enabled`](Self::rumble_enabled), drag
/// [`rumble_scale`](Self::rumble_scale), or grow
/// [`max_players`](Self::max_players) mid-session.
#[derive(Debug, Clone, PartialEq)]
pub struct CouchConfig {
    /// Number of slots. Slots are stable: player 2 stays player 2.
    ///
    /// Raising this at runtime opens new slots immediately. Lowering it only
    /// removes empty trailing slots: nobody is kicked mid-game.
    pub max_players: u8,
    /// How an unassigned gamepad becomes a player.
    pub join_mode: JoinMode,
    /// How a player gives up their slot.
    pub leave_mode: LeaveMode,
    /// What happens when a controller drops mid-game.
    pub reconnect: ReconnectPolicy,
    /// Radial deadzone of the sticks. Per-axis deadzones make diagonals feel
    /// wrong; this fixes that.
    pub stick_deadzone: Single,
    /// Below this, a trigger reads as 0.0.
    pub trigger_deadzone: Single,
    /// Master rumble switch, for accessibility settings.
    pub rumble_enabled: bool,
    /// Multiplied into every rumble. Expose this as a 0-1 slider.
    pub rumble_scale: Single,
    /// Concurrent rumble effects kept per player. Extra effects evict the
    /// lowest-priority track.
    pub max_rumble_tracks: usize,
}

impl Default for CouchConfig {
    fn default() -> (r: CouchConfig)
        ensures
            r == CouchConfig::standard(),
    {
        CouchConfig {
            max_players: 4,
            join_mode: JoinMode::default(),
            leave_mode: LeaveMode::default(),
            reconnect: ReconnectPolicy::default(),
            stick_deadzone: Single { bits: DEFAULT_STICK_DEADZONE },
            trigger_deadzone: Single { bits: DEFAULT_TRIGGER_DEADZONE },
            rumble_enabled: true,
            rumble_scale: Single { bits: scalar::ONE },
            max_rumble_tracks: 8,
        }
    }
}

impl CouchConfig {
    /// Four slots, press Start to join, hold Select to leave, slots held
    /// forever through disconnects.
    pub open spec fn standard() -> CouchConfig {
        CouchConfig {
            max_players: 4,
            join_mode: JoinMode::PressToJoin(JoinTrigger::Button(GamepadButton::Start)),
            leave_mode: LeaveMode::HoldButton {
                button: GamepadButton::Select,
                secs: Single { bits: DEFAULT_HOLD_SECS },
            },
            reconnect: ReconnectPolicy::lenient(),
            stick_deadzone: Single { bits: DEFAULT_STICK_DEADZONE },
            trigger_deadzone: Single { bits: DEFAULT_TRIGGER_DEADZONE },
            rumble_enabled: true,
            rumble_scale: Single { bits: scalar::ONE },
            max_rumble_tracks: 8,
        }
    }

    /// How long the leave button has to be held; 0 where no hold leaves.
    pub open spec fn hold_secs(self) -> Single {
        match self.leave_mode {
            LeaveMode::HoldButton { secs, .. } => secs.larger(Single { bits: scalar::ZERO }),
            LeaveMode::Manual => Single { bits: scalar::ZERO },
        }
    }

    /// Slot count, clamped to at least 1.
    pub fn with_max_players(self, max: u8) -> (r: CouchConfig)
        ensures
            r == (CouchConfig {
                max_players: if max == 0 {
                    1
                } else {
                    max
                },
                ..self
            }),
    {
        let max_players: u8 = if max == 0 {
            1
        } else {
            max
        };
        CouchConfig { max_players, ..self }
    }

    /// See [`JoinMode`].
    pub fn with_join_mode(self, mode: JoinMode) -> (r: CouchConfig)
        ensures
            r == (CouchConfig { join_mode: mode, ..self }),
    {
        CouchConfig { join_mode: mode, ..self }
    }

    /// See [`LeaveMode`].
    pub fn with_leave_mode(self, mode: LeaveMode) -> (r: CouchConfig)
        ensures
            r == (CouchConfig { leave_mode: mode, ..self }),
    {
        CouchConfig { leave_mode: mode, ..self }
    }

    /// Shorthand for [`LeaveMode::HoldButton`].
    pub fn with_hold_to_leave(self, button: GamepadButton, secs: Single) -> (r: CouchConfig)
        ensures
            r == (CouchConfig {
                leave_mode: LeaveMode::HoldButton {
                    button,
                    secs: secs.larger(Single { bits: scalar::ZERO }),
                },
                ..self
            }),
    {
        let secs = secs.max(Single { bits: scalar::ZERO });
        self.with_leave_mode(LeaveMode::HoldButton { button, secs })
    }

    /// See [`ReconnectPolicy`].
    pub fn with_reconnect(self, policy: ReconnectPolicy) -> (r: CouchConfig)
        ensures
            r == (CouchConfig { reconnect: policy, ..self }),
    {
        CouchConfig { reconnect: policy, ..self }
    }

    /// Radial stick deadzone, clamped to 0..0.95.
    pub fn with_stick_deadzone(self, deadzone: Single) -> (r: CouchConfig)
        ensures
            r == (CouchConfig {
                stick_deadzone: deadzone.clamped(
                    Single { bits: scalar::ZERO },
                    Single { bits: LARGEST_DEADZONE },
                ),
                ..self
            }),
    {
        let stick_deadzone = deadzone.clamp(
            Single { bits: scalar::ZERO },
            Single { bits: LARGEST_DEADZONE },
        );
        CouchConfig { stick_deadzone, ..self }
    }

    /// Analog trigger deadzone, clamped to 0..0.95.
    pub fn with_trigger_deadzone(self, deadzone: Single) -> (r: CouchConfig)
        ensures
            r == (CouchConfig {
                trigger_deadzone: deadzone.clamped(
                    Single { bits: scalar::ZERO },
                    Single { bits: LARGEST_DEADZONE },
                ),
                ..self
            }),
    {
        let trigger_deadzone = deadzone.clamp(
            Single { bits: scalar::ZERO },
            Single { bits: LARGEST_DEADZONE },
        );
        CouchConfig { trigger_deadzone, ..self }
    }

    /// Master rumble multiplier, clamped to 0..1.
    pub fn with_rumble_scale(self, scale: Single) -> (r: CouchConfig)
        ensures
            r == (CouchConfig {
                rumble_scale: scale.clamped(
                    Single { bits: scalar::ZERO },
                    Single { bits: scalar::ONE },
                ),
                ..self
            }),
    {
        let rumble_scale = scale.clamp(
            Single { bits: scalar::ZERO },
            Single { bits: scalar::ONE },
        );
        CouchConfig { rumble_scale, ..self }
    }

    /// Concurrent rumble effects per player.
    pub fn with_max_rumble_tracks(self, max: usize) -> (r: CouchConfig)
        ensures
            r == (CouchConfig { max_rumble_tracks: max, ..self }),
    {
        CouchConfig { max_rumble_tracks: max, ..self }
    }

    /// Start with rumble off. Players can turn it back on in the settings.
    pub fn without_rumble(self) -> (r: CouchConfig)
        ensures
            r == (CouchConfig { rumble_enabled: false, ..self }),
    {
        CouchConfig { rumble_enabled: false, ..self }
    }

    /// How long a leave hold must be held, or 0 when leaving isn't on a hold.
    pub fn leave_hold_secs(&self) -> (r: Single)
        ensures
            r == self.hold_secs(),
    {
        match &self.leave_mode {
            LeaveMode::HoldButton { secs, .. } => secs.max(Single { bits: scalar::ZERO }),
            LeaveMode::Manual => Single { bits: scalar::ZERO },
        }
    }
}

} // verus!
