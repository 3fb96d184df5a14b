//! Gamepad buttons and the state they are in.

use bevy_input::ButtonInput;
use vstd::prelude::*;

verus! {

/// A gamepad button, named by its position on the pad.
#[derive(Debug, Clone, Copy, PartialEq, Eq, Hash, Structural)]
pub enum GamepadButton {
    /// The bottom action button.
    South,
    /// The right action button.
    East,
    /// The upper action button.
    North,
    /// The left action button.
    West,
    /// The C button.
    C,
    /// The Z button.
    Z,
    /// The left bumper.
    LeftTrigger,
    /// The left analog trigger.
    LeftTrigger2,
    /// The right bumper.
    RightTrigger,
    /// The right analog trigger.
    RightTrigger2,
    /// The select button.
    Select,
    /// The start button.
    Start,
    /// The guide button.
    Mode,
    /// The left stick, pressed.
    LeftThumb,
    /// The right stick, pressed.
    RightThumb,
    /// Up on the d-pad.
    DPadUp,
    /// Down on the d-pad.
    DPadDown,
    /// Left on the d-pad.
    DPadLeft,
    /// Right on the d-pad.
    DPadRight,
    /// A vendor-specific extra.
    Other(u8),
}

/// Every standard button, used to diff a gamepad's state each frame.
///
/// `GamepadButton::Other(_)` is deliberately absent: vendor-specific extras
/// aren't portable enough to build couch co-op on.
pub const ALL_BUTTONS: [GamepadButton; 19] = [
    GamepadButton::South,
    GamepadButton::East,
    GamepadButton::North,
    GamepadButton::West,
    GamepadButton::C,
    GamepadButton::Z,
    GamepadButton::LeftTrigger,
    GamepadButton::LeftTrigger2,
    GamepadButton::RightTrigger,
    GamepadButton::RightTrigger2,
    GamepadButton::Select,
    GamepadButton::Start,
    GamepadButton::Mode,
    GamepadButton::LeftThumb,
    GamepadButton::RightThumb,
    GamepadButton::DPadUp,
    GamepadButton::DPadDown,
    GamepadButton::DPadLeft,
    GamepadButton::DPadRight,
];

/// Buttons that count for "press any button to join".
///
/// Three deliberate omissions:
///
/// - `LeftTrigger2` / `RightTrigger2`, the analog triggers: worn ones rest
///   slightly depressed and would auto-join a pad nobody touched. The bumpers
///   (`LeftTrigger` / `RightTrigger`) are digital and are in the list.
/// - `Select`, which is the default *leave* button.
/// - `Mode`, the guide/home button, which platform overlays claim.
pub const JOIN_BUTTONS: [GamepadButton; 15] = [
    GamepadButton::South,
    GamepadButton::East,
    GamepadButton::North,
    GamepadButton::West,
    GamepadButton::C,
    GamepadButton::Z,
    GamepadButton::LeftTrigger,
    GamepadButton::RightTrigger,
    GamepadButton::Start,
    GamepadButton::LeftThumb,
    GamepadButton::RightThumb,
    GamepadButton::DPadUp,
    GamepadButton::DPadDown,
    GamepadButton::DPadLeft,
    GamepadButton::DPadRight,
];

impl GamepadButton {
    /// One of the buttons that every pad may have.
    pub open spec fn standard(self) -> bool {
        !(self is Other)
    }

    /// Counts for "press any button to join".
    pub open spec fn joins(self) -> bool {
        &&& self.standard()
        &&& self != GamepadButton::LeftTrigger2
        &&& self != GamepadButton::RightTrigger2
        &&& self != GamepadButton::Select
        &&& self != GamepadButton::Mode
    }

    /// The number under which a [`ButtonInput`] keeps this button.
    pub open spec fn number(self) -> u16 {
        match self {
            GamepadButton::South => 0,
            GamepadButton::East => 1,
            GamepadButton::North => 2,
            GamepadButton::West => 3,
            GamepadButton::C => 4,
            GamepadButton::Z => 5,
            GamepadButton::LeftTrigger => 6,
            GamepadButton::LeftTrigger2 => 7,
            GamepadButton::RightTrigger => 8,
            GamepadButton::RightTrigger2 => 9,
            GamepadButton::Select => 10,
            GamepadButton::Start => 11,
            GamepadButton::Mode => 12,
            GamepadButton::LeftThumb => 13,
            GamepadButton::RightThumb => 14,
            GamepadButton::DPadUp => 15,
            GamepadButton::DPadDown => 16,
            GamepadButton::DPadLeft => 17,
            GamepadButton::DPadRight => 18,
            GamepadButton::Other(extra) => (0x100 + extra) as u16,
        }
    }

    /// The number under which a [`ButtonInput`] keeps this button.
    pub fn code(self) -> (r: u16)
        ensures
            r == self.number(),
    {
        match self {
            GamepadButton::South => 0,
            GamepadButton::East => 1,
            GamepadButton::North => 2,
            GamepadButton::West => 3,
            GamepadButton::C => 4,
            GamepadButton::Z => 5,
            GamepadButton::LeftTrigger => 6,
            GamepadButton::LeftTrigger2 => 7,
            GamepadButton::RightTrigger => 8,
            GamepadButton::RightTrigger2 => 9,
            GamepadButton::Select => 10,
            GamepadButton::Start => 11,
            GamepadButton::Mode => 12,
            GamepadButton::LeftThumb => 13,
            GamepadButton::RightThumb => 14,
            GamepadButton::DPadUp => 15,
            GamepadButton::DPadDown => 16,
            GamepadButton::DPadLeft => 17,
            GamepadButton::DPadRight => 18,
            GamepadButton::Other(extra) => 0x100 + extra as u16,
        }
    }
}

/// Whether `button` is in `list`.
pub(crate) fn contains(list: &[GamepadButton], button: GamepadButton) -> (r: bool)
    ensures
        r == list@.contains(button),
{
    let mut i: usize = 0;
    while i < list.len()
        invariant
            i <= list.len(),
            forall|k: int| 0 <= k < i ==> list@[k] != button,
        decreases list.len() - i,
    {
        if list[i] == button {
            return true;
        }
        i += 1;
    }
    false
}

/// Two buttons never share a number.
pub proof fn law_numbers_are_distinct(a: GamepadButton, b: GamepadButton)
    ensures
        a.number() == b.number() ==> a == b,
{
}

/// [`ALL_BUTTONS`] holds the standard buttons and no other.
pub proof fn law_all_buttons_are_the_standard_ones(button: GamepadButton)
    ensures
        ALL_BUTTONS@.contains(button) <==> button.standard(),
{
    let list = ALL_BUTTONS@;
    assert(list == seq![
        GamepadButton::South,
        GamepadButton::East,
        GamepadButton::North,
        GamepadButton::West,
        GamepadButton::C,
        GamepadButton::Z,
        GamepadButton::LeftTrigger,
        GamepadButton::LeftTrigger2,
        GamepadButton::RightTrigger,
        GamepadButton::RightTrigger2,
        GamepadButton::Select,
        GamepadButton::Start,
        GamepadButton::Mode,
        GamepadButton::LeftThumb,
        GamepadButton::RightThumb,
        GamepadButton::DPadUp,
        GamepadButton::DPadDown,
        GamepadButton::DPadLeft,
        GamepadButton::DPadRight,
    ]);
    if button.standard() {
        assert(list[button.number() as int] == button);
    }
}

/// [`JOIN_BUTTONS`] holds the standard buttons but for the analog triggers,
/// `Select` and `Mode`.
pub proof fn law_join_buttons_omit_triggers_select_and_mode(button: GamepadButton)
    ensures
        JOIN_BUTTONS@.contains(button) <==> button.joins(),
{
    let list = JOIN_BUTTONS@;
    assert(list == seq![
        GamepadButton::South,
        GamepadButton::East,
        GamepadButton::North,
        GamepadButton::West,
        GamepadButton::C,
        GamepadButton::Z,
        GamepadButton::LeftTrigger,
        GamepadButton::RightTrigger,
        GamepadButton::Start,
        GamepadButton::LeftThumb,
        GamepadButton::RightThumb,
        GamepadButton::DPadUp,
        GamepadButton::DPadDown,
        GamepadButton::DPadLeft,
        GamepadButton::DPadRight,
    ]);
    if button.joins() {
        let n = button.number() as int;
        let k = if n <= 6 {
            n
        } else if n == 8 {
            7
        } else if n == 11 {
            8
        } else {
            n - 4
        };
        assert(list[k] == button);
    }
}

/// [`bevy_input::ButtonInput`]: which buttons are down, and which went down or
/// came up this frame.
#[verifier::external_type_specification]
#[verifier::external_body]
#[verifier::reject_recursive_types(T)]
pub struct ExButtonInput<T: Clone + Eq + core::hash::Hash + Send + Sync + 'static>(
    bevy_input::ButtonInput<T>,
);

/// The buttons that a [`ButtonInput`] has down.
pub uninterp spec fn held(buttons: ButtonInput<u16>) -> Set<u16>;

/// The buttons that a [`ButtonInput`] saw going down since it was cleared.
pub uninterp spec fn fresh(buttons: ButtonInput<u16>) -> Set<u16>;

/// The buttons that a [`ButtonInput`] saw coming up since it was cleared.
pub uninterp spec fn lifted(buttons: ButtonInput<u16>) -> Set<u16>;

/// `ButtonInput::default`: no button is down, and none has just moved.
#[verifier::external_body]
pub(crate) fn no_buttons() -> (r: ButtonInput<u16>)
    ensures
        held(r) == Set::<u16>::empty(),
        fresh(r) == Set::<u16>::empty(),
        lifted(r) == Set::<u16>::empty(),
{
    ButtonInput::default()
}

/// `ButtonInput::clone`: the same buttons are down and have just moved.
#[verifier::external_body]
pub(crate) fn copied(buttons: &ButtonInput<u16>) -> (r: ButtonInput<u16>)
    ensures
        held(r) == held(*buttons),
        fresh(r) == fresh(*buttons),
        lifted(r) == lifted(*buttons),
{
    buttons.clone()
}

/// `ButtonInput::pressed`: whether the button is down.
#[verifier::external_body]
pub(crate) fn is_held(buttons: &ButtonInput<u16>, code: u16) -> (r: bool)
    ensures
        r == held(*buttons).contains(code),
{
    buttons.pressed(code)
}

/// `ButtonInput::just_pressed`: whether the button went down since the last
/// `clear`.
#[verifier::external_body]
pub(crate) fn is_fresh(buttons: &ButtonInput<u16>, code: u16) -> (r: bool)
    ensures
        r == fresh(*buttons).contains(code),
{
    buttons.just_pressed(code)
}

/// `ButtonInput::just_released`: whether the button came up since the last
/// `clear`.
#[verifier::external_body]
pub(crate) fn is_lifted(buttons: &ButtonInput<u16>, code: u16) -> (r: bool)
    ensures
        r == lifted(*buttons).contains(code),
{
    buttons.just_released(code)
}

/// `ButtonInput::get_pressed`: every button that is down, once each, in an
/// order that is left open.
#[verifier::external_body]
pub(crate) fn held_codes(buttons: &ButtonInput<u16>) -> (r: Vec<u16>)
    ensures
        r@.no_duplicates(),
        forall|code: u16| #[trigger] r@.contains(code) <==> held(*buttons).contains(code),
{
    buttons.get_pressed().copied().collect()
}

/// `ButtonInput::press`: the button is down; it has just gone down unless it
/// was down before.
#[verifier::external_body]
pub(crate) fn press(buttons: &mut ButtonInput<u16>, code: u16)
    ensures
        held(*final(buttons)) == held(*old(buttons)).insert(code),
        fresh(*final(buttons)) == (if held(*old(buttons)).contains(code) {
            fresh(*old(buttons))
        } else {
            fresh(*old(buttons)).insert(code)
        }),
        lifted(*final(buttons)) == lifted(*old(buttons)),
{
    buttons.press(code)
}

/// `ButtonInput::release`: the button is up; it has just come up if it was
/// down before.
#[verifier::external_body]
pub(crate) fn release(buttons: &mut ButtonInput<u16>, code: u16)
    ensures
        held(*final(buttons)) == held(*old(buttons)).remove(code),
        fresh(*final(buttons)) == fresh(*old(buttons)),
        lifted(*final(buttons)) == (if held(*old(buttons)).contains(code) {
            lifted(*old(buttons)).insert(code)
        } else {
            lifted(*old(buttons))
        }),
{
    buttons.release(code)
}

/// `ButtonInput::release_all`: every button is up, and those that were down
/// have just come up.
#[verifier::external_body]
pub(crate) fn release_all(buttons: &mut ButtonInput<u16>)
    ensures
        held(*final(buttons)) == Set::<u16>::empty(),
        fresh(*final(buttons)) == fresh(*old(buttons)),
        lifted(*final(buttons)) == lifted(*old(buttons)).union(held(*old(buttons))),
{
    buttons.release_all()
}

/// `ButtonInput::clear`: no button has just moved; those that are down stay
/// down.
#[verifier::external_body]
pub(crate) fn clear(buttons: &mut ButtonInput<u16>)
    ensures
        held(*final(buttons)) == held(*old(buttons)),
        fresh(*final(buttons)) == Set::<u16>::empty(),
        lifted(*final(buttons)) == Set::<u16>::empty(),
{
    buttons.clear()
}

} // verus!
