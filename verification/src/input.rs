//! A player's input, deadzoned and attributed to their slot.

use crate::arithmetic;
use crate::arithmetic::Arithmetic;
use crate::buttons;
use crate::buttons::{GamepadButton, ALL_BUTTONS};
use crate::config::CouchConfig;
use crate::gamepad;
use crate::gamepad::Gamepad;
use crate::player::PlayerDevice;
use crate::scalar;
use crate::scalar::Single;
use bevy_input::ButtonInput;
use vstd::prelude::*;

verus! {

/// `-1.0` as a [`Single`].
pub const MINUS_ONE: u32 = 0xbf80_0000;

/// How many standard buttons there are; their numbers are below it.
pub const STANDARD_BUTTONS: u16 = 19;

/// A direction in the plane.
#[derive(Debug, Clone, Copy, PartialEq)]
pub struct Vec2 {
    /// To the right.
    pub x: Single,
    /// Upwards.
    pub y: Single,
}

impl Vec2 {
    /// No direction.
    pub open spec fn origin() -> Vec2 {
        Vec2 { x: Single { bits: scalar::ZERO }, y: Single { bits: scalar::ZERO } }
    }

    /// Both components are 0, whatever their sign.
    pub open spec fn at_rest(self) -> bool {
        self.x.same(Single { bits: scalar::ZERO }) && self.y.same(Single { bits: scalar::ZERO })
    }

    /// A vector from its components.
    pub fn new(x: Single, y: Single) -> (r: Vec2)
        ensures
            r == (Vec2 { x, y }),
    {
        Vec2 { x, y }
    }

    /// No direction.
    pub fn zero() -> (r: Vec2)
        ensures
            r == Vec2::origin(),
    {
        Vec2 { x: Single { bits: scalar::ZERO }, y: Single { bits: scalar::ZERO } }
    }

    /// Whether both components are 0.
    pub fn is_zero(self) -> (r: bool)
        ensures
            r == self.at_rest(),
    {
        self.x.equals(Single { bits: scalar::ZERO }) && self.y.equals(
            Single { bits: scalar::ZERO },
        )
    }
}

/// A player's input for this frame, already deadzoned and slot-attributed.
///
/// Read it off the player; you never touch gamepads yourself.
#[derive(Debug)]
pub struct PlayerInput {
    /// False while this player's controller is missing. Everything below is
    /// zeroed in that case, so a disconnect can't leave a player sprinting.
    pub connected: bool,
    /// Digital button state, by the buttons' codes.
    pub buttons: ButtonInput<u16>,
    /// Left stick after radial deadzone, rescaled to 0..1.
    pub left_stick: Vec2,
    /// Right stick after radial deadzone, rescaled to 0..1.
    pub right_stick: Vec2,
    /// D-pad as a unit vector, so it can stand in for the stick.
    pub dpad: Vec2,
    /// Analog left trigger, deadzoned to 0..1.
    pub left_trigger: Single,
    /// Analog right trigger, deadzoned to 0..1.
    pub right_trigger: Single,
    /// The controller was lost in this frame: what has just moved has moved in
    /// this frame already, and is there for game code to see.
    pub just_lost: bool,
}

/// `r` is how far `value` is into what lies beyond the deadzone: 0 at its
/// edge, 1 at its end and past it.
pub open spec fn rescaled<M: Arithmetic>(
    math: &M,
    value: Single,
    deadzone: Single,
    r: Single,
) -> bool {
    exists|past: Single, all: Single, share: Single|
        #[trigger] arithmetic::difference(math, value, deadzone, past)
            && #[trigger] arithmetic::difference(math, Single { bits: scalar::ONE }, deadzone, all)
            && #[trigger] arithmetic::quotient(math, past, all, share) && r == share.clamped(
            Single { bits: scalar::ZERO },
            Single { bits: scalar::ONE },
        )
}

/// `r` is `value` over `length`, times `share`.
pub open spec fn resized<M: Arithmetic>(
    math: &M,
    value: Single,
    length: Single,
    share: Single,
    r: Single,
) -> bool {
    exists|unit: Single| #[trigger]
        arithmetic::quotient(math, value, length, unit) && arithmetic::product(
            math,
            unit,
            share,
            r,
        )
}

/// The stick is not out of the deadzone: its length is nonsense (infinite, or
/// not a number), or is within it.
pub open spec fn resting(length: Single, deadzone: Single) -> bool {
    !length.finite() || length.within(deadzone)
}

/// `r` is `v` without its circular deadzone: zero where the deadzone takes all
/// of it, otherwise in the direction of `v`, as long as `v` is far out.
pub open spec fn deadzoned<M: Arithmetic>(math: &M, v: Vec2, deadzone: Single, r: Vec2) -> bool {
    if (Single { bits: scalar::ONE }).within(deadzone) {
        r == Vec2::origin()
    } else {
        exists|length: Single| #[trigger]
            arithmetic::norm(math, v.x, v.y, length) && if resting(length, deadzone) {
                r == Vec2::origin()
            } else {
                exists|share: Single| #[trigger]
                    rescaled(math, length, deadzone, share) && resized(
                        math,
                        v.x,
                        length,
                        share,
                        r.x,
                    ) && resized(math, v.y, length, share, r.y)
            }
    }
}

/// `r` is how far a trigger counts as pulled.
pub open spec fn pulled<M: Arithmetic>(
    math: &M,
    raw: Option<Single>,
    deadzone: Single,
    r: Single,
) -> bool {
    let raw = reading(raw);
    if raw.within(deadzone) {
        r == (Single { bits: scalar::ZERO })
    } else {
        rescaled(math, raw, deadzone, r)
    }
}

/// An axis, 0 where it was never moved.
pub open spec fn reading(axis: Option<Single>) -> Single {
    match axis {
        Some(value) => value,
        None => Single { bits: scalar::ZERO },
    }
}

/// Which way two opposite buttons point together.
pub open spec fn balance(forward: bool, back: bool) -> Single {
    if forward == back {
        Single { bits: scalar::ZERO }
    } else if forward {
        Single { bits: scalar::ONE }
    } else {
        Single { bits: MINUS_ONE }
    }
}

/// The number belongs to a standard button that is down.
pub open spec fn number_down(pad: Gamepad, code: u16) -> bool {
    exists|button: GamepadButton| #[trigger]
        pad.down(button) && button.standard() && button.number() == code
}

/// `after` is what `before` becomes when the standard buttons numbered below
/// `n` follow the pad: those are down that are down on it, each that changed
/// has just moved, and the others are as they were.
pub open spec fn followed(
    pad: Gamepad,
    n: int,
    before: ButtonInput<u16>,
    after: ButtonInput<u16>,
) -> bool {
    &&& forall|code: u16| #[trigger]
        buttons::held(after).contains(code) <==> if code < n {
            number_down(pad, code)
        } else {
            buttons::held(before).contains(code)
        }
    &&& forall|code: u16| #[trigger]
        buttons::fresh(after).contains(code) <==> buttons::fresh(before).contains(code) || (code < n
            && number_down(pad, code) && !buttons::held(before).contains(code))
    &&& forall|code: u16| #[trigger]
        buttons::lifted(after).contains(code) <==> buttons::lifted(before).contains(code) || (code
            < n && !number_down(pad, code) && buttons::held(before).contains(code))
}

impl PlayerInput {
    /// Left stick if it's being used, d-pad otherwise.
    pub open spec fn heading(self) -> Vec2 {
        if self.left_stick.at_rest() {
            self.dpad
        } else {
            self.left_stick
        }
    }

    /// Nothing pushed and nothing held.
    pub open spec fn neutral(self) -> bool {
        &&& self.heading().at_rest()
        &&& self.right_stick.at_rest()
        &&& self.left_trigger.same(Single { bits: scalar::ZERO })
        &&& self.right_trigger.same(Single { bits: scalar::ZERO })
        &&& buttons::held(self.buttons) == Set::<u16>::empty()
    }

    /// A missing controller reads as neutral.
    pub open spec fn wf(self) -> bool {
        !self.connected ==> self.neutral()
    }

    /// `after` is this input a frame later: what just moved has not just moved
    /// anymore.
    pub open spec fn ticked(self, after: PlayerInput) -> bool {
        &&& after == (PlayerInput { buttons: after.buttons, ..self })
        &&& buttons::held(after.buttons) == buttons::held(self.buttons)
        &&& buttons::fresh(after.buttons) == Set::<u16>::empty()
        &&& buttons::lifted(after.buttons) == Set::<u16>::empty()
    }

    /// `after` is this input with the controller gone: zero, and every button
    /// that was down has just come up.
    pub open spec fn neutralized(self, after: PlayerInput) -> bool {
        &&& after == (PlayerInput {
            connected: false,
            buttons: after.buttons,
            left_stick: Vec2::origin(),
            right_stick: Vec2::origin(),
            dpad: Vec2::origin(),
            left_trigger: Single { bits: scalar::ZERO },
            right_trigger: Single { bits: scalar::ZERO },
            just_lost: self.just_lost,
        })
        &&& buttons::held(after.buttons) == Set::<u16>::empty()
        &&& buttons::fresh(after.buttons) == buttons::fresh(self.buttons)
        &&& buttons::lifted(after.buttons) == buttons::lifted(self.buttons).union(
            buttons::held(self.buttons),
        )
    }

    /// `after` is this input a frame later, with the controller lost in that
    /// frame: zero, and what was down has just come up.
    pub open spec fn lost(self, after: PlayerInput) -> bool {
        &&& after == (PlayerInput {
            connected: false,
            buttons: after.buttons,
            left_stick: Vec2::origin(),
            right_stick: Vec2::origin(),
            dpad: Vec2::origin(),
            left_trigger: Single { bits: scalar::ZERO },
            right_trigger: Single { bits: scalar::ZERO },
            just_lost: true,
        })
        &&& buttons::held(after.buttons) == Set::<u16>::empty()
        &&& buttons::fresh(after.buttons) == Set::<u16>::empty()
        &&& buttons::lifted(after.buttons) == buttons::held(self.buttons)
    }

    /// `after` is this input at the start of a refresh: a frame later, unless
    /// it is in this frame already because its controller was lost in it.
    pub open spec fn begun(self, after: PlayerInput) -> bool {
        if self.just_lost {
            after == (PlayerInput { just_lost: false, ..self })
        } else {
            self.ticked(after)
        }
    }

    /// `after` is this input refreshed from `pad`.
    pub open spec fn sampled<M: Arithmetic>(
        self,
        math: &M,
        pad: Gamepad,
        stick_deadzone: Single,
        trigger_deadzone: Single,
        after: PlayerInput,
    ) -> bool {
        &&& after.connected
        &&& after.just_lost == self.just_lost
        &&& followed(pad, STANDARD_BUTTONS as int, self.buttons, after.buttons)
        &&& deadzoned(
            math,
            Vec2 { x: reading(pad.left_stick_x), y: reading(pad.left_stick_y) },
            stick_deadzone,
            after.left_stick,
        )
        &&& deadzoned(
            math,
            Vec2 { x: reading(pad.right_stick_x), y: reading(pad.right_stick_y) },
            stick_deadzone,
            after.right_stick,
        )
        &&& arithmetic::direction(
            math,
            balance(pad.down(GamepadButton::DPadRight), pad.down(GamepadButton::DPadLeft)),
            balance(pad.down(GamepadButton::DPadUp), pad.down(GamepadButton::DPadDown)),
            (after.dpad.x, after.dpad.y),
        )
        &&& pulled(math, pad.left_trigger, trigger_deadzone, after.left_trigger)
        &&& pulled(math, pad.right_trigger, trigger_deadzone, after.right_trigger)
    }

    /// `after` is this input once it is refreshed in a frame, with the hardware
    /// that drives the player then.
    pub open spec fn refreshed<M: Arithmetic>(
        self,
        math: &M,
        pad: Option<Gamepad>,
        stick_deadzone: Single,
        trigger_deadzone: Single,
        after: PlayerInput,
    ) -> bool {
        exists|begun: PlayerInput| #[trigger]
            self.begun(begun) && match pad {
                Some(pad) => begun.sampled(
                    math,
                    pad,
                    stick_deadzone,
                    trigger_deadzone,
                    after,
                ),
                None => if self.connected {
                    begun.neutralized(after)
                } else {
                    after == begun
                },
            }
    }
}

impl Clone for PlayerInput {
    fn clone(&self) -> (r: PlayerInput)
        ensures
            r == (PlayerInput { buttons: r.buttons, ..*self }),
            buttons::held(r.buttons) == buttons::held(self.buttons),
            buttons::fresh(r.buttons) == buttons::fresh(self.buttons),
            buttons::lifted(r.buttons) == buttons::lifted(self.buttons),
    {
        PlayerInput {
            connected: self.connected,
            buttons: buttons::copied(&self.buttons),
            left_stick: self.left_stick,
            right_stick: self.right_stick,
            dpad: self.dpad,
            left_trigger: self.left_trigger,
            right_trigger: self.right_trigger,
            just_lost: self.just_lost,
        }
    }
}

impl Default for PlayerInput {
    fn default() -> (r: PlayerInput)
        ensures
            r == (PlayerInput {
                connected: false,
                buttons: r.buttons,
                left_stick: Vec2::origin(),
                right_stick: Vec2::origin(),
                dpad: Vec2::origin(),
                left_trigger: Single { bits: scalar::ZERO },
                right_trigger: Single { bits: scalar::ZERO },
                just_lost: false,
            }),
            buttons::held(r.buttons) == Set::<u16>::empty(),
            buttons::fresh(r.buttons) == Set::<u16>::empty(),
            buttons::lifted(r.buttons) == Set::<u16>::empty(),
            r.wf(),
    {
        PlayerInput {
            connected: false,
            buttons: buttons::no_buttons(),
            left_stick: Vec2::zero(),
            right_stick: Vec2::zero(),
            dpad: Vec2::zero(),
            left_trigger: Single { bits: scalar::ZERO },
            right_trigger: Single { bits: scalar::ZERO },
            just_lost: false,
        }
    }
}

impl PlayerInput {
    /// Left stick if it's being used, d-pad otherwise. This is what you want
    /// for character movement 95% of the time.
    pub fn movement(&self) -> (r: Vec2)
        ensures
            r == self.heading(),
    {
        if self.left_stick.is_zero() {
            self.dpad
        } else {
            self.left_stick
        }
    }

    /// Right stick, for aiming or a free camera.
    pub fn look(&self) -> (r: Vec2)
        ensures
            r == self.right_stick,
    {
        self.right_stick
    }

    /// Whether a button is held this frame.
    pub fn pressed(&self, button: GamepadButton) -> (r: bool)
        ensures
            r == buttons::held(self.buttons).contains(button.number()),
    {
        buttons::is_held(&self.buttons, button.code())
    }

    /// Whether a button went down this frame.
    pub fn just_pressed(&self, button: GamepadButton) -> (r: bool)
        ensures
            r == buttons::fresh(self.buttons).contains(button.number()),
    {
        buttons::is_fresh(&self.buttons, button.code())
    }

    /// Whether a button came up this frame.
    pub fn just_released(&self, button: GamepadButton) -> (r: bool)
        ensures
            r == buttons::lifted(self.buttons).contains(button.number()),
    {
        buttons::is_lifted(&self.buttons, button.code())
    }

    /// Whether any of `list` is held.
    pub fn any_pressed(&self, list: &[GamepadButton]) -> (r: bool)
        ensures
            r == exists|i: int|
                0 <= i < list@.len() && buttons::held(self.buttons).contains(
                    (#[trigger] list@[i]).number(),
                ),
    {
        let mut i: usize = 0;
        while i < list.len()
            invariant
                i <= list.len(),
                forall|k: int|
                    0 <= k < i ==> !buttons::held(self.buttons).contains(
                        (#[trigger] list@[k]).number(),
                    ),
            decreases list.len() - i,
        {
            if self.pressed(list[i]) {
                assert(buttons::held(self.buttons).contains(list@[i as int].number()));
                return true;
            }
            i += 1;
        }
        false
    }

    /// Whether any of `list` went down this frame.
    pub fn any_just_pressed(&self, list: &[GamepadButton]) -> (r: bool)
        ensures
            r == exists|i: int|
                0 <= i < list@.len() && buttons::fresh(self.buttons).contains(
                    (#[trigger] list@[i]).number(),
                ),
    {
        let mut i: usize = 0;
        while i < list.len()
            invariant
                i <= list.len(),
                forall|k: int|
                    0 <= k < i ==> !buttons::fresh(self.buttons).contains(
                        (#[trigger] list@[k]).number(),
                    ),
            decreases list.len() - i,
        {
            if self.just_pressed(list[i]) {
                assert(buttons::fresh(self.buttons).contains(list@[i as int].number()));
                return true;
            }
            i += 1;
        }
        false
    }

    /// Nothing pushed and nothing held: useful for attract modes and idle
    /// timers. Always true while disconnected.
    pub fn is_neutral(&self) -> (r: bool)
        ensures
            r == (!self.connected || self.neutral()),
    {
        let codes = buttons::held_codes(&self.buttons);
        proof {
            let held = buttons::held(self.buttons);
            if codes@.len() > 0 {
                assert(codes@.contains(codes@[0]));
                assert(held.contains(codes@[0]));
            } else {
                assert forall|code: u16| !held.contains(code) by {
                    assert(!codes@.contains(code));
                }
                assert(held == Set::<u16>::empty());
            }
        }
        !self.connected || (self.movement().is_zero() && self.right_stick.is_zero()
            && self.left_trigger.equals(Single { bits: scalar::ZERO })
            && self.right_trigger.equals(Single { bits: scalar::ZERO }) && codes.len() == 0)
    }

    /// Wipe to neutral. Held buttons are reported as `just_released` for one
    /// frame so charge-up / hold logic unwinds cleanly instead of hanging.
    pub fn go_neutral(&mut self)
        ensures
            old(self).neutralized(*final(self)),
            final(self).wf(),
            final(self).neutral(),
    {
        self.connected = false;
        buttons::release_all(&mut self.buttons);
        self.left_stick = Vec2::zero();
        self.right_stick = Vec2::zero();
        self.dpad = Vec2::zero();
        self.left_trigger = Single { bits: scalar::ZERO };
        self.right_trigger = Single { bits: scalar::ZERO };
    }

    /// Make the standard buttons follow the pad.
    fn follow(&mut self, pad: &Gamepad)
        ensures
            followed(*pad, STANDARD_BUTTONS as int, old(self).buttons, final(self).buttons),
            *final(self) == (PlayerInput { buttons: final(self).buttons, ..*old(self) }),
    {
        let list = ALL_BUTTONS;
        let mut i: usize = 0;
        while i < list.len()
            invariant
                list == ALL_BUTTONS,
                i <= list@.len(),
                followed(*pad, i as int, old(self).buttons, self.buttons),
                *self == (PlayerInput { buttons: self.buttons, ..*old(self) }),
            decreases list@.len() - i,
        {
            let button = list[i];
            proof {
                lemma_numbered(i as int);
                lemma_number_down(*pad, button);
            }
            let down = pad.pressed(button);
            let held = self.pressed(button);
            if down && !held {
                buttons::press(&mut self.buttons, button.code());
            } else if !down && held {
                buttons::release(&mut self.buttons, button.code());
            }
            i += 1;
        }
    }

    /// Refresh from live hardware.
    pub fn sample<M: Arithmetic>(
        &mut self,
        gamepad: &Gamepad,
        stick_dz: Single,
        trigger_dz: Single,
        math: &M,
    )
        ensures
            old(self).sampled(math, *gamepad, stick_dz, trigger_dz, *final(self)),
            final(self).wf(),
    {
        self.connected = true;
        self.follow(gamepad);
        let left = Vec2::new(axis(gamepad.left_stick_x), axis(gamepad.left_stick_y));
        self.left_stick = radial_deadzone(left, stick_dz, math);
        let right = Vec2::new(axis(gamepad.right_stick_x), axis(gamepad.right_stick_y));
        self.right_stick = radial_deadzone(right, stick_dz, math);
        let x = opposed(
            gamepad.pressed(GamepadButton::DPadRight),
            gamepad.pressed(GamepadButton::DPadLeft),
        );
        let y = opposed(
            gamepad.pressed(GamepadButton::DPadUp),
            gamepad.pressed(GamepadButton::DPadDown),
        );
        // Normalised so diagonal d-pad isn't 1.41x faster than cardinal.
        let unit = math.unit(x, y);
        self.dpad = Vec2::new(unit.0, unit.1);
        self.left_trigger = trigger(gamepad.left_trigger, trigger_dz, math);
        self.right_trigger = trigger(gamepad.right_trigger, trigger_dz, math);
    }

    /// Age out `just_pressed` / `just_released` before the next sample.
    pub fn tick(&mut self)
        ensures
            old(self).ticked(*final(self)),
            old(self).wf() ==> final(self).wf(),
    {
        buttons::clear(&mut self.buttons);
    }
}

/// The standard buttons stand in the order of their numbers.
proof fn lemma_numbered(i: int)
    requires
        0 <= i < ALL_BUTTONS@.len(),
    ensures
        ALL_BUTTONS@.len() == STANDARD_BUTTONS,
        ALL_BUTTONS@[i].number() == i,
        ALL_BUTTONS@[i].standard(),
{
    buttons::law_all_buttons_are_the_standard_ones(ALL_BUTTONS@[i]);
}

proof fn lemma_number_down(pad: Gamepad, button: GamepadButton)
    requires
        button.standard(),
    ensures
        number_down(pad, button.number()) == pad.down(button),
{
    if number_down(pad, button.number()) {
        let other = choose|other: GamepadButton| #[trigger]
            pad.down(other) && other.standard() && other.number() == button.number();
        buttons::law_numbers_are_distinct(other, button);
    }
}

/// The value of an axis, 0 where it was never moved.
fn axis(value: Option<Single>) -> (r: Single)
    ensures
        r == reading(value),
{
    match value {
        Some(value) => value,
        None => Single { bits: scalar::ZERO },
    }
}

/// Which way two opposite buttons point together.
fn opposed(forward: bool, back: bool) -> (r: Single)
    ensures
        r == balance(forward, back),
{
    if forward == back {
        Single { bits: scalar::ZERO }
    } else if forward {
        Single { bits: scalar::ONE }
    } else {
        Single { bits: MINUS_ONE }
    }
}

/// How far `value` is into what lies beyond the deadzone, from 0 to 1.
fn beyond<M: Arithmetic>(value: Single, deadzone: Single, math: &M) -> (r: Single)
    ensures
        rescaled(math, value, deadzone, r),
{
    let past = math.minus(value, deadzone);
    let all = math.minus(Single { bits: scalar::ONE }, deadzone);
    let share = math.over(past, all);
    assert(arithmetic::difference(math, value, deadzone, past));
    assert(arithmetic::difference(math, Single { bits: scalar::ONE }, deadzone, all));
    assert(arithmetic::quotient(math, past, all, share));
    share.clamp(Single { bits: scalar::ZERO }, Single { bits: scalar::ONE })
}

/// An analog trigger after its deadzone.
pub fn trigger<M: Arithmetic>(raw: Option<Single>, deadzone: Single, math: &M) -> (r: Single)
    ensures
        pulled(math, raw, deadzone, r),
{
    let raw = axis(raw);
    if raw.at_most(deadzone) {
        Single { bits: scalar::ZERO }
    } else {
        beyond(raw, deadzone, math)
    }
}

/// Circular deadzone with the live zone rescaled back to 0..1.
///
/// A deadzone per axis carves a square hole out of the stick: pushing
/// diagonally can clear the deadzone on one axis but not the other, so slow
/// diagonal movement snaps to a cardinal direction. This also clamps the
/// result to the unit circle, so a stick that reports past its corners can't
/// hand you a 1.4x speed boost on diagonals.
pub fn radial_deadzone<M: Arithmetic>(v: Vec2, deadzone: Single, math: &M) -> (r: Vec2)
    ensures
        deadzoned(math, v, deadzone, r),
{
    if (Single { bits: scalar::ONE }).at_most(deadzone) {
        return Vec2::zero();
    }
    let length = math.length(v.x, v.y);
    assert(arithmetic::norm(math, v.x, v.y, length));
    // The guard matters: a garbage axis reading, infinite or NaN, would
    // otherwise propagate into a player's position and never come back.
    if !length.is_finite() || length.at_most(deadzone) {
        return Vec2::zero();
    }
    let share = beyond(length, deadzone, math);
    assert(rescaled(math, length, deadzone, share));
    let x = math.over(v.x, length);
    let y = math.over(v.y, length);
    assert(arithmetic::quotient(math, v.x, length, x));
    assert(arithmetic::quotient(math, v.y, length, y));
    Vec2::new(math.times(x, share), math.times(y, share))
}

/// The gamepad behind a device, if it is live.
pub open spec fn hardware(device: PlayerDevice, gamepads: Seq<Gamepad>) -> Option<Gamepad> {
    match device {
        PlayerDevice::Gamepad(entity) => match gamepad::place(gamepads, entity) {
            Some(i) => Some(gamepads[i]),
            None => None,
        },
        PlayerDevice::Missing => None,
    }
}

/// Refreshes a player's [`PlayerInput`] from their gamepad.
///
/// An input whose controller was lost in this frame keeps what has just moved,
/// so that the releases are there for one frame and hold logic unwinds.
pub fn read_player_input<M: Arithmetic>(
    config: &CouchConfig,
    gamepads: &Vec<Gamepad>,
    device: &PlayerDevice,
    input: &mut PlayerInput,
    math: &M,
)
    ensures
        old(input).refreshed(
            math,
            hardware(*device, gamepads@),
            config.stick_deadzone,
            config.trigger_deadzone,
            *final(input),
        ),
        old(input).wf() ==> final(input).wf(),
{
    let ghost before = *input;
    if input.just_lost {
        input.just_lost = false;
    } else {
        input.tick();
    }
    assert(before.begun(*input));
    let pad = match device.gamepad() {
        Some(entity) => gamepad::find(gamepads, entity),
        None => None,
    };
    match pad {
        Some(pad) => input.sample(pad, config.stick_deadzone, config.trigger_deadzone, math),
        None => {
            if input.connected {
                input.go_neutral();
            }
        },
    }
}

} // verus!
