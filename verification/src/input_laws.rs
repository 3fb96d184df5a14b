//! What holds of a player's input from frame to frame.

use crate::arithmetic;
use crate::arithmetic::Arithmetic;
use crate::buttons;
use crate::buttons::GamepadButton;
use crate::gamepad;
use crate::gamepad::Gamepad;
use crate::input;
use crate::input::{PlayerInput, Vec2};
use crate::player::PlayerDevice;
use crate::rounding;
use crate::scalar;
use crate::scalar::Single;
use vstd::prelude::*;

verus! {

/// With live hardware the standard buttons follow the pad: a button is held
/// while it is down there, has just been pressed in the frame in which it went
/// down, and just released in the frame in which it came up. What moved because
/// a controller was lost in this very frame stays reported.
pub proof fn law_buttons_follow_the_pad<M: Arithmetic>(
    math: &M,
    pad: Gamepad,
    stick_deadzone: Single,
    trigger_deadzone: Single,
    before: PlayerInput,
    after: PlayerInput,
    button: GamepadButton,
)
    requires
        before.refreshed(math, Some(pad), stick_deadzone, trigger_deadzone, after),
        !(button is Other),
    ensures
        after.connected,
        buttons::held(after.buttons).contains(button.number()) <==> pad.pressed@.contains(button),
        buttons::fresh(after.buttons).contains(button.number()) <==> (pad.pressed@.contains(button)
            && !buttons::held(before.buttons).contains(button.number())) || (before.just_lost
            && buttons::fresh(before.buttons).contains(button.number())),
        buttons::lifted(after.buttons).contains(button.number()) <==> (!pad.pressed@.contains(
            button,
        )
            && buttons::held(before.buttons).contains(button.number())) || (before.just_lost
            && buttons::lifted(before.buttons).contains(button.number())),
{
    assert(pad.down(button) == pad.pressed@.contains(button));
    if input::number_down(pad, button.number()) {
        let other = choose|other: GamepadButton| #[trigger]
            pad.down(other) && other.standard() && other.number() == button.number();
        buttons::law_numbers_are_distinct(other, button);
    }
}

/// Vendor-specific extras are never picked up: one that is not held stays
/// that way, whatever the pad reports.
pub proof fn law_extra_buttons_are_ignored<M: Arithmetic>(
    math: &M,
    pad: Option<Gamepad>,
    stick_deadzone: Single,
    trigger_deadzone: Single,
    before: PlayerInput,
    after: PlayerInput,
    extra: u8,
)
    requires
        before.refreshed(math, pad, stick_deadzone, trigger_deadzone, after),
        !buttons::held(before.buttons).contains(GamepadButton::Other(extra).number()),
        before.just_lost ==> !buttons::fresh(before.buttons).contains(
            GamepadButton::Other(extra).number(),
        ) && !buttons::lifted(before.buttons).contains(GamepadButton::Other(extra).number()),
    ensures
        !buttons::held(after.buttons).contains(GamepadButton::Other(extra).number()),
        !buttons::fresh(after.buttons).contains(GamepadButton::Other(extra).number()),
        !buttons::lifted(after.buttons).contains(GamepadButton::Other(extra).number()),
{
}

/// A player whose controller is missing stands still: the input is neutral,
/// and stays so for as long as no hardware is there.
pub proof fn law_a_missing_controller_is_neutral<M: Arithmetic>(
    math: &M,
    stick_deadzone: Single,
    trigger_deadzone: Single,
    before: PlayerInput,
    after: PlayerInput,
)
    requires
        before.wf(),
        before.refreshed(math, None, stick_deadzone, trigger_deadzone, after),
    ensures
        !after.connected,
        after.neutral(),
        after.wf(),
{
}

/// Losing the controller reports each held button as released in the frame in
/// which it is lost, once the input is refreshed without hardware, and no
/// longer in the next.
pub proof fn law_releases_are_reported_once<M: Arithmetic>(
    math: &M,
    stick_deadzone: Single,
    trigger_deadzone: Single,
    before: PlayerInput,
    lost: PlayerInput,
    seen: PlayerInput,
    after: PlayerInput,
    code: u16,
)
    requires
        before.lost(lost),
        lost.refreshed(math, None, stick_deadzone, trigger_deadzone, seen),
        seen.refreshed(math, None, stick_deadzone, trigger_deadzone, after),
    ensures
        seen.neutral(),
        !seen.connected,
        buttons::lifted(seen.buttons).contains(code) <==> buttons::held(before.buttons).contains(
            code,
        ),
        !buttons::held(seen.buttons).contains(code),
        !buttons::fresh(seen.buttons).contains(code),
        !buttons::lifted(after.buttons).contains(code),
        !buttons::held(after.buttons).contains(code),
{
}

/// The same holds where the hardware is found missing only by the refresh: its
/// releases are reported in that frame and not in the next.
pub proof fn law_missing_hardware_releases_once<M: Arithmetic>(
    math: &M,
    stick_deadzone: Single,
    trigger_deadzone: Single,
    before: PlayerInput,
    seen: PlayerInput,
    after: PlayerInput,
    code: u16,
)
    requires
        before.connected,
        !before.just_lost,
        before.refreshed(math, None, stick_deadzone, trigger_deadzone, seen),
        seen.refreshed(math, None, stick_deadzone, trigger_deadzone, after),
    ensures
        seen.neutral(),
        !seen.connected,
        buttons::lifted(seen.buttons).contains(code) <==> buttons::held(before.buttons).contains(
            code,
        ),
        !buttons::lifted(after.buttons).contains(code),
        !buttons::held(after.buttons).contains(code),
{
}

/// A stick that rests in its deadzone reads as zero, and so does one whose
/// reading is nonsense (infinite, or not a number), or whose deadzone is full.
pub proof fn law_deadzone_ignores_drift<M: Arithmetic>(
    math: &M,
    v: Vec2,
    deadzone: Single,
    r: Vec2,
)
    requires
        input::deadzoned(math, v, deadzone, r),
        (Single { bits: scalar::ONE }).within(deadzone) || forall|length: Single| #[trigger]
            arithmetic::norm(math, v.x, v.y, length) ==> !length.finite() || length.within(deadzone),
    ensures
        r == Vec2::origin(),
        r.at_rest(),
{
}

/// Nonsense never leaks: whatever the axes report, what is left of a stick is a
/// number on both axes.
pub proof fn law_deadzone_never_yields_nan<M: Arithmetic>(
    math: &M,
    v: Vec2,
    deadzone: Single,
    r: Vec2,
)
    requires
        rounding::measures(math),
        rounding::stays_a_number(math),
        (Single { bits: scalar::ZERO }).within(deadzone),
        input::deadzoned(math, v, deadzone, r),
    ensures
        !r.x.nan(),
        !r.y.nan(),
{
    let zero = Single { bits: scalar::ZERO };
    let one = Single { bits: scalar::ONE };
    if !one.within(deadzone) {
        let length = choose|length: Single| #[trigger]
            arithmetic::norm(math, v.x, v.y, length) && if input::resting(length, deadzone) {
                r == Vec2::origin()
            } else {
                exists|share: Single| #[trigger]
                    input::rescaled(math, length, deadzone, share) && input::resized(
                        math,
                        v.x,
                        length,
                        share,
                        r.x,
                    ) && input::resized(math, v.y, length, share, r.y)
            };
        if !input::resting(length, deadzone) {
            let share = choose|share: Single| #[trigger]
                input::rescaled(math, length, deadzone, share) && input::resized(
                    math,
                    v.x,
                    length,
                    share,
                    r.x,
                ) && input::resized(math, v.y, length, share, r.y);
            assert(deadzone.below(length));
            let (past, all, ratio): (Single, Single, Single) = choose|
                past: Single,
                all: Single,
                ratio: Single,
            |
                #[trigger] arithmetic::difference(math, length, deadzone, past)
                    && #[trigger] arithmetic::difference(math, one, deadzone, all)
                    && #[trigger] arithmetic::quotient(math, past, all, ratio) && share
                    == ratio.clamped(zero, one);
            assert(past.finite() && all.finite() && zero.below(all));
            assert(!ratio.nan());
            scalar::law_clamped_is_within_bounds(ratio, zero, one);
            assert(share.finite());
            let x = choose|x: Single| #[trigger]
                arithmetic::quotient(math, v.x, length, x) && arithmetic::product(
                    math,
                    x,
                    share,
                    r.x,
                );
            let y = choose|y: Single| #[trigger]
                arithmetic::quotient(math, v.y, length, y) && arithmetic::product(
                    math,
                    y,
                    share,
                    r.y,
                );
            assert(x.finite() && y.finite());
        }
    }
}

/// What lies beyond a deadzone is rescaled to the full range: unless the
/// arithmetic has no number for it, a share is from 0 to 1.
pub proof fn law_live_zone_is_in_range<M: Arithmetic>(
    math: &M,
    value: Single,
    deadzone: Single,
    share: Single,
)
    requires
        input::rescaled(math, value, deadzone, share),
    ensures
        share.nan() || ((Single { bits: scalar::ZERO }).within(share) && share.within(
            Single { bits: scalar::ONE },
        )),
{
}

/// The stick wins over the d-pad when used; an unused one leaves the movement
/// to the d-pad.
pub proof fn law_movement_falls_back_to_the_dpad(input: PlayerInput)
    ensures
        !input.left_stick.at_rest() ==> input.heading() == input.left_stick,
        input.left_stick.at_rest() ==> input.heading() == input.dpad,
        input.heading().at_rest() <==> input.left_stick.at_rest() && input.dpad.at_rest(),
        !input.left_stick.x.same(Single { bits: scalar::ZERO }) || !input.left_stick.y.same(
            Single { bits: scalar::ZERO },
        ) ==> input.heading().x == input.left_stick.x && input.heading().y == input.left_stick.y,
        input.left_stick.x.same(Single { bits: scalar::ZERO }) && input.left_stick.y.same(
            Single { bits: scalar::ZERO },
        ) ==> input.heading().x == input.dpad.x && input.heading().y == input.dpad.y,
{
}

/// What is left of an axis where the stick is `length` out of a deadzone: the
/// axis over the length, times the share of the live zone that the length is
/// into.
pub open spec fn stretched<M: Arithmetic>(
    math: &M,
    axis: Single,
    length: Single,
    share: Single,
    r: Single,
) -> bool {
    exists|unit: Single| #[trigger]
        arithmetic::quotient(math, axis, length, unit) && arithmetic::product(
            math,
            unit,
            share,
            r,
        )
}

/// `share` is how far `value` is past the deadzone over how far one is, from 0
/// to 1.
pub open spec fn past_deadzone<M: Arithmetic>(
    math: &M,
    value: Single,
    deadzone: Single,
    share: Single,
) -> bool {
    exists|past: Single, all: Single, ratio: Single|
        #[trigger] arithmetic::difference(math, value, deadzone, past)
            && #[trigger] arithmetic::difference(
            math,
            Single { bits: scalar::ONE },
            deadzone,
            all,
        ) && #[trigger] arithmetic::quotient(math, past, all, ratio) && share == ratio.clamped(
            Single { bits: scalar::ZERO },
            Single { bits: scalar::ONE },
        )
}

/// What a pad reports for an axis; 0 where it was never moved.
pub open spec fn reported(axis: Option<Single>) -> Single {
    match axis {
        Some(value) => value,
        None => Single { bits: scalar::ZERO },
    }
}

/// The stick `r` is what is left of the two axes that a pad reports for it.
/// Beyond the deadzone both axes count, each on its own component.
pub open spec fn follows_axes<M: Arithmetic>(
    math: &M,
    x: Single,
    y: Single,
    deadzone: Single,
    r: Vec2,
) -> bool {
    let zero = Single { bits: scalar::ZERO };
    &&& (Single { bits: scalar::ONE }).within(deadzone) ==> r.x == zero && r.y == zero
    &&& !(Single { bits: scalar::ONE }).within(deadzone) ==> exists|length: Single| #[trigger]
        arithmetic::norm(math, x, y, length) && {
            &&& !length.finite() || length.within(deadzone) ==> r.x == zero && r.y == zero
            &&& length.finite() && !length.within(deadzone) ==> exists|share: Single| #[trigger]
                past_deadzone(math, length, deadzone, share) && stretched(
                    math,
                    x,
                    length,
                    share,
                    r.x,
                ) && stretched(math, y, length, share, r.y)
        }
}

proof fn lemma_deadzoned_follows<M: Arithmetic>(math: &M, v: Vec2, deadzone: Single, r: Vec2)
    requires
        input::deadzoned(math, v, deadzone, r),
    ensures
        follows_axes(math, v.x, v.y, deadzone, r),
{
    if !(Single { bits: scalar::ONE }).within(deadzone) {
        let length = choose|length: Single| #[trigger]
            arithmetic::norm(math, v.x, v.y, length) && if input::resting(length, deadzone) {
                r == Vec2::origin()
            } else {
                exists|share: Single| #[trigger]
                    input::rescaled(math, length, deadzone, share) && input::resized(
                        math,
                        v.x,
                        length,
                        share,
                        r.x,
                    ) && input::resized(math, v.y, length, share, r.y)
            };
        assert(arithmetic::norm(math, v.x, v.y, length));
        if !input::resting(length, deadzone) {
            let share = choose|share: Single| #[trigger]
                input::rescaled(math, length, deadzone, share) && input::resized(
                    math,
                    v.x,
                    length,
                    share,
                    r.x,
                ) && input::resized(math, v.y, length, share, r.y);
            assert(past_deadzone(math, length, deadzone, share));
        }
    }
}

/// With live hardware each stick follows both axes that the pad reports for it,
/// each trigger its own pull, and the d-pad its four buttons: right against
/// left, up against down.
pub proof fn law_sticks_and_triggers_follow_the_pad<M: Arithmetic>(
    math: &M,
    pad: Gamepad,
    stick_deadzone: Single,
    trigger_deadzone: Single,
    before: PlayerInput,
    after: PlayerInput,
)
    requires
        before.refreshed(math, Some(pad), stick_deadzone, trigger_deadzone, after),
    ensures
        after.connected,
        !after.just_lost,
        follows_axes(
            math,
            reported(pad.left_stick_x),
            reported(pad.left_stick_y),
            stick_deadzone,
            after.left_stick,
        ),
        follows_axes(
            math,
            reported(pad.right_stick_x),
            reported(pad.right_stick_y),
            stick_deadzone,
            after.right_stick,
        ),
        follows_pull(math, reported(pad.left_trigger), trigger_deadzone, after.left_trigger),
        follows_pull(math, reported(pad.right_trigger), trigger_deadzone, after.right_trigger),
        exists|x: Single, y: Single|
            #[trigger] arithmetic::direction(math, x, y, (after.dpad.x, after.dpad.y)) && points(
                pad.pressed@.contains(GamepadButton::DPadRight),
                pad.pressed@.contains(GamepadButton::DPadLeft),
                x,
            ) && points(
                pad.pressed@.contains(GamepadButton::DPadUp),
                pad.pressed@.contains(GamepadButton::DPadDown),
                y,
            ),
{
    let left = Vec2 { x: reported(pad.left_stick_x), y: reported(pad.left_stick_y) };
    let right = Vec2 { x: reported(pad.right_stick_x), y: reported(pad.right_stick_y) };
    lemma_deadzoned_follows(math, left, stick_deadzone, after.left_stick);
    lemma_deadzoned_follows(math, right, stick_deadzone, after.right_stick);
    let x = input::balance(pad.down(GamepadButton::DPadRight), pad.down(GamepadButton::DPadLeft));
    let y = input::balance(pad.down(GamepadButton::DPadUp), pad.down(GamepadButton::DPadDown));
    scalar::lemma_zero_and_one();
    assert(arithmetic::direction(math, x, y, (after.dpad.x, after.dpad.y)));
}

/// The trigger `r` is what is left of a pull: nothing within the deadzone, and
/// the share of the live zone beyond it.
pub open spec fn follows_pull<M: Arithmetic>(
    math: &M,
    pull: Single,
    deadzone: Single,
    r: Single,
) -> bool {
    &&& pull.within(deadzone) ==> r == (Single { bits: scalar::ZERO })
    &&& !pull.within(deadzone) ==> past_deadzone(math, pull, deadzone, r)
}

/// `r` is 1 where only the one button is down, -1 where only the other is, and
/// 0 where both or neither are.
pub open spec fn points(forward: bool, back: bool, r: Single) -> bool {
    &&& r.finite()
    &&& r.number() == (if forward {
        rounding::unit()
    } else {
        0
    }) - (if back {
        rounding::unit()
    } else {
        0
    })
}

/// A component of a stick keeps its sign: an axis that makes up any share of
/// the length that counts is not lost, and points the way it was pushed.
pub proof fn law_pushed_axes_are_not_lost<M: Arithmetic>(
    math: &M,
    axis: Single,
    length: Single,
    share: Single,
    r: Single,
)
    requires
        rounding::keeps_signs(math),
        rounding::measures(math),
        exists|other: Single|
            #![trigger arithmetic::norm(math, axis, other, length)]
            #![trigger arithmetic::norm(math, other, axis, length)]
            arithmetic::norm(math, axis, other, length) || arithmetic::norm(
                math,
                other,
                axis,
                length,
            ),
        length.finite(),
        (Single { bits: scalar::ZERO }).below(length),
        (Single { bits: scalar::EPSILON }).within(share),
        share.within(Single { bits: scalar::ONE }),
        stretched(math, axis, length, share, r),
    ensures
        rounding::SHARES * axis.number() >= length.number() ==> (Single {
            bits: scalar::ZERO,
        }).below(r),
        -(rounding::SHARES * axis.number()) >= length.number() ==> r.below(
            Single { bits: scalar::ZERO },
        ),
{
    let other = choose|other: Single|
        #![trigger arithmetic::norm(math, axis, other, length)]
        #![trigger arithmetic::norm(math, other, axis, length)]
        arithmetic::norm(math, axis, other, length) || arithmetic::norm(math, other, axis, length);
    let unit = choose|unit: Single| #[trigger]
        arithmetic::quotient(math, axis, length, unit) && arithmetic::product(
            math,
            unit,
            share,
            r,
        );
    if arithmetic::norm(math, axis, other, length) {
        assert(unit.finite());
    } else {
        assert(arithmetic::norm(math, other, axis, length));
        assert(unit.finite());
    }
}

/// The live zone reaches the full range: at a length of 1 and beyond, nothing
/// is taken off, and a longer push never counts for less.
pub proof fn law_live_zone_reaches_full_range<M: Arithmetic>(
    math: &M,
    deadzone: Single,
    short: Single,
    long: Single,
    less: Single,
    more: Single,
)
    requires
        rounding::ascends(math),
        rounding::settled(math),
        rounding::stays_a_number(math),
        (Single { bits: scalar::ZERO }).within(deadzone),
        deadzone.below(Single { bits: scalar::ONE }),
        deadzone.below(short),
        short.within(long),
        long.finite(),
        input::rescaled(math, short, deadzone, less),
        input::rescaled(math, long, deadzone, more),
    ensures
        less.within(more),
        (Single { bits: scalar::ONE }).within(long) ==> more.same(Single { bits: scalar::ONE }),
{
    let zero = Single { bits: scalar::ZERO };
    let one = Single { bits: scalar::ONE };
    let (p1, a1, q1): (Single, Single, Single) = choose|p: Single, a: Single, q: Single|
        #[trigger] arithmetic::difference(math, short, deadzone, p)
            && #[trigger] arithmetic::difference(math, one, deadzone, a)
            && #[trigger] arithmetic::quotient(math, p, a, q) && less == q.clamped(zero, one);
    let (p2, a2, q2): (Single, Single, Single) = choose|p: Single, a: Single, q: Single|
        #[trigger] arithmetic::difference(math, long, deadzone, p)
            && #[trigger] arithmetic::difference(math, one, deadzone, a)
            && #[trigger] arithmetic::quotient(math, p, a, q) && more == q.clamped(zero, one);
    assert(a1 == a2);
    assert(p1.within(p2));
    assert(p1.finite() && p2.finite() && a1.finite());
    assert(q1.within(q2));
    if one.within(long) {
        assert(a2.within(p2));
        assert(one.within(q2));
    }
}

/// A push that counts is seen: where the stick is out of the deadzone, an axis
/// that makes up any share of it that counts moves its own component the same
/// way.
pub proof fn law_a_push_is_seen<M: Arithmetic>(
    math: &M,
    pad: Gamepad,
    stick_deadzone: Single,
    trigger_deadzone: Single,
    before: PlayerInput,
    after: PlayerInput,
)
    requires
        rounding::keeps_signs(math),
        rounding::measures(math),
        (Single { bits: scalar::ZERO }).within(stick_deadzone),
        stick_deadzone.below(Single { bits: scalar::ONE }),
        before.refreshed(math, Some(pad), stick_deadzone, trigger_deadzone, after),
    ensures
        far_out(math, pad.left_stick_x, pad.left_stick_y, stick_deadzone) ==> leans(
            math,
            pad.left_stick_x,
            pad.left_stick_y,
            after.left_stick,
        ),
        far_out(math, pad.right_stick_x, pad.right_stick_y, stick_deadzone) ==> leans(
            math,
            pad.right_stick_x,
            pad.right_stick_y,
            after.right_stick,
        ),
{
    law_sticks_and_triggers_follow_the_pad(
        math,
        pad,
        stick_deadzone,
        trigger_deadzone,
        before,
        after,
    );
    if far_out(math, pad.left_stick_x, pad.left_stick_y, stick_deadzone) {
        lemma_leans(
            math,
            reported(pad.left_stick_x),
            reported(pad.left_stick_y),
            stick_deadzone,
            after.left_stick,
        );
    }
    if far_out(math, pad.right_stick_x, pad.right_stick_y, stick_deadzone) {
        lemma_leans(
            math,
            reported(pad.right_stick_x),
            reported(pad.right_stick_y),
            stick_deadzone,
            after.right_stick,
        );
    }
}

/// The stick is out of the deadzone by a share that counts.
pub open spec fn far_out<M: Arithmetic>(
    math: &M,
    x: Option<Single>,
    y: Option<Single>,
    deadzone: Single,
) -> bool {
    forall|length: Single| #[trigger]
        arithmetic::norm(math, reported(x), reported(y), length) ==> {
            &&& length.finite()
            &&& deadzone.below(length)
            &&& forall|share: Single| #[trigger]
                past_deadzone(math, length, deadzone, share) ==> (Single {
                    bits: scalar::EPSILON,
                }).within(share) && share.within(Single { bits: scalar::ONE })
        }
}

/// Every axis that makes up a share of the length that counts moves its own
/// component its own way.
pub open spec fn leans<M: Arithmetic>(
    math: &M,
    x: Option<Single>,
    y: Option<Single>,
    r: Vec2,
) -> bool {
    let zero = Single { bits: scalar::ZERO };
    exists|length: Single| #[trigger]
        arithmetic::norm(math, reported(x), reported(y), length) && {
            &&& rounding::SHARES * reported(x).number() >= length.number() ==> zero.below(r.x)
            &&& -(rounding::SHARES * reported(x).number()) >= length.number() ==> r.x.below(zero)
            &&& rounding::SHARES * reported(y).number() >= length.number() ==> zero.below(r.y)
            &&& -(rounding::SHARES * reported(y).number()) >= length.number() ==> r.y.below(zero)
        }
}

proof fn lemma_leans<M: Arithmetic>(
    math: &M,
    x: Single,
    y: Single,
    deadzone: Single,
    r: Vec2,
)
    requires
        rounding::keeps_signs(math),
        rounding::measures(math),
        (Single { bits: scalar::ZERO }).within(deadzone),
        deadzone.below(Single { bits: scalar::ONE }),
        follows_axes(math, x, y, deadzone, r),
        far_out(math, Some(x), Some(y), deadzone),
    ensures
        leans(math, Some(x), Some(y), r),
{
    let zero = Single { bits: scalar::ZERO };
    let length = choose|length: Single| #[trigger]
        arithmetic::norm(math, x, y, length) && {
            &&& !length.finite() || length.within(deadzone) ==> r.x == zero && r.y == zero
            &&& length.finite() && !length.within(deadzone) ==> exists|share: Single| #[trigger]
                past_deadzone(math, length, deadzone, share) && stretched(
                    math,
                    x,
                    length,
                    share,
                    r.x,
                ) && stretched(math, y, length, share, r.y)
        };
    assert(arithmetic::norm(math, reported(Some(x)), reported(Some(y)), length));
    let share = choose|share: Single| #[trigger]
        past_deadzone(math, length, deadzone, share) && stretched(
            math,
            x,
            length,
            share,
            r.x,
        ) && stretched(math, y, length, share, r.y);
    law_pushed_axes_are_not_lost(math, x, length, share, r.x);
    law_pushed_axes_are_not_lost(math, y, length, share, r.y);
}

/// Anything pushed or held shows: a connected player with a stick out of rest,
/// the d-pad in use, a trigger pulled or a button down is not neutral, and one
/// with none of that is.
pub proof fn law_anything_held_shows(input: PlayerInput)
    ensures
        ({
            let zero = Single { bits: scalar::ZERO };
            &&& !input.left_stick.x.same(zero) || !input.left_stick.y.same(zero)
                ==> !input.neutral()
            &&& !input.right_stick.x.same(zero) || !input.right_stick.y.same(zero)
                ==> !input.neutral()
            &&& !input.dpad.x.same(zero) || !input.dpad.y.same(zero) ==> !input.neutral()
            &&& !input.left_trigger.same(zero) || !input.right_trigger.same(zero)
                ==> !input.neutral()
            &&& forall|code: u16| #[trigger]
                buttons::held(input.buttons).contains(code) ==> !input.neutral()
            &&& input.left_stick.x.same(zero) && input.left_stick.y.same(zero)
                && input.right_stick.x.same(zero) && input.right_stick.y.same(zero)
                && input.dpad.x.same(zero) && input.dpad.y.same(zero) && input.left_trigger.same(
                zero,
            ) && input.right_trigger.same(zero) && (forall|code: u16|
                !(#[trigger] buttons::held(input.buttons).contains(code))) ==> input.neutral()
        }),
{
    if forall|code: u16| !(#[trigger] buttons::held(input.buttons).contains(code)) {
        assert(buttons::held(input.buttons) == Set::<u16>::empty());
    }
}

/// A player reads the gamepad that drives them, and none where it is not there.
pub proof fn law_players_read_their_own_gamepad(
    device: PlayerDevice,
    gamepads: Seq<Gamepad>,
    i: int,
)
    ensures
        device is Missing ==> input::hardware(device, gamepads) is None,
        device matches PlayerDevice::Gamepad(entity) ==> {
            &&& input::hardware(device, gamepads) matches Some(pad) ==> pad.entity == entity
                && gamepads.contains(pad)
            &&& 0 <= i < gamepads.len() && gamepads[i].entity == entity
                && gamepad::entities_of(gamepads).no_duplicates() ==> input::hardware(
                device,
                gamepads,
            ) == Some(gamepads[i])
            &&& input::hardware(device, gamepads) is None <==> forall|j: int|
                0 <= j < gamepads.len() ==> (#[trigger] gamepads[j]).entity != entity
        },
{
    match device {
        PlayerDevice::Gamepad(entity) => {
            gamepad::law_gamepads_are_found_by_their_entity(gamepads, entity);
            let all = gamepad::entities_of(gamepads);
            if 0 <= i < gamepads.len() && gamepads[i].entity == entity && all.no_duplicates() {
                assert forall|j: int| 0 <= j < i implies (#[trigger] gamepads[j]).entity
                    != entity by {
                    assert(all[j] != all[i]);
                }
            }
        },
        PlayerDevice::Missing => {},
    }
}

/// Losing the controller leaves nothing pushed or held.
pub proof fn law_a_lost_controller_lets_go(before: PlayerInput, after: PlayerInput)
    requires
        before.lost(after) || before.neutralized(after),
    ensures
        !after.connected,
        after.left_stick.x.same(Single { bits: scalar::ZERO }),
        after.left_stick.y.same(Single { bits: scalar::ZERO }),
        after.right_stick.x.same(Single { bits: scalar::ZERO }),
        after.right_stick.y.same(Single { bits: scalar::ZERO }),
        after.dpad.x.same(Single { bits: scalar::ZERO }),
        after.dpad.y.same(Single { bits: scalar::ZERO }),
        after.left_trigger.same(Single { bits: scalar::ZERO }),
        after.right_trigger.same(Single { bits: scalar::ZERO }),
        forall|code: u16| !(#[trigger] buttons::held(after.buttons).contains(code)),
        forall|code: u16| #[trigger]
            buttons::held(before.buttons).contains(code) ==> buttons::lifted(
                after.buttons,
            ).contains(code),
{
}

} // verus!
