//! A player's input.

use bevy_couch_multiplayer::{
    radial_deadzone, read_player_input, Arithmetic, CouchConfig, DeviceFingerprint, Double,
    Gamepad, GamepadButton, PlayerDevice, PlayerInput, Single, Vec2, ALL_BUTTONS, JOIN_BUTTONS,
};
use bevy_ecs::entity::Entity;
use bevy_ecs::world::World;

fn single(value: f32) -> Single {
    Single::from_bits(value.to_bits())
}

fn float(value: Single) -> f32 {
    f32::from_bits(value.to_bits())
}

struct Floats;

impl Arithmetic for Floats {
    fn plus(&self, a: Single, b: Single) -> Single {
        single(float(a) + float(b))
    }

    fn minus(&self, a: Single, b: Single) -> Single {
        single(float(a) - float(b))
    }

    fn times(&self, a: Single, b: Single) -> Single {
        single(float(a) * float(b))
    }

    fn over(&self, a: Single, b: Single) -> Single {
        single(float(a) / float(b))
    }

    fn rem_euclid(&self, a: Single, b: Single) -> Single {
        single(float(a).rem_euclid(float(b)))
    }

    fn length(&self, x: Single, y: Single) -> Single {
        single(bevy_math::Vec2::new(float(x), float(y)).length())
    }

    fn unit(&self, x: Single, y: Single) -> (Single, Single) {
        let unit = bevy_math::Vec2::new(float(x), float(y)).normalize_or_zero();
        (single(unit.x), single(unit.y))
    }

    fn double_minus(&self, a: Double, b: Double) -> Double {
        Double::from_bits((f64::from_bits(a.to_bits()) - f64::from_bits(b.to_bits())).to_bits())
    }

    fn widen(&self, a: Single) -> Double {
        Double::from_bits((float(a) as f64).to_bits())
    }

    fn narrow(&self, a: Double) -> Single {
        single(f64::from_bits(a.to_bits()) as f32)
    }
}

/// Real `Entity` ids without depending on any raw-id constructor.
fn ids(n: usize) -> Vec<Entity> {
    let mut world = World::new();
    (0..n).map(|_| world.spawn_empty().id()).collect()
}

fn pad(entity: Entity) -> Gamepad {
    Gamepad {
        entity,
        fingerprint: DeviceFingerprint::default(),
        pressed: Vec::new(),
        just_pressed: Vec::new(),
        left_stick_x: None,
        left_stick_y: None,
        right_stick_x: None,
        right_stick_y: None,
        left_trigger: None,
        right_trigger: None,
    }
}

fn vec2(x: f32, y: f32) -> Vec2 {
    Vec2::new(single(x), single(y))
}

fn math(v: Vec2) -> bevy_math::Vec2 {
    bevy_math::Vec2::new(float(v.x), float(v.y))
}

fn deadzone(x: f32, y: f32, deadzone: f32) -> bevy_math::Vec2 {
    math(radial_deadzone(vec2(x, y), single(deadzone), &Floats))
}

#[test]
fn deadzone_ignores_resting_drift() {
    assert_eq!(deadzone(0.05, 0.05, 0.2), bevy_math::Vec2::ZERO);
}

#[test]
fn deadzone_is_circular_not_square() {
    // Neither axis clears 0.2 on its own, but the stick is clearly pushed
    // diagonally. A per-axis deadzone throws this away.
    let v = deadzone(0.15, 0.15, 0.2);
    assert!(v.length() > 0.0);
}

#[test]
fn deadzone_keeps_the_direction_it_was_given() {
    let v = deadzone(0.6, 0.8, 0.2);
    assert!((v.normalize().x - 0.6).abs() < 1e-5);
    assert!((v.normalize().y - 0.8).abs() < 1e-5);
}

#[test]
fn live_zone_reaches_full_range() {
    let v = deadzone(1.0, 0.0, 0.2);
    assert!((v.length() - 1.0).abs() < 1e-5);
}

#[test]
fn diagonals_are_not_faster_than_cardinals() {
    let v = deadzone(1.0, 1.0, 0.1);
    assert!(v.length() <= 1.0 + 1e-5);
}

#[test]
fn a_full_deadzone_kills_everything() {
    assert_eq!(deadzone(1.0, 0.0, 1.0), bevy_math::Vec2::ZERO);
}

#[test]
fn nonsense_input_does_not_leak_nan() {
    assert_eq!(deadzone(f32::NAN, 0.0, 0.1), bevy_math::Vec2::ZERO);
    assert_eq!(deadzone(0.0, 0.0, 0.0), bevy_math::Vec2::ZERO);
}

#[test]
fn movement_falls_back_to_the_dpad() {
    let mut input = PlayerInput {
        dpad: vec2(1.0, 0.0),
        ..Default::default()
    };
    assert_eq!(input.movement(), vec2(1.0, 0.0));

    input.left_stick = vec2(0.0, 0.5);
    assert_eq!(input.movement(), vec2(0.0, 0.5), "stick wins when used");
}

#[test]
fn going_neutral_reports_releases_once() {
    let mut input = PlayerInput {
        connected: true,
        left_stick: vec2(1.0, 1.0),
        ..Default::default()
    };
    input.buttons.press(GamepadButton::South.code());

    input.go_neutral();

    assert!(!input.connected);
    assert!(!input.pressed(GamepadButton::South));
    assert!(
        input.just_released(GamepadButton::South),
        "hold-to-charge logic needs the release to unwind"
    );
    assert_eq!(input.movement(), vec2(0.0, 0.0));
    assert!(input.is_neutral());

    input.tick();
    assert!(!input.just_released(GamepadButton::South));
}

#[test]
fn infinite_input_does_not_leak_nan() {
    assert_eq!(deadzone(f32::INFINITY, 0.0, 0.1), bevy_math::Vec2::ZERO);
    assert_eq!(deadzone(f32::NEG_INFINITY, f32::INFINITY, 0.1), bevy_math::Vec2::ZERO);
    assert_eq!(deadzone(f32::NAN, f32::INFINITY, 0.1), bevy_math::Vec2::ZERO);
    let far = deadzone(f32::MAX, f32::MAX, 0.1);
    assert!(!far.is_nan());
}

#[test]
fn a_disconnected_player_is_always_neutral() {
    let mut input = PlayerInput {
        dpad: vec2(1.0, 0.0),
        ..Default::default()
    };
    input.buttons.press(GamepadButton::South.code());
    assert!(input.is_neutral());
    input.connected = true;
    assert!(!input.is_neutral());
}

#[test]
fn half_way_through_the_live_zone_is_half() {
    assert_eq!(deadzone(0.75, 0.0, 0.5), bevy_math::Vec2::new(0.5, 0.0));
    assert_eq!(deadzone(0.0, -0.75, 0.5), bevy_math::Vec2::new(0.0, -0.5));
    assert_eq!(deadzone(0.5, 0.0, 0.5), bevy_math::Vec2::ZERO, "the edge is inside");
}

#[test]
fn triggers_have_a_deadzone_of_their_own() {
    let pull = |raw: Option<f32>, dz: f32| {
        let pulled = bevy_couch_multiplayer::input::trigger(raw.map(single), single(dz), &Floats);
        float(pulled)
    };
    assert_eq!(pull(None, 0.05), 0.0);
    assert_eq!(pull(Some(0.05), 0.05), 0.0);
    assert_eq!(pull(Some(0.75), 0.5), 0.5);
    assert_eq!(pull(Some(7.0), 0.5), 1.0);
    assert_eq!(pull(Some(-1.0), 0.0), 0.0);
}

#[test]
fn buttons_follow_the_pad_with_edges() {
    let e = ids(1);
    let config = CouchConfig::default();
    let device = PlayerDevice::Gamepad(e[0]);
    let mut input = PlayerInput::default();
    let mut gamepads = vec![pad(e[0])];
    gamepads[0].pressed = vec![GamepadButton::South, GamepadButton::Other(3)];

    read_player_input(&config, &gamepads, &device, &mut input, &Floats);
    assert!(input.connected);
    assert!(input.pressed(GamepadButton::South));
    assert!(input.just_pressed(GamepadButton::South));
    assert!(!input.just_released(GamepadButton::South));
    assert!(!input.pressed(GamepadButton::Other(3)), "extras are not picked up");
    assert!(input.any_pressed(&[GamepadButton::East, GamepadButton::South]));
    assert!(input.any_just_pressed(&[GamepadButton::South]));
    assert!(!input.any_pressed(&[GamepadButton::East]));
    assert!(!input.any_just_pressed(&[]));
    assert!(!input.is_neutral());

    read_player_input(&config, &gamepads, &device, &mut input, &Floats);
    assert!(input.pressed(GamepadButton::South));
    assert!(!input.just_pressed(GamepadButton::South), "held, not pressed again");

    gamepads[0].pressed = vec![GamepadButton::East];
    read_player_input(&config, &gamepads, &device, &mut input, &Floats);
    assert!(!input.pressed(GamepadButton::South));
    assert!(input.just_released(GamepadButton::South));
    assert!(input.just_pressed(GamepadButton::East));
}

#[test]
fn sticks_and_dpad_are_read() {
    let e = ids(1);
    let config = CouchConfig::default()
        .with_stick_deadzone(single(0.5))
        .with_trigger_deadzone(single(0.5));
    let device = PlayerDevice::Gamepad(e[0]);
    let mut input = PlayerInput::default();
    let mut gamepads = vec![pad(e[0])];
    gamepads[0].left_stick_x = Some(single(0.75));
    gamepads[0].right_stick_y = Some(single(-0.75));
    gamepads[0].left_trigger = Some(single(0.75));
    gamepads[0].right_trigger = Some(single(0.25));
    gamepads[0].pressed = vec![GamepadButton::DPadRight, GamepadButton::DPadUp];

    read_player_input(&config, &gamepads, &device, &mut input, &Floats);
    assert_eq!(input.left_stick, vec2(0.5, 0.0));
    assert_eq!(input.look(), vec2(0.0, -0.5));
    assert_eq!(input.left_trigger, single(0.5));
    assert_eq!(input.right_trigger, single(0.0));
    assert!((math(input.dpad).length() - 1.0).abs() < 1e-6, "diagonals are not faster");
    assert_eq!(input.dpad.x, input.dpad.y);
    assert_eq!(input.movement(), vec2(0.5, 0.0));

    gamepads[0].left_stick_x = None;
    gamepads[0].pressed = vec![GamepadButton::DPadLeft];
    read_player_input(&config, &gamepads, &device, &mut input, &Floats);
    assert_eq!(input.movement(), vec2(-1.0, 0.0));

    gamepads[0].pressed = vec![
        GamepadButton::DPadLeft,
        GamepadButton::DPadRight,
        GamepadButton::DPadDown,
    ];
    read_player_input(&config, &gamepads, &device, &mut input, &Floats);
    assert_eq!(input.dpad, vec2(0.0, -1.0), "opposites cancel");
}

#[test]
fn a_missing_controller_is_neutral() {
    let e = ids(2);
    let config = CouchConfig::default();
    let mut input = PlayerInput::default();
    assert!(input.is_neutral());
    let mut gamepads = vec![pad(e[0])];
    gamepads[0].pressed = vec![GamepadButton::South];
    gamepads[0].left_stick_y = Some(single(1.0));
    let device = PlayerDevice::Gamepad(e[0]);
    read_player_input(&config, &gamepads, &device, &mut input, &Floats);
    assert!(!input.is_neutral());

    // The pad is gone, though the device still names it.
    let others = vec![pad(e[1])];
    read_player_input(&config, &others, &device, &mut input, &Floats);
    assert!(!input.connected);
    assert!(input.is_neutral());
    assert!(input.just_released(GamepadButton::South));
    read_player_input(&config, &others, &PlayerDevice::Missing, &mut input, &Floats);
    assert!(input.is_neutral());
    assert!(!input.just_released(GamepadButton::South));
}

#[test]
fn lists_of_buttons_are_complete() {
    assert_eq!(ALL_BUTTONS.len(), 19);
    assert_eq!(JOIN_BUTTONS.len(), 15);
    for (i, button) in ALL_BUTTONS.iter().enumerate() {
        assert_eq!(button.code() as usize, i);
        let omitted = matches!(
            button,
            GamepadButton::LeftTrigger2
                | GamepadButton::RightTrigger2
                | GamepadButton::Select
                | GamepadButton::Mode
        );
        assert_eq!(JOIN_BUTTONS.contains(button), !omitted);
    }
    assert_eq!(GamepadButton::Other(0).code(), 0x100);
    assert_eq!(GamepadButton::Other(255).code(), 0x1ff);
}

#[test]
fn a_copy_holds_the_same_buttons() {
    let mut input = PlayerInput {
        connected: true,
        left_trigger: single(0.5),
        ..Default::default()
    };
    input.buttons.press(GamepadButton::South.code());
    input.buttons.press(GamepadButton::East.code());
    input.buttons.release(GamepadButton::East.code());
    let copy = input.clone();
    input.go_neutral();
    assert!(copy.connected);
    assert_eq!(copy.left_trigger, single(0.5));
    assert!(copy.pressed(GamepadButton::South));
    assert!(copy.just_pressed(GamepadButton::South));
    assert!(copy.just_released(GamepadButton::East));
    assert!(!copy.pressed(GamepadButton::East));
}
