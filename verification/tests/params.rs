//! Players addressed by slot.

use bevy_couch_multiplayer::{
    Arithmetic, Double, GamepadButton, Haptics, Player, PlayerId, PlayerInput, Players, Rumble,
    RumblePattern, Single,
};

fn single(value: f32) -> Single {
    Single::from_bits(value.to_bits())
}

fn float(value: Single) -> f32 {
    f32::from_bits(value.to_bits())
}

struct Floats;

impl Arithmetic for Floats {
    fn plus(&self, a: Single, b: Single) -> Single {
        single(float(a) + float(b))
    }

    fn minus(&self, a: Single, b: Single) -> Single {
        single(float(a) - float(b))
    }

    fn times(&self, a: Single, b: Single) -> Single {
        single(float(a) * float(b))
    }

    fn over(&self, a: Single, b: Single) -> Single {
        single(float(a) / float(b))
    }

    fn rem_euclid(&self, a: Single, b: Single) -> Single {
        single(float(a).rem_euclid(float(b)))
    }

    fn length(&self, x: Single, y: Single) -> Single {
        single(bevy_math::Vec2::new(float(x), float(y)).length())
    }

    fn unit(&self, x: Single, y: Single) -> (Single, Single) {
        let unit = bevy_math::Vec2::new(float(x), float(y)).normalize_or_zero();
        (single(unit.x), single(unit.y))
    }

    fn double_minus(&self, a: Double, b: Double) -> Double {
        Double::from_bits((f64::from_bits(a.to_bits()) - f64::from_bits(b.to_bits())).to_bits())
    }

    fn widen(&self, a: Single) -> Double {
        Double::from_bits((float(a) as f64).to_bits())
    }

    fn narrow(&self, a: Double) -> Single {
        single(f64::from_bits(a.to_bits()) as f32)
    }
}

fn constant() -> RumblePattern {
    RumblePattern::constant(single(0.5), single(0.5), single(1.0))
}

#[test]
fn players_are_found_by_slot() {
    let mut first = PlayerInput::default();
    first.connected = true;
    first.buttons.press(GamepadButton::Start.code());
    let second = PlayerInput::default();
    let players = Players {
        inputs: vec![
            (Player::new(PlayerId::p3()), &first),
            (Player::new(PlayerId::p1()), &second),
        ],
    };
    assert_eq!(players.count(), 2);
    assert!(!players.is_empty());
    assert!(players.get(PlayerId::p3()).unwrap().connected);
    assert!(!players.get(PlayerId::p1()).unwrap().connected);
    assert!(players.get(PlayerId::p2()).is_none());
    let all: Vec<PlayerId> = players.iter().iter().map(|(id, _)| *id).collect();
    assert_eq!(all, vec![PlayerId::p3(), PlayerId::p1()]);
    let some: Vec<PlayerId> = players.connected().iter().map(|(id, _)| *id).collect();
    assert_eq!(some, vec![PlayerId::p3()]);
    assert_eq!(players.who_just_pressed(GamepadButton::Start), Some(PlayerId::p3()));
    assert!(players.any_just_pressed(GamepadButton::Start));
    assert_eq!(players.who_just_pressed(GamepadButton::South), None);
    assert!(!players.any_just_pressed(GamepadButton::South));
    assert!(Players { inputs: Vec::new() }.is_empty());
}

#[test]
fn the_lowest_number_answers() {
    let mut input = PlayerInput::default();
    input.buttons.press(GamepadButton::South.code());
    let players = Players {
        inputs: vec![
            (Player::new(PlayerId::p4()), &input),
            (Player::new(PlayerId::p2()), &input),
            (Player::new(PlayerId::p3()), &input),
        ],
    };
    assert_eq!(players.who_just_pressed(GamepadButton::South), Some(PlayerId::p2()));
}

#[test]
fn rumble_reaches_the_player_it_is_for() {
    let mut haptics = Haptics {
        rumbles: vec![
            (Player::new(PlayerId::p1()), Rumble::default()),
            (Player::new(PlayerId::p2()), Rumble::default()),
        ],
    };
    let counts =
        |h: &Haptics| h.rumbles.iter().map(|(_, r)| r.track_count()).collect::<Vec<usize>>();
    let handle = haptics.play(PlayerId::p2(), constant()).unwrap();
    assert_eq!(counts(&haptics), vec![0, 1]);
    assert!(haptics.play(PlayerId::p3(), constant()).is_none());
    assert!(haptics.play_with_priority(PlayerId::p2(), constant(), 7).is_some());
    assert_eq!(haptics.rumbles[1].1.tracks[1].priority, 7);
    haptics.play_all(constant());
    assert_eq!(counts(&haptics), vec![1, 3]);
    assert!(!haptics.stop(PlayerId::p3(), handle));
    assert!(haptics.stop(PlayerId::p2(), handle));
    assert!(!haptics.stop(PlayerId::p2(), handle));
    assert_eq!(counts(&haptics), vec![1, 2]);
    assert!(haptics.get_mut(PlayerId::p1()).unwrap().is_playing());
    assert!(haptics.get_mut(PlayerId::p8()).is_none());
    haptics.stop_player(PlayerId::p2());
    haptics.stop_player(PlayerId::p8());
    assert_eq!(counts(&haptics), vec![1, 0]);
    haptics.get_mut(PlayerId::p2()).unwrap().play(constant());
    assert_eq!(counts(&haptics), vec![1, 1]);
    haptics.stop_all();
    assert_eq!(counts(&haptics), vec![0, 0]);
    assert_eq!(haptics.rumbles[1].0.id, PlayerId::p2());
    let level = haptics.rumbles[0].1.advance(single(0.1), 8, &Floats);
    assert_eq!(float(level.0), 0.0);
}
