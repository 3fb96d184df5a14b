//! Joining, leaving and hardware that comes and goes.

use bevy_couch_multiplayer::join::{admit_players, holds_leave, queue_join_requests};
use bevy_couch_multiplayer::{
    lose_device, process_membership, read_player_input, regain_device, sync_devices, Arithmetic,
    CouchConfig, DeviceFingerprint, Double, Gamepad, GamepadButton, JoinMode, JoinTrigger,
    LeaveHold, LeaveMode, LeaveReason, MembershipChanges, PlayerDevice, PlayerHold, PlayerId,
    PlayerInput, PlayerRoster, ReconnectPolicy, Single,
};
use bevy_ecs::entity::Entity;
use bevy_ecs::world::World;
use std::cell::RefCell;

fn single(value: f32) -> Single {
    Single::from_bits(value.to_bits())
}

fn float(value: Single) -> f32 {
    f32::from_bits(value.to_bits())
}

fn double(value: f64) -> Double {
    Double::from_bits(value.to_bits())
}

struct Floats;

impl Arithmetic for Floats {
    fn plus(&self, a: Single, b: Single) -> Single {
        single(float(a) + float(b))
    }

    fn minus(&self, a: Single, b: Single) -> Single {
        single(float(a) - float(b))
    }

    fn times(&self, a: Single, b: Single) -> Single {
        single(float(a) * float(b))
    }

    fn over(&self, a: Single, b: Single) -> Single {
        single(float(a) / float(b))
    }

    fn rem_euclid(&self, a: Single, b: Single) -> Single {
        single(float(a).rem_euclid(float(b)))
    }

    fn length(&self, x: Single, y: Single) -> Single {
        single(bevy_math::Vec2::new(float(x), float(y)).length())
    }

    fn unit(&self, x: Single, y: Single) -> (Single, Single) {
        let unit = bevy_math::Vec2::new(float(x), float(y)).normalize_or_zero();
        (single(unit.x), single(unit.y))
    }

    fn double_minus(&self, a: Double, b: Double) -> Double {
        Double::from_bits((f64::from_bits(a.to_bits()) - f64::from_bits(b.to_bits())).to_bits())
    }

    fn widen(&self, a: Single) -> Double {
        Double::from_bits((float(a) as f64).to_bits())
    }

    fn narrow(&self, a: Double) -> Single {
        single(f64::from_bits(a.to_bits()) as f32)
    }
}

fn pad(entity: Entity) -> Gamepad {
    Gamepad {
        entity,
        fingerprint: DeviceFingerprint::default(),
        pressed: Vec::new(),
        just_pressed: Vec::new(),
        left_stick_x: None,
        left_stick_y: None,
        right_stick_x: None,
        right_stick_y: None,
        left_trigger: None,
        right_trigger: None,
    }
}

fn named(entity: Entity, name: &str) -> Gamepad {
    let mut pad = pad(entity);
    pad.fingerprint.name = Some(name.to_string());
    pad
}

fn pressing(entity: Entity, button: GamepadButton) -> Gamepad {
    let mut pad = pad(entity);
    pad.just_pressed = vec![button];
    pad
}

fn hold(held: f32, required: f32) -> LeaveHold {
    LeaveHold {
        held_secs: single(held),
        required_secs: single(required),
    }
}

fn progress(hold: LeaveHold) -> f32 {
    float(hold.progress(&Floats))
}

#[test]
fn progress_fills_over_the_hold() {
    assert_eq!(progress(hold(0.0, 2.0)), 0.0);
    assert_eq!(progress(hold(1.0, 2.0)), 0.5);
    assert_eq!(progress(hold(9.0, 2.0)), 1.0, "clamped");
}

#[test]
fn an_idle_ring_is_empty_even_without_a_hold_configured() {
    assert_eq!(progress(hold(0.0, 0.0)), 0.0);
    assert!(!hold(0.0, 0.0).is_holding());
}

#[test]
fn a_ring_without_a_hold_is_full_while_held() {
    assert_eq!(progress(hold(0.1, 0.0)), 1.0);
    assert!(hold(0.1, 0.0).is_holding());
    assert_eq!(hold(0.1, 3.0).required_secs(), single(3.0));
    assert_eq!(progress(LeaveHold::default()), 0.0);
}

/// A lobby, the world its entities live in, and the frames it goes through.
struct Lobby {
    world: RefCell<World>,
    roster: PlayerRoster,
    config: CouchConfig,
    players: Vec<PlayerHold>,
    now: f64,
}

impl Lobby {
    fn new(config: CouchConfig) -> Lobby {
        Lobby {
            world: RefCell::new(World::new()),
            roster: PlayerRoster::new(config.max_players),
            config,
            players: Vec::new(),
            now: 0.0,
        }
    }

    fn entity(&self) -> Entity {
        self.world.borrow_mut().spawn_empty().id()
    }

    /// One frame of half a second.
    fn frame(&mut self, gamepads: &Vec<Gamepad>) -> MembershipChanges {
        self.now += 0.5;
        sync_devices(&mut self.roster, &self.config, double(self.now), &Vec::new(), gamepads);
        let world = &self.world;
        process_membership(
            &mut self.roster,
            &self.config,
            true,
            double(self.now),
            single(0.5),
            gamepads,
            &mut self.players,
            &|_: PlayerId, _: Entity| world.borrow_mut().spawn_empty().id(),
            &Floats,
        )
    }
}

fn automatic() -> CouchConfig {
    CouchConfig::default().with_join_mode(JoinMode::Automatic)
}

#[test]
fn pads_join_in_order_and_the_full_lobby_turns_the_rest_away() {
    let mut lobby = Lobby::new(automatic().with_max_players(2));
    let e: Vec<Entity> = (0..3).map(|_| lobby.entity()).collect();
    let gamepads: Vec<Gamepad> = e.iter().map(|e| pad(*e)).collect();
    let changes = lobby.frame(&gamepads);
    assert_eq!(changes.joined.len(), 2);
    assert_eq!(changes.joined[0].id, PlayerId::p1());
    assert_eq!(changes.joined[0].gamepad, e[0]);
    assert_eq!(changes.joined[1].id, PlayerId::p2());
    assert_eq!(changes.joined[1].gamepad, e[1]);
    assert_ne!(changes.joined[0].player_entity, changes.joined[1].player_entity);
    assert_eq!(lobby.roster.player_entity(PlayerId::p1()), Some(changes.joined[0].player_entity));
    assert!(lobby.roster.is_full());
    assert_eq!(lobby.roster.unassigned_gamepads(), &[e[2]]);
    assert!(lobby.frame(&gamepads).joined.is_empty());
}

#[test]
fn pressing_joins_and_idling_does_not() {
    let mut lobby = Lobby::new(CouchConfig::default());
    let (a, b) = (lobby.entity(), lobby.entity());
    let changes = lobby.frame(&vec![
        pressing(a, GamepadButton::South),
        pressing(b, GamepadButton::Start),
    ]);
    assert_eq!(changes.joined.len(), 1);
    assert_eq!(changes.joined[0].gamepad, b);
    assert_eq!(lobby.roster.unassigned_gamepads(), &[a]);
}

#[test]
fn every_trigger_fires_on_its_buttons() {
    let lobby = Lobby::new(CouchConfig::default());
    let e = lobby.entity();
    let asks = |mode: JoinMode, button: GamepadButton| {
        let config = CouchConfig::default().with_join_mode(mode);
        let mut roster = PlayerRoster::new(1);
        roster.set_unassigned(vec![e]);
        queue_join_requests(&mut roster, &config, &vec![pressing(e, button)]);
        !roster.take_join_requests().is_empty()
    };
    let any = || JoinMode::PressToJoin(JoinTrigger::AnyButton);
    assert!(asks(any(), GamepadButton::South));
    assert!(asks(any(), GamepadButton::LeftTrigger));
    assert!(!asks(any(), GamepadButton::LeftTrigger2));
    assert!(!asks(any(), GamepadButton::Select));
    assert!(!asks(any(), GamepadButton::Mode));
    assert!(!asks(any(), GamepadButton::Other(1)));
    let two = || {
        JoinMode::PressToJoin(JoinTrigger::AnyOf(vec![GamepadButton::Mode, GamepadButton::East]))
    };
    assert!(asks(two(), GamepadButton::East));
    assert!(asks(two(), GamepadButton::Mode));
    assert!(!asks(two(), GamepadButton::South));
    let one = || JoinMode::PressToJoin(JoinTrigger::Button(GamepadButton::Z));
    assert!(asks(one(), GamepadButton::Z));
    assert!(!asks(one(), GamepadButton::C));
    assert!(!asks(JoinMode::Manual, GamepadButton::Start));
    assert!(asks(JoinMode::Automatic, GamepadButton::Select));
}

#[test]
fn a_gone_pad_cannot_press() {
    let lobby = Lobby::new(CouchConfig::default());
    let e = lobby.entity();
    let config = CouchConfig::default();
    let mut roster = PlayerRoster::new(1);
    roster.set_unassigned(vec![e]);
    queue_join_requests(&mut roster, &config, &Vec::new());
    assert!(roster.take_join_requests().is_empty());
}

#[test]
fn manual_requests_are_admitted() {
    let mut lobby = Lobby::new(CouchConfig::default().with_join_mode(JoinMode::Manual));
    let e = lobby.entity();
    assert!(lobby.frame(&vec![pad(e)]).joined.is_empty());
    lobby.roster.request_join(e);
    assert_eq!(lobby.frame(&vec![pad(e)]).joined.len(), 1);
    lobby.roster.request_join(e);
    assert!(lobby.frame(&vec![pad(e)]).joined.is_empty(), "already playing");
}

#[test]
fn a_lost_controller_is_handed_back() {
    let mut lobby = Lobby::new(automatic());
    let (a, b) = (lobby.entity(), lobby.entity());
    let joined = lobby.frame(&vec![named(a, "One"), named(b, "Two")]).joined;

    // Both go; the second comes back first, under another entity.
    let changes = sync_devices(
        &mut lobby.roster,
        &lobby.config,
        double(3.0),
        &vec![a],
        &vec![named(a, "One")],
    );
    assert_eq!(changes.disconnected.len(), 2);
    assert_eq!(changes.disconnected[0].id, PlayerId::p1());
    assert_eq!(changes.disconnected[1].id, PlayerId::p2());
    assert_eq!(changes.disconnected[1].player_entity, joined[1].player_entity);
    // The one that was reported gone is there all the same, so it is back.
    assert_eq!(changes.reconnected.len(), 1);
    assert_eq!(changes.reconnected[0].id, PlayerId::p1());
    assert!(changes.reconnected[0].same_device);
    assert!(lobby.roster.is_joined(PlayerId::p2()));
    assert!(!lobby.roster.is_connected(PlayerId::p2()));

    let again = lobby.entity();
    let changes = sync_devices(
        &mut lobby.roster,
        &lobby.config,
        double(4.0),
        &Vec::new(),
        &vec![named(a, "One"), named(again, "Two")],
    );
    assert!(changes.disconnected.is_empty());
    assert_eq!(changes.reconnected.len(), 1);
    assert_eq!(changes.reconnected[0].id, PlayerId::p2());
    assert_eq!(changes.reconnected[0].player_entity, joined[1].player_entity);
    assert_eq!(changes.reconnected[0].gamepad, again);
    assert!(changes.reconnected[0].same_device);
    assert!(lobby.roster.unassigned_gamepads().is_empty());
}

#[test]
fn unknown_and_unmatched_pads_stay_free() {
    let mut lobby = Lobby::new(automatic());
    let a = lobby.entity();
    lobby.frame(&vec![named(a, "One")]);
    let (x, y) = (lobby.entity(), lobby.entity());
    let none = |lobby: &mut Lobby, pads: Vec<Gamepad>| {
        let changes = sync_devices(
            &mut lobby.roster,
            &lobby.config,
            double(9.0),
            &Vec::new(),
            &pads,
        );
        changes.reconnected.len()
    };
    assert_eq!(none(&mut lobby, vec![pad(x), named(y, "Other")]), 0);
    assert_eq!(lobby.roster.unassigned_gamepads(), &[x, y]);
    // With matching off not even the right one is handed back.
    lobby.config.reconnect.match_device = false;
    assert_eq!(none(&mut lobby, vec![named(y, "One")]), 0);
    assert_eq!(lobby.roster.unassigned_gamepads(), &[y]);
    lobby.config.reconnect.match_device = true;
    assert_eq!(none(&mut lobby, vec![named(y, "One")]), 1);
}

#[test]
fn identical_controllers_fill_waiting_slots_in_order() {
    let mut lobby = Lobby::new(automatic());
    let (a, b) = (lobby.entity(), lobby.entity());
    lobby.frame(&vec![named(a, "Same"), named(b, "Same")]);
    lobby.frame(&Vec::new());
    let (x, y) = (lobby.entity(), lobby.entity());
    let changes = sync_devices(
        &mut lobby.roster,
        &lobby.config,
        double(9.0),
        &Vec::new(),
        &vec![named(x, "Same"), named(y, "Same")],
    );
    let back: Vec<(PlayerId, Entity)> =
        changes.reconnected.iter().map(|r| (r.id, r.gamepad)).collect();
    assert_eq!(back, vec![(PlayerId::p1(), x), (PlayerId::p2(), y)]);
}

#[test]
fn a_borrowed_pad_restores_whoever_waited_longest() {
    let mut lobby = Lobby::new(automatic());
    let (a, b) = (lobby.entity(), lobby.entity());
    let joined = lobby.frame(&vec![named(a, "One"), named(b, "Two")]).joined;
    lobby.frame(&vec![named(a, "One")]);
    lobby.frame(&Vec::new());
    let spare = lobby.entity();
    let changes = lobby.frame(&vec![named(spare, "Spare")]);
    assert!(changes.joined.is_empty());
    assert_eq!(changes.reconnected.len(), 1);
    assert_eq!(changes.reconnected[0].id, PlayerId::p2());
    assert_eq!(changes.reconnected[0].player_entity, joined[1].player_entity);
    assert!(!changes.reconnected[0].same_device);
    assert_eq!(lobby.roster.fingerprint(PlayerId::p2()).unwrap().name, Some("Spare".to_string()));
}

#[test]
fn a_strict_lobby_opens_a_new_slot_instead() {
    let strict = automatic().with_reconnect(ReconnectPolicy::strict(single(60.0)));
    let mut lobby = Lobby::new(strict);
    let a = lobby.entity();
    lobby.frame(&vec![named(a, "One")]);
    lobby.frame(&Vec::new());
    let spare = lobby.entity();
    let changes = lobby.frame(&vec![named(spare, "Spare")]);
    assert!(changes.reconnected.is_empty());
    assert_eq!(changes.joined.len(), 1);
    assert_eq!(changes.joined[0].id, PlayerId::p2());
    assert!(lobby.roster.is_joined(PlayerId::p1()), "still held");
}

#[test]
fn a_slot_expires_after_its_grace() {
    let strict = automatic().with_reconnect(ReconnectPolicy::strict(single(1.0)));
    let mut lobby = Lobby::new(strict);
    let a = lobby.entity();
    let joined = lobby.frame(&vec![named(a, "One")]).joined;
    assert!(lobby.frame(&Vec::new()).left.is_empty());
    assert!(lobby.frame(&Vec::new()).left.is_empty());
    let changes = lobby.frame(&Vec::new());
    assert_eq!(changes.left.len(), 1);
    assert_eq!(changes.left[0].id, PlayerId::p1());
    assert_eq!(changes.left[0].player_entity, joined[0].player_entity);
    assert_eq!(changes.left[0].reason, LeaveReason::TimedOut);
    assert!(changes.stopped.is_empty(), "no hardware to stop");
    assert!(lobby.roster.is_empty());
}

#[test]
fn without_a_grace_period_slots_are_held_forever() {
    let mut lobby = Lobby::new(automatic());
    let a = lobby.entity();
    lobby.frame(&vec![named(a, "One")]);
    for _ in 0..50 {
        assert!(lobby.frame(&Vec::new()).left.is_empty());
    }
    assert!(lobby.roster.is_joined(PlayerId::p1()));
}

#[test]
fn holding_the_button_leaves() {
    let press = CouchConfig::default().with_hold_to_leave(GamepadButton::Select, single(1.0));
    let mut lobby = Lobby::new(press);
    let a = lobby.entity();
    let joined = lobby.frame(&vec![pressing(a, GamepadButton::Start)]).joined;
    let player = PlayerId::p1();
    lobby.players = vec![PlayerHold { player, holding: true, hold: LeaveHold::default() }];

    assert!(lobby.frame(&vec![pad(a)]).left.is_empty());
    assert_eq!(progress(lobby.players[0].hold), 0.5);
    assert!(lobby.players[0].hold.is_holding());

    // Letting go starts over.
    lobby.players[0].holding = false;
    assert!(lobby.frame(&vec![pad(a)]).left.is_empty());
    assert_eq!(lobby.players[0].hold.held_secs, single(0.0));
    assert_eq!(lobby.players[0].hold.required_secs(), single(1.0));

    lobby.players[0].holding = true;
    assert!(lobby.frame(&vec![pad(a)]).left.is_empty());
    let changes = lobby.frame(&vec![pad(a)]);
    assert_eq!(changes.left.len(), 1);
    assert_eq!(changes.left[0].reason, LeaveReason::Requested);
    assert_eq!(changes.left[0].player_entity, joined[0].player_entity);
    assert_eq!(changes.stopped, vec![a], "the motors are told");
    assert_eq!(lobby.roster.unassigned_gamepads(), &[a], "and the pad may rejoin");
    assert_eq!(lobby.players[0].hold.held_secs, single(0.0));
    assert!(lobby.roster.is_empty());
}

#[test]
fn a_leave_request_for_nobody_is_dropped() {
    let mut lobby = Lobby::new(automatic());
    lobby.roster.request_leave(PlayerId::p1());
    lobby.roster.request_leave(PlayerId::p8());
    assert!(lobby.frame(&Vec::new()).left.is_empty());
    assert!(lobby.roster.take_leave_requests().is_empty());
}

#[test]
fn the_lobby_is_resized_only_when_settings_change() {
    let mut lobby = Lobby::new(automatic());
    lobby.config.max_players = 6;
    assert!(lobby.frame(&Vec::new()).resized);
    assert_eq!(lobby.roster.capacity(), 6);
    assert!(!lobby.frame(&Vec::new()).resized);
    lobby.config.max_players = 2;
    let world = RefCell::new(World::new());
    let changes = process_membership(
        &mut lobby.roster,
        &lobby.config,
        false,
        double(9.0),
        single(0.5),
        &Vec::new(),
        &mut lobby.players,
        &|_: PlayerId, _: Entity| world.borrow_mut().spawn_empty().id(),
        &Floats,
    );
    assert!(!changes.resized);
    assert_eq!(lobby.roster.capacity(), 6);
}

#[test]
fn only_a_connected_player_holds_the_leave_button() {
    let config = CouchConfig::default();
    let manual = CouchConfig::default().with_leave_mode(LeaveMode::Manual);
    let mut input = PlayerInput::default();
    input.buttons.press(GamepadButton::Select.code());
    assert!(!holds_leave(&config, &input));
    input.connected = true;
    assert!(holds_leave(&config, &input));
    assert!(!holds_leave(&manual, &input));
    input.buttons.release(GamepadButton::Select.code());
    assert!(!holds_leave(&config, &input));
}

#[test]
fn a_disconnect_lets_go_of_everything() {
    let lobby = Lobby::new(automatic());
    let a = lobby.entity();
    let mut device = PlayerDevice::Gamepad(a);
    let mut input = PlayerInput::default();
    input.connected = true;
    input.buttons.press(GamepadButton::South.code());
    lose_device(&mut device, &mut input);
    assert!(!device.is_connected());
    assert!(input.is_neutral());
    assert!(input.just_released(GamepadButton::South));
    assert!(!input.just_pressed(GamepadButton::South), "that was a frame ago");
    regain_device(&mut device, a);
    assert_eq!(device.gamepad(), Some(a));
}

#[test]
fn releases_of_a_lost_controller_are_seen_for_one_frame() {
    let lobby = Lobby::new(automatic());
    let a = lobby.entity();
    let config = CouchConfig::default();
    let mut device = PlayerDevice::Gamepad(a);
    let mut input = PlayerInput::default();
    let mut held = pad(a);
    held.pressed = vec![GamepadButton::South];
    let gamepads = vec![held];
    read_player_input(&config, &gamepads, &device, &mut input, &Floats);
    assert!(input.pressed(GamepadButton::South));

    // A frame in which the controller is lost.
    lose_device(&mut device, &mut input);
    read_player_input(&config, &Vec::new(), &device, &mut input, &Floats);
    assert!(!input.connected);
    assert!(!input.pressed(GamepadButton::South));
    assert!(input.just_released(GamepadButton::South));
    assert!(!input.just_pressed(GamepadButton::South));

    // The next one.
    read_player_input(&config, &Vec::new(), &device, &mut input, &Floats);
    assert!(!input.just_released(GamepadButton::South));

    // And back again.
    regain_device(&mut device, a);
    read_player_input(&config, &gamepads, &device, &mut input, &Floats);
    assert!(input.just_pressed(GamepadButton::South));
}

#[test]
fn joining_with_the_lost_pad_is_no_borrowing() {
    let mut lobby = Lobby::new(automatic());
    lobby.config.reconnect.match_device = false;
    let a = lobby.entity();
    let joined = lobby.frame(&vec![named(a, "One")]).joined;
    lobby.frame(&Vec::new());
    let again = lobby.entity();
    let changes = lobby.frame(&vec![named(again, "One")]);
    assert_eq!(changes.reconnected.len(), 1);
    assert_eq!(changes.reconnected[0].player_entity, joined[0].player_entity);
    assert!(changes.reconnected[0].same_device);
}

#[test]
fn only_opening_a_slot_spawns() {
    let world = RefCell::new(World::new());
    let e: Vec<Entity> = (0..4).map(|_| world.borrow_mut().spawn_empty().id()).collect();
    let asked: RefCell<Vec<(PlayerId, Entity)>> = RefCell::new(Vec::new());
    let spawn = |id: PlayerId, pad: Entity| {
        asked.borrow_mut().push((id, pad));
        world.borrow_mut().spawn_empty().id()
    };
    let config = automatic().with_max_players(2);
    let mut roster = PlayerRoster::new(2);
    let gamepads: Vec<Gamepad> = e.iter().map(|e| pad(*e)).collect();
    for pad in &e[0..3] {
        roster.request_join(*pad);
    }
    let admissions = admit_players(&mut roster, &config, &gamepads, &spawn);
    assert_eq!(*asked.borrow(), vec![(PlayerId::p1(), e[0]), (PlayerId::p2(), e[1])]);
    assert_eq!(admissions.refused, vec![e[2]], "turned away, and nobody made for it");

    roster.mark_disconnected(PlayerId::p2(), double(1.0));
    roster.request_join(e[0]);
    roster.request_join(e[3]);
    let admissions = admit_players(&mut roster, &config, &gamepads, &spawn);
    assert_eq!(admissions.reconnected.len(), 1);
    assert!(!admissions.reconnected[0].same_device);
    assert!(admissions.joined.is_empty() && admissions.refused.is_empty());
    assert_eq!(asked.borrow().len(), 2, "nobody made for a restored player");
}

#[test]
fn a_hold_is_taken_from_the_input() {
    let config = CouchConfig::default();
    let mut input = PlayerInput::default();
    input.connected = true;
    input.buttons.press(GamepadButton::Select.code());
    let entry = PlayerHold::new(PlayerId::p2(), hold(0.5, 1.5), &config, &input);
    assert_eq!(entry.player, PlayerId::p2());
    assert!(entry.holding);
    assert_eq!(entry.hold.held_secs, single(0.5));
    input.buttons.release(GamepadButton::Select.code());
    assert!(!PlayerHold::new(PlayerId::p2(), hold(0.5, 1.5), &config, &input).holding);
}

#[test]
fn every_idle_pad_is_unassigned_once() {
    let mut lobby = Lobby::new(automatic().with_max_players(1));
    let e: Vec<Entity> = (0..4).map(|_| lobby.entity()).collect();
    lobby.frame(&vec![named(e[0], "One")]);
    let gamepads: Vec<Gamepad> =
        vec![named(e[1], "Two"), named(e[2], "One"), pad(e[3]), named(e[0], "One")];
    lobby.frame(&gamepads);
    assert_eq!(lobby.roster.unassigned_gamepads(), &[e[1], e[2], e[3]]);
    // Its own controller gone, the look-alike is handed over and leaves the pool.
    let changes = sync_devices(
        &mut lobby.roster,
        &lobby.config,
        double(9.0),
        &Vec::new(),
        &vec![named(e[1], "Two"), named(e[2], "One"), pad(e[3])],
    );
    assert_eq!(changes.reconnected.len(), 1);
    assert_eq!(changes.reconnected[0].gamepad, e[2]);
    assert_eq!(lobby.roster.unassigned_gamepads(), &[e[1], e[3]]);
}
