//! Settings, and the numbers they are made of.

use bevy_couch_multiplayer::{
    CouchConfig, CouchMultiplayerPlugin, Double, GamepadButton, JoinMode, JoinTrigger, LeaveMode,
    ReconnectPolicy, Single,
};

fn single(value: f32) -> Single {
    Single::from_bits(value.to_bits())
}

fn float(value: Single) -> f32 {
    f32::from_bits(value.to_bits())
}

fn double(value: f64) -> Double {
    Double::from_bits(value.to_bits())
}

#[test]
fn the_defaults_are_those_of_a_living_room() {
    let config = CouchConfig::default();
    assert_eq!(config.max_players, 4);
    assert!(matches!(
        config.join_mode,
        JoinMode::PressToJoin(JoinTrigger::Button(GamepadButton::Start))
    ));
    assert!(matches!(
        config.leave_mode,
        LeaveMode::HoldButton { button: GamepadButton::Select, .. }
    ));
    assert!(config.reconnect.grace_secs.is_none());
    assert!(config.reconnect.match_device);
    assert!(config.reconnect.adopt_any);
    assert_eq!(float(config.stick_deadzone), 0.12);
    assert_eq!(float(config.trigger_deadzone), 0.05);
    assert!(config.rumble_enabled);
    assert_eq!(float(config.rumble_scale), 1.0);
    assert_eq!(config.max_rumble_tracks, 8);
}

#[test]
fn builders_hold_values_in_range() {
    let config = CouchConfig::default()
        .with_max_players(0)
        .with_stick_deadzone(single(2.0))
        .with_trigger_deadzone(single(-2.0))
        .with_rumble_scale(single(7.0))
        .with_max_rumble_tracks(3)
        .with_hold_to_leave(GamepadButton::Mode, single(-4.0))
        .without_rumble();
    assert_eq!(config.max_players, 1);
    assert_eq!(float(config.stick_deadzone), 0.95);
    assert_eq!(float(config.trigger_deadzone), 0.0);
    assert_eq!(float(config.rumble_scale), 1.0);
    assert_eq!(config.max_rumble_tracks, 3);
    assert_eq!(float(config.leave_hold_secs()), 0.0);
    assert!(!config.rumble_enabled);
    let held = CouchConfig::default().with_hold_to_leave(GamepadButton::Mode, single(2.5));
    assert_eq!(float(held.leave_hold_secs()), 2.5);
    let manual = CouchConfig::default().with_leave_mode(LeaveMode::Manual);
    assert_eq!(float(manual.leave_hold_secs()), 0.0);
}

#[test]
fn policies_are_spelled_out() {
    let forgiving = ReconnectPolicy::forgiving();
    assert!(forgiving.grace_secs.is_none() && forgiving.match_device && forgiving.adopt_any);
    let strict = ReconnectPolicy::strict(single(30.0));
    assert_eq!(strict.grace_secs.map(float), Some(30.0));
    assert!(strict.match_device && !strict.adopt_any);
    assert_eq!(ReconnectPolicy::strict(single(-1.0)).grace_secs.map(float), Some(0.0));
}

#[test]
fn a_plugin_spells_setup_like_its_config() {
    let plugin = CouchMultiplayerPlugin::new(0)
        .with_join_mode(JoinMode::Automatic)
        .with_hold_to_leave(GamepadButton::Select, single(2.0))
        .with_reconnect(ReconnectPolicy::strict(single(5.0)))
        .with_stick_deadzone(single(0.2))
        .with_trigger_deadzone(single(0.1))
        .with_rumble_scale(single(0.5))
        .with_max_rumble_tracks(2)
        .without_rumble();
    assert_eq!(plugin.config.max_players, 1);
    assert!(plugin.rejoins_at_once());
    assert_eq!(float(plugin.config.leave_hold_secs()), 2.0);
    assert_eq!(plugin.config.reconnect.grace_secs.map(float), Some(5.0));
    assert_eq!(float(plugin.config.stick_deadzone), 0.2);
    assert_eq!(float(plugin.config.trigger_deadzone), 0.1);
    assert_eq!(float(plugin.config.rumble_scale), 0.5);
    assert_eq!(plugin.config.max_rumble_tracks, 2);
    assert!(!plugin.config.rumble_enabled);
    let manual = plugin.with_leave_mode(LeaveMode::Manual).with_max_players(3);
    assert!(!manual.rejoins_at_once());
    assert_eq!(manual.config.max_players, 3);
    assert!(!CouchMultiplayerPlugin::default().rejoins_at_once());
    let from = CouchMultiplayerPlugin::from(CouchConfig::default().with_max_players(7));
    assert_eq!(from.config.max_players, 7);
    assert_eq!(CouchMultiplayerPlugin::from_config(from.config).config.max_players, 7);
}

#[test]
fn singles_are_ordered_like_floats() {
    let values = [
        f32::NEG_INFINITY,
        -2.5,
        -f32::MIN_POSITIVE,
        -1e-45,
        -0.0,
        0.0,
        1e-45,
        0.5,
        1.0,
        f32::MAX,
        f32::INFINITY,
        f32::NAN,
        -f32::NAN,
    ];
    for a in values {
        assert_eq!(single(a).is_nan(), a.is_nan());
        assert_eq!(float(single(a).abs()).to_bits(), a.abs().to_bits());
        for b in values {
            assert_eq!(single(a).less_than(single(b)), a < b, "{a} {b}");
            assert_eq!(single(a).at_most(single(b)), a <= b, "{a} {b}");
            assert_eq!(single(a).equals(single(b)), a == b, "{a} {b}");
            assert_eq!(single(a) == single(b), a == b, "{a} {b}");
            let larger = float(single(a).max(single(b)));
            assert!(larger == a.max(b) || (larger.is_nan() && a.max(b).is_nan()), "{a} {b}");
        }
        let held = float(single(a).clamp(single(0.0), single(1.0)));
        assert!(held == a.clamp(0.0, 1.0) || (held.is_nan() && a.is_nan()), "{a}");
    }
}

#[test]
fn doubles_are_ordered_like_floats() {
    let values = [f64::NEG_INFINITY, -2.5, -5e-324, -0.0, 0.0, 5e-324, 1.0, f64::MAX, f64::NAN];
    for a in values {
        assert_eq!(double(a).is_nan(), a.is_nan());
        for b in values {
            assert_eq!(double(a).less_than(double(b)), a < b, "{a} {b}");
            assert_eq!(double(a).at_most(double(b)), a <= b, "{a} {b}");
            assert_eq!(double(a).equals(double(b)), a == b, "{a} {b}");
            let larger = f64::from_bits(double(a).max(double(b)).to_bits());
            assert!(larger == a.max(b) || (larger.is_nan() && a.max(b).is_nan()), "{a} {b}");
        }
    }
}
