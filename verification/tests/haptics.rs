//! Rumble patterns and channels.

use bevy_couch_multiplayer::{
    drive_haptics, Arithmetic, CouchConfig, Double, PlayerDevice, Rumble, RumbleKey,
    RumblePattern, RumbleRequest, Single,
};
use bevy_ecs::entity::Entity;
use bevy_ecs::world::World;

fn single(value: f32) -> Single {
    Single::from_bits(value.to_bits())
}

fn float(value: Single) -> f32 {
    f32::from_bits(value.to_bits())
}

struct Floats;

impl Arithmetic for Floats {
    fn plus(&self, a: Single, b: Single) -> Single {
        single(float(a) + float(b))
    }

    fn minus(&self, a: Single, b: Single) -> Single {
        single(float(a) - float(b))
    }

    fn times(&self, a: Single, b: Single) -> Single {
        single(float(a) * float(b))
    }

    fn over(&self, a: Single, b: Single) -> Single {
        single(float(a) / float(b))
    }

    fn rem_euclid(&self, a: Single, b: Single) -> Single {
        single(float(a).rem_euclid(float(b)))
    }

    fn length(&self, x: Single, y: Single) -> Single {
        single(bevy_math::Vec2::new(float(x), float(y)).length())
    }

    fn unit(&self, x: Single, y: Single) -> (Single, Single) {
        let unit = bevy_math::Vec2::new(float(x), float(y)).normalize_or_zero();
        (single(unit.x), single(unit.y))
    }

    fn double_minus(&self, a: Double, b: Double) -> Double {
        Double::from_bits((f64::from_bits(a.to_bits()) - f64::from_bits(b.to_bits())).to_bits())
    }

    fn widen(&self, a: Single) -> Double {
        Double::from_bits((float(a) as f64).to_bits())
    }

    fn narrow(&self, a: Double) -> Single {
        single(f64::from_bits(a.to_bits()) as f32)
    }
}

/// Real `Entity` ids without depending on any raw-id constructor.
fn ids(n: usize) -> Vec<Entity> {
    let mut world = World::new();
    (0..n).map(|_| world.spawn_empty().id()).collect()
}

fn key(at: f32, strong: f32, weak: f32) -> RumbleKey {
    RumbleKey::new(single(at), single(strong), single(weak))
}

fn sample(pattern: &RumblePattern, t: f32) -> (f32, f32) {
    let (strong, weak) = pattern.sample(single(t), &Floats);
    (float(strong), float(weak))
}

fn constant(strong: f32, weak: f32, secs: f32) -> RumblePattern {
    RumblePattern::constant(single(strong), single(weak), single(secs))
}

fn advance(rumble: &mut Rumble, dt: f32, max: usize) -> (f32, f32) {
    let (strong, weak) = rumble.advance(single(dt), max, &Floats);
    (float(strong), float(weak))
}

#[test]
fn samples_between_keys() {
    let p = RumblePattern::new(vec![key(0.0, 0.0, 0.0), key(1.0, 1.0, 0.5)]);
    let (s, w) = sample(&p, 0.5);
    assert!((s - 0.5).abs() < 1e-5);
    assert!((w - 0.25).abs() < 1e-5);
}

#[test]
fn keys_are_sorted_on_construction() {
    let p = RumblePattern::new(vec![key(1.0, 1.0, 0.0), key(0.0, 0.0, 0.0)]);
    assert_eq!(p.keys()[0].at, single(0.0));
    assert_eq!(p.duration(), single(1.0));
}

#[test]
fn clamps_outside_range() {
    let p = constant(0.4, 0.2, 1.0);
    assert_eq!(sample(&p, -1.0), (0.4, 0.2));
    assert_eq!(sample(&p, 99.0), (0.4, 0.2));
}

#[test]
fn an_empty_pattern_is_silent() {
    assert_eq!(
        sample(&RumblePattern::new(Vec::<RumbleKey>::new()), 0.5),
        (0.0, 0.0)
    );
}

#[test]
fn samples_correctly_across_many_keys() {
    let p = RumblePattern::new(vec![
        key(0.0, 0.0, 0.0),
        key(1.0, 1.0, 0.0),
        key(2.0, 0.0, 0.0),
        key(3.0, 1.0, 0.0),
    ]);
    assert!((sample(&p, 2.5).0 - 0.5).abs() < 1e-5);
    assert!((sample(&p, 1.0).0 - 1.0).abs() < 1e-5);
}

#[test]
fn looping_wraps() {
    let p = RumblePattern::new(vec![key(0.0, 1.0, 0.0), key(1.0, 0.0, 0.0)]).looping();
    let (a, _) = sample(&p, 0.25);
    let (b, _) = sample(&p, 1.25);
    assert!((a - b).abs() < 1e-5);
}

#[test]
fn scaling_keeps_the_shape() {
    let quiet = RumblePattern::hit(single(1.0), &Floats).scaled(single(0.5), &Floats);
    assert!((sample(&quiet, 0.0).0 - 0.5).abs() < 1e-5);
    assert_eq!(quiet.duration(), RumblePattern::hit(single(1.0), &Floats).duration());
}

#[test]
fn only_top_priority_is_audible() {
    let mut r = Rumble::default();
    r.play_with_priority(constant(0.2, 0.2, 10.0), 0);
    r.play_with_priority(constant(0.9, 0.0, 10.0), 5);
    let (s, w) = advance(&mut r, 0.016, 8);
    assert!((s - 0.9).abs() < 1e-5);
    assert_eq!(w, 0.0, "low-priority track should be silenced entirely");
}

#[test]
fn budget_evicts_lowest_priority() {
    let mut r = Rumble::default();
    for _ in 0..5 {
        r.play_with_priority(constant(0.1, 0.1, 10.0), 0);
    }
    r.play_with_priority(constant(1.0, 1.0, 10.0), 9);
    advance(&mut r, 0.0, 2);
    assert_eq!(r.track_count(), 2);
    assert!(r.tracks.iter().any(|t| t.priority == 9));
}

#[test]
fn budget_keeps_the_freshest_of_equal_priority() {
    let mut r = Rumble::default();
    r.play(constant(0.1, 0.0, 10.0));
    r.play(constant(0.9, 0.0, 10.0));
    let (strong, _) = advance(&mut r, 0.0, 1);
    assert!((strong - 0.9).abs() < 1e-5, "the newest effect should survive");
}

#[test]
fn finished_tracks_are_dropped() {
    let mut r = Rumble::default();
    r.play(constant(1.0, 1.0, 0.1));
    advance(&mut r, 0.2, 8);
    assert!(!r.is_playing());
}

#[test]
fn a_loop_can_be_stopped_by_handle() {
    let mut r = Rumble::default();
    let hum = r.play(RumblePattern::texture(single(0.3)));
    let hit = r.play(RumblePattern::hit(single(1.0), &Floats));

    assert!(r.is_active(hum));
    assert!(r.stop(hum));
    assert!(!r.is_active(hum));
    assert!(r.is_active(hit), "unrelated effects keep playing");
    assert!(!r.stop(hum), "stopping twice is a no-op");
}

#[test]
fn loops_outlive_their_duration() {
    let mut r = Rumble::default();
    r.play(RumblePattern::texture(single(0.3)));
    advance(&mut r, 10.0, 8);
    assert!(r.is_playing());
}

fn keys_of(pattern: &RumblePattern) -> Vec<(f32, f32, f32)> {
    pattern.keys().iter().map(|k| (float(k.at), float(k.strong), float(k.weak))).collect()
}

#[test]
fn built_in_patterns_have_their_keys() {
    let hit = RumblePattern::hit(single(0.8), &Floats);
    assert_eq!(
        keys_of(&hit),
        vec![(0.0, 0.8, 0.8 * 0.8), (0.05, 0.8, 0.8 * 0.6), (0.18, 0.0, 0.0)]
    );
    assert!(!hit.repeats());

    let explosion = RumblePattern::explosion(single(0.9), &Floats);
    assert_eq!(
        keys_of(&explosion),
        vec![
            (0.0, 0.9, 0.9),
            (0.08, 0.9 * 0.9, 0.9 * 0.35),
            (0.45, 0.9 * 0.35, 0.05),
            (0.9, 0.0, 0.0)
        ]
    );

    let heartbeat = RumblePattern::heartbeat(single(0.5), &Floats);
    assert_eq!(
        keys_of(&heartbeat),
        vec![
            (0.0, 0.5, 0.0),
            (0.10, 0.0, 0.0),
            (0.22, 0.5 * 0.7, 0.0),
            (0.32, 0.0, 0.0),
            (1.10, 0.0, 0.0)
        ]
    );
    assert_eq!(heartbeat.duration(), single(1.10));

    let ramp = RumblePattern::ramp_up(single(0.5), single(2.0), &Floats);
    assert_eq!(keys_of(&ramp), vec![(0.0, 0.0, 0.0), (2.0, 0.5 * 0.6, 0.5)]);

    let texture = RumblePattern::texture(single(0.3));
    assert_eq!(keys_of(&texture), vec![(0.0, 0.0, 0.3), (0.25, 0.0, 0.3)]);
    assert!(texture.repeats());
}

#[test]
fn keys_at_the_same_time_keep_their_order() {
    let p = RumblePattern::new(vec![
        key(1.0, 0.1, 0.0),
        key(0.0, 0.2, 0.0),
        key(1.0, 0.3, 0.0),
        key(0.0, 0.4, 0.0),
    ]);
    let strong: Vec<f32> = p.keys().iter().map(|k| float(k.strong)).collect();
    assert_eq!(strong, vec![0.2, 0.4, 0.1, 0.3]);
    // A step: the time of the step itself is at the level behind it.
    let step = RumblePattern::new(vec![
        key(0.0, 0.0, 0.0),
        key(1.0, 0.0, 0.0),
        key(1.0, 1.0, 1.0),
        key(2.0, 1.0, 1.0),
    ]);
    assert_eq!(sample(&step, 1.0), (1.0, 1.0));
    assert_eq!(sample(&step, 1.5), (1.0, 1.0));
}

#[test]
fn a_negative_time_starts_before_the_first_key() {
    let p = constant(0.4, 0.2, -1.0);
    assert_eq!(p.duration(), single(0.0));
    assert_eq!(keys_of(&p)[0].0, -1.0);
}

#[test]
fn nonsense_times_sample_the_first_key() {
    let p = RumblePattern::new(vec![key(0.0, 0.25, 0.5), key(1.0, 1.0, 1.0)]);
    assert_eq!(sample(&p, f32::NAN), (0.25, 0.5));
}

#[test]
fn a_negative_scale_silences() {
    let p = constant(0.4, 0.2, 1.0).scaled(single(-3.0), &Floats);
    assert_eq!(sample(&p, 0.5), (0.0, 0.0));
    let loud = constant(0.4, 0.2, 1.0).looping().scaled(single(2.0), &Floats);
    assert_eq!(sample(&loud, 0.0), (0.8, 0.4));
    assert!(loud.repeats());
}

#[test]
fn a_cloned_pattern_plays_the_same() {
    let p = RumblePattern::new(vec![key(0.0, 0.5, 0.25), key(1.0, 1.0, 0.5)]).looping();
    let copy = p.clone();
    assert_eq!(copy, p);
    assert_eq!(copy.keys().len(), 2);
    assert_eq!(sample(&copy, 0.5), sample(&p, 0.5));
    assert_eq!(copy.duration(), single(1.0));
    assert!(copy.repeats());
}

#[test]
fn equal_priorities_mix_by_maximum() {
    let mut r = Rumble::default();
    r.play(constant(0.7, 0.1, 10.0));
    r.play(constant(0.6, 0.8, 10.0));
    assert_eq!(advance(&mut r, 0.5, 8), (0.7, 0.8));
    assert_eq!(advance(&mut r, 20.0, 8), (0.0, 0.0));
}

#[test]
fn no_budget_plays_nothing() {
    let mut r = Rumble::default();
    r.play(constant(0.7, 0.1, 10.0));
    assert_eq!(advance(&mut r, 0.5, 0), (0.0, 0.0));
    assert!(!r.is_playing());
}

#[test]
fn the_budget_takes_the_oldest_of_the_lowest() {
    let mut r = Rumble::default();
    let a = r.play_with_priority(constant(0.1, 0.0, 10.0), 1);
    let b = r.play_with_priority(constant(0.2, 0.0, 10.0), 0);
    let c = r.play_with_priority(constant(0.3, 0.0, 10.0), 1);
    let d = r.play_with_priority(constant(0.4, 0.0, 10.0), 0);
    r.enforce_budget(3);
    assert_eq!([a, b, c, d].map(|h| r.is_active(h)), [true, false, true, true]);
    r.enforce_budget(2);
    assert_eq!([a, b, c, d].map(|h| r.is_active(h)), [true, false, true, false]);
    r.enforce_budget(1);
    assert_eq!([a, b, c, d].map(|h| r.is_active(h)), [false, false, true, false]);
}

#[test]
fn stopping_what_was_played_undoes_it() {
    let mut r = Rumble::default();
    let first = r.pulse(single(0.5), single(0.5), single(1.0));
    let second = r.pulse(single(0.6), single(0.6), single(1.0));
    assert_eq!(r.track_count(), 2);
    assert_ne!(first, second);
    assert!(r.stop(second));
    assert_eq!(r.track_count(), 1);
    assert!(r.is_active(first));
    r.stop_all();
    assert!(!r.is_active(first));
    assert_eq!(r.track_count(), 0);
}

fn drive(r: &mut Rumble, device: &PlayerDevice, config: &CouchConfig, dt: f32) -> Vec<RumbleRequest> {
    drive_haptics(device, r, config, single(dt), true, &Floats)
}

fn is_stop(request: &RumbleRequest, pad: Entity) -> bool {
    matches!(request, RumbleRequest::Stop { gamepad } if *gamepad == pad)
}

fn is_add(request: &RumbleRequest, pad: Entity, level: (f32, f32)) -> bool {
    matches!(request, RumbleRequest::Add { gamepad, duration, strong, weak }
        if *gamepad == pad
            && float(*duration) == 0.30
            && (float(*strong), float(*weak)) == level)
}

#[test]
fn an_effect_is_sent_once_and_refreshed() {
    let e = ids(1);
    let device = PlayerDevice::Gamepad(e[0]);
    let config = CouchConfig::default();
    let mut r = Rumble::default();
    r.play(constant(0.5, 0.25, 10.0));
    let sent = drive(&mut r, &device, &config, 0.0625);
    assert_eq!(sent.len(), 2);
    assert!(is_stop(&sent[0], e[0]));
    assert!(is_add(&sent[1], e[0], (0.5, 0.25)));
    assert_eq!(r.current(), (single(0.5), single(0.25)));
    // Nothing new: nothing sent until the refresh is due.
    assert!(drive(&mut r, &device, &config, 0.0625).is_empty());
    assert!(drive(&mut r, &device, &config, 0.0625).is_empty());
    let sent = drive(&mut r, &device, &config, 0.0625);
    assert_eq!(sent.len(), 2);
    assert!(is_stop(&sent[0], e[0]));
    assert!(is_add(&sent[1], e[0], (0.5, 0.25)));
}

#[test]
fn a_change_is_sent_at_once_and_silence_stops() {
    let e = ids(1);
    let device = PlayerDevice::Gamepad(e[0]);
    let config = CouchConfig::default();
    let mut r = Rumble::default();
    r.play(constant(0.5, 0.25, 10.0));
    drive(&mut r, &device, &config, 0.01);
    r.play(constant(0.51, 0.26, 10.0));
    assert!(drive(&mut r, &device, &config, 0.01).is_empty(), "too small to tell");
    r.play(constant(0.51, 0.30, 10.0));
    let sent = drive(&mut r, &device, &config, 0.01);
    assert_eq!(sent.len(), 2);
    assert!(is_add(&sent[1], e[0], (0.51, 0.30)));
    r.stop_all();
    let sent = drive(&mut r, &device, &config, 0.01);
    assert_eq!(sent.len(), 1);
    assert!(is_stop(&sent[0], e[0]));
    assert_eq!(r.current(), (single(0.0), single(0.0)));
    assert!(drive(&mut r, &device, &config, 0.01).is_empty());
}

#[test]
fn settings_scale_and_switch_off() {
    let e = ids(1);
    let device = PlayerDevice::Gamepad(e[0]);
    let mut r = Rumble::default();
    r.play(constant(0.5, 0.25, 10.0));
    let half = CouchConfig::default().with_rumble_scale(single(0.5));
    let sent = drive(&mut r, &device, &half, 0.01);
    assert!(is_add(&sent[1], e[0], (0.25, 0.125)));
    let off = CouchConfig::default().without_rumble();
    let sent = drive(&mut r, &device, &off, 0.01);
    assert_eq!(sent.len(), 1);
    assert!(is_stop(&sent[0], e[0]));
    assert!(drive(&mut r, &device, &off, 0.01).is_empty());
    assert!(r.is_playing(), "only the output is off");
    // A scale out of range is held in range.
    let mut loud = CouchConfig::default();
    loud.rumble_scale = single(9.0);
    let sent = drive(&mut r, &device, &loud, 0.01);
    assert!(is_add(&sent[1], e[0], (0.5, 0.25)));
}

#[test]
fn swapped_hardware_is_told_again() {
    let e = ids(2);
    let config = CouchConfig::default();
    let mut r = Rumble::default();
    r.play(constant(0.5, 0.25, 10.0));
    drive(&mut r, &PlayerDevice::Gamepad(e[0]), &config, 0.01);
    let sent = drive(&mut r, &PlayerDevice::Gamepad(e[1]), &config, 0.01);
    assert_eq!(sent.len(), 2);
    assert!(is_stop(&sent[0], e[1]));
    assert!(is_add(&sent[1], e[1], (0.5, 0.25)));
    assert_eq!(r.last_gamepad, Some(e[1]));
}

#[test]
fn missing_hardware_drops_everything() {
    let e = ids(1);
    let config = CouchConfig::default();
    let mut r = Rumble::default();
    r.play(constant(0.5, 0.25, 10.0));
    drive(&mut r, &PlayerDevice::Gamepad(e[0]), &config, 0.01);
    assert!(drive(&mut r, &PlayerDevice::Missing, &config, 0.01).is_empty());
    assert!(!r.is_playing());
    assert!(!r.emitting);
    assert_eq!(r.last_gamepad, None);
    assert_eq!(r.next_id, 1);
    // Hardware that vanished in this very frame: wait and see.
    r.play(constant(0.5, 0.25, 10.0));
    let device = PlayerDevice::Gamepad(e[0]);
    let sent = drive_haptics(&device, &mut r, &config, single(0.01), false, &Floats);
    assert!(sent.is_empty());
    assert!(r.is_playing());
    assert_eq!(r.last_gamepad, None);
}

#[test]
fn a_first_key_without_a_time_cannot_be_played() {
    let mut r = Rumble::default();
    r.play(constant(0.5, 0.25, 1.0));
    assert!(r.is_playable());
    let odd = RumblePattern::new(vec![key(f32::NAN, 1.0, 1.0)]);
    assert!(!odd.is_playable());
    assert!(RumblePattern::new(Vec::new()).is_playable());
    r.play(odd);
    assert!(!r.is_playable());
}

#[test]
fn keys_without_a_time_matter_only_where_they_are_heard() {
    let odd = RumblePattern::new(vec![key(f32::NAN, 0.5, 0.25)]);
    assert!(!odd.can_sample(single(0.5), &Floats));
    assert!(odd.can_sample(single(f32::NAN), &Floats));
    assert_eq!(sample(&odd, f32::NAN), (0.5, 0.25));
    let ended = RumblePattern::new(vec![key(f32::NAN, 0.5, 0.25), key(1.0, 0.75, 1.0)]);
    assert!(!ended.can_sample(single(0.5), &Floats));
    assert!(ended.can_sample(single(1.0), &Floats));
    assert_eq!(sample(&ended, 2.0), (0.75, 1.0));
    assert!(constant(0.5, 0.5, 1.0).can_sample(single(0.5), &Floats));
    assert!(RumblePattern::new(Vec::new()).can_sample(single(0.5), &Floats));

    // Playing, but not yet over: nothing to mix it from.
    let mut r = Rumble::default();
    r.play(ended.looping());
    assert!(!r.can_advance(single(0.25), 8, &Floats));
    // Evicted, or outranked, it does no harm.
    assert!(r.can_advance(single(0.25), 0, &Floats));
    r.play_with_priority(constant(0.5, 0.25, 10.0), 1);
    assert!(r.can_advance(single(0.25), 8, &Floats));
    assert_eq!(advance(&mut r, 0.25, 8), (0.5, 0.25));
    // Nor does it without hardware.
    r.play_with_priority(odd, 9);
    let config = CouchConfig::default();
    assert!(drive(&mut r, &PlayerDevice::Missing, &config, 0.25).is_empty());
    assert!(!r.is_playing());
}

#[test]
fn nothing_playing_reads_as_zero() {
    let e = ids(1);
    let mut r = Rumble::default();
    r.play(constant(0.5, 0.25, 10.0));
    drive(&mut r, &PlayerDevice::Gamepad(e[0]), &CouchConfig::default(), 0.01);
    assert_eq!(r.current(), (single(0.5), single(0.25)));
    r.stop_all();
    assert!(r.emitting);
    assert_eq!(r.current(), (single(0.0), single(0.0)));
}

#[test]
fn a_handle_stops_exactly_one_effect() {
    let mut r = Rumble::default();
    let handles: Vec<_> = (0..4).map(|_| r.play(constant(0.5, 0.5, 10.0))).collect();
    assert!(r.stop(handles[2]));
    assert_eq!(r.track_count(), 3);
    let left: Vec<bool> = handles.iter().map(|h| r.is_active(*h)).collect();
    assert_eq!(left, vec![true, true, false, true]);
    assert!(!r.stop(handles[2]));
    assert_eq!(r.track_count(), 3);
}

#[test]
fn scaling_scales_the_ends() {
    let p = RumblePattern::new(vec![key(0.0, 0.5, 0.25), key(1.0, 1.0, 0.75)]);
    let half = p.scaled(single(0.5), &Floats);
    for t in [-1.0, 0.0, 1.0, 9.0] {
        let (strong, weak) = sample(&p, t);
        assert_eq!(sample(&half, t), (strong * 0.5, weak * 0.5));
    }
}

#[test]
fn a_factor_of_nothing_silences_at_any_time() {
    let p = RumblePattern::new(vec![key(0.0, 0.5, 0.25), key(1.0, 1.0, 0.75), key(2.0, 0.0, 1.0)]);
    for factor in [0.0, -0.0, -2.0, f32::NAN] {
        let quiet = p.scaled(single(factor), &Floats);
        for t in [-1.0, 0.0, 0.3, 1.0, 1.7, 2.0, 9.0] {
            assert_eq!(sample(&quiet, t), (0.0, 0.0));
        }
    }
}

#[test]
fn scaling_scales_the_level_between_keys() {
    let p = RumblePattern::new(vec![key(0.0, 0.1, 0.9), key(0.7, 0.8, 0.3), key(1.1, 0.2, 0.7)]);
    for factor in [0.3, 0.5, 1.0, 2.7] {
        let scaled = p.scaled(single(factor), &Floats);
        for step in 0..30 {
            let t = step as f32 * 0.04;
            let (strong, weak) = sample(&p, t);
            let (scaled_strong, scaled_weak) = sample(&scaled, t);
            assert!((scaled_strong - strong * factor).abs() < 1e-5);
            assert!((scaled_weak - weak * factor).abs() < 1e-5);
        }
    }
}

#[test]
fn a_scale_of_nothing_is_silent() {
    let e = ids(1);
    let device = PlayerDevice::Gamepad(e[0]);
    let mut r = Rumble::default();
    r.play(constant(0.5, 0.25, 10.0));
    drive(&mut r, &device, &CouchConfig::default(), 0.01);
    let mut off = CouchConfig::default();
    off.rumble_scale = single(-1.0);
    let sent = drive(&mut r, &device, &off, 0.01);
    assert_eq!(sent.len(), 1);
    assert!(is_stop(&sent[0], e[0]));
    assert!(!r.emitting);
    assert!(drive(&mut r, &device, &off, 0.01).is_empty());
}

#[test]
fn handles_are_told_apart() {
    let mut one = Rumble::default();
    let mut two = Rumble::default();
    let a = one.play(constant(0.5, 0.5, 1.0));
    let b = one.play(constant(0.5, 0.5, 1.0));
    let c = two.play(constant(0.5, 0.5, 1.0));
    assert_ne!(a, b);
    assert_eq!(a, c, "a handle is the number of an effect on its own channel");
}
