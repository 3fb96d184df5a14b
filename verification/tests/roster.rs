//! The roster.

use bevy_couch_multiplayer::{
    any_player_disconnected, any_player_joined, lobby_is_full, Arithmetic, DeviceFingerprint,
    Double, GamepadBrand, LeaveReason, PlayerDevice, PlayerId, PlayerRoster, Single,
};
use bevy_ecs::entity::Entity;
use bevy_ecs::world::World;

fn single(value: f32) -> Single {
    Single::from_bits(value.to_bits())
}

fn float(value: Single) -> f32 {
    f32::from_bits(value.to_bits())
}

fn double(value: f64) -> Double {
    Double::from_bits(value.to_bits())
}

struct Floats;

impl Arithmetic for Floats {
    fn plus(&self, a: Single, b: Single) -> Single {
        single(float(a) + float(b))
    }

    fn minus(&self, a: Single, b: Single) -> Single {
        single(float(a) - float(b))
    }

    fn times(&self, a: Single, b: Single) -> Single {
        single(float(a) * float(b))
    }

    fn over(&self, a: Single, b: Single) -> Single {
        single(float(a) / float(b))
    }

    fn rem_euclid(&self, a: Single, b: Single) -> Single {
        single(float(a).rem_euclid(float(b)))
    }

    fn length(&self, x: Single, y: Single) -> Single {
        single(bevy_math::Vec2::new(float(x), float(y)).length())
    }

    fn unit(&self, x: Single, y: Single) -> (Single, Single) {
        let unit = bevy_math::Vec2::new(float(x), float(y)).normalize_or_zero();
        (single(unit.x), single(unit.y))
    }

    fn double_minus(&self, a: Double, b: Double) -> Double {
        Double::from_bits((f64::from_bits(a.to_bits()) - f64::from_bits(b.to_bits())).to_bits())
    }

    fn widen(&self, a: Single) -> Double {
        Double::from_bits((float(a) as f64).to_bits())
    }

    fn narrow(&self, a: Double) -> Single {
        single(f64::from_bits(a.to_bits()) as f32)
    }
}

/// Real `Entity` ids without depending on any raw-id constructor.
fn ids(n: usize) -> Vec<Entity> {
    let mut world = World::new();
    (0..n).map(|_| world.spawn_empty().id()).collect()
}

fn fingerprint(product: u16) -> DeviceFingerprint {
    DeviceFingerprint {
        name: Some("Test Pad".into()),
        vendor_id: Some(0x054C),
        product_id: Some(product),
    }
}

/// Joins `pad` into the first free slot, as `process_membership` does.
fn join(roster: &mut PlayerRoster, player: Entity, pad: Entity, fp: DeviceFingerprint) -> PlayerId {
    let id = roster.first_free_slot().expect("a free slot");
    roster.occupy(id, player, pad, fp);
    id
}

#[test]
fn slots_fill_from_the_lowest_free_one() {
    let e = ids(6);
    let mut roster = PlayerRoster::new(4);

    assert_eq!(join(&mut roster, e[0], e[1], fingerprint(1)), PlayerId::p1());
    assert_eq!(join(&mut roster, e[2], e[3], fingerprint(2)), PlayerId::p2());
    assert_eq!(roster.player_count(), 2);
    assert!(!roster.is_full());
}

#[test]
fn vacated_slots_are_reused_before_higher_ones() {
    // P1 leaving must not renumber P2 into P1.
    let e = ids(8);
    let mut roster = PlayerRoster::new(4);
    join(&mut roster, e[0], e[1], fingerprint(1));
    join(&mut roster, e[2], e[3], fingerprint(2));

    roster.vacate(PlayerId::p1());

    assert!(roster.is_joined(PlayerId::p2()));
    assert_eq!(roster.first_free_slot(), Some(PlayerId::p1()));
}

#[test]
fn a_full_lobby_has_no_free_slot() {
    let e = ids(4);
    let mut roster = PlayerRoster::new(2);
    join(&mut roster, e[0], e[1], fingerprint(1));
    join(&mut roster, e[2], e[3], fingerprint(2));

    assert!(roster.is_full());
    assert_eq!(roster.first_free_slot(), None);
}

#[test]
fn disconnect_holds_the_slot() {
    let e = ids(2);
    let mut roster = PlayerRoster::new(4);
    let id = join(&mut roster, e[0], e[1], fingerprint(1));

    assert_eq!(roster.mark_disconnected(id, double(10.0)), Some(e[0]));

    assert!(roster.is_joined(id), "the slot is held, not freed");
    assert!(!roster.is_connected(id));
    assert_eq!(roster.player_entity(id), Some(e[0]), "entity survives");
    assert!(roster.any_disconnected());
}

#[test]
fn disconnecting_twice_is_ignored() {
    let e = ids(2);
    let mut roster = PlayerRoster::new(4);
    let id = join(&mut roster, e[0], e[1], fingerprint(1));

    roster.mark_disconnected(id, double(10.0));
    assert_eq!(
        roster.mark_disconnected(id, double(20.0)),
        None,
        "the second one must not reset the waiting clock"
    );
    assert_eq!(
        roster.get(id).unwrap().waiting_secs(double(30.0), &Floats),
        Some(single(20.0))
    );
}

#[test]
fn the_same_controller_finds_its_own_slot() {
    let e = ids(6);
    let mut roster = PlayerRoster::new(4);
    join(&mut roster, e[0], e[1], fingerprint(1));
    let p2 = join(&mut roster, e[2], e[3], fingerprint(2));
    roster.mark_disconnected(p2, double(5.0));

    assert_eq!(roster.waiting_slot_matching(&fingerprint(2)), Some(p2));
    assert_eq!(
        roster.waiting_slot_matching(&fingerprint(99)),
        None,
        "an unrelated pad must not steal a held slot"
    );

    assert_eq!(roster.attach_device(p2, e[4], fingerprint(2)), Some(e[2]));
    assert!(roster.is_connected(p2));
    assert_eq!(roster.get(p2).unwrap().gamepad(), Some(e[4]));
}

#[test]
fn a_connected_slot_is_never_offered_to_a_matching_pad() {
    let e = ids(4);
    let mut roster = PlayerRoster::new(4);
    join(&mut roster, e[0], e[1], fingerprint(1));

    // Two identical controllers: the second must not adopt the first's slot.
    assert_eq!(roster.waiting_slot_matching(&fingerprint(1)), None);
}

#[test]
fn borrowed_pads_go_to_whoever_waited_longest() {
    let e = ids(6);
    let mut roster = PlayerRoster::new(4);
    let p1 = join(&mut roster, e[0], e[1], fingerprint(1));
    let p2 = join(&mut roster, e[2], e[3], fingerprint(2));

    roster.mark_disconnected(p2, double(5.0));
    roster.mark_disconnected(p1, double(9.0));

    assert_eq!(roster.longest_waiting_slot(), Some(p2));
}

#[test]
fn grace_expiry_only_counts_the_disconnected() {
    let e = ids(6);
    let mut roster = PlayerRoster::new(4);
    let p1 = join(&mut roster, e[0], e[1], fingerprint(1));
    let p2 = join(&mut roster, e[2], e[3], fingerprint(2));
    roster.mark_disconnected(p2, double(10.0));

    assert!(
        roster.expired_slots(single(30.0), double(35.0), &Floats).is_empty(),
        "still in grace"
    );
    assert_eq!(roster.expired_slots(single(30.0), double(41.0), &Floats), vec![p2]);
    assert!(
        !roster.expired_slots(single(0.0), double(41.0), &Floats).contains(&p1),
        "a connected player never times out"
    );
}

#[test]
fn reconnecting_clears_the_grace_timer() {
    let e = ids(4);
    let mut roster = PlayerRoster::new(4);
    let id = join(&mut roster, e[0], e[1], fingerprint(1));
    roster.mark_disconnected(id, double(10.0));
    roster.attach_device(id, e[2], fingerprint(1));

    assert!(roster.expired_slots(single(1.0), double(1_000.0), &Floats).is_empty());
    assert_eq!(roster.get(id).unwrap().waiting_secs(double(1_000.0), &Floats), None);
}

#[test]
fn leave_requests_are_deduplicated() {
    let e = ids(2);
    let mut roster = PlayerRoster::new(4);
    let id = join(&mut roster, e[0], e[1], fingerprint(1));

    roster.request_leave(id);
    roster.request_leave(id);
    roster.queue_leave(id, LeaveReason::TimedOut);

    assert_eq!(roster.take_leave_requests().len(), 1);
    assert!(roster.take_leave_requests().is_empty(), "queue drains");
}

#[test]
fn unassigned_pads_are_tracked() {
    let e = ids(3);
    let mut roster = PlayerRoster::new(4);

    roster.set_unassigned(vec![e[0], e[1]]);
    roster.claim_unassigned(e[0]);
    assert_eq!(roster.unassigned_gamepads(), &[e[1]]);

    roster.release_unassigned(e[0]);
    roster.release_unassigned(e[0]);
    assert_eq!(roster.unassigned_gamepads().len(), 2, "no duplicates");
}

#[test]
fn growing_the_lobby_opens_slots() {
    let mut roster = PlayerRoster::new(2);
    assert!(roster.resize(4));
    assert_eq!(roster.capacity(), 4);
    assert!(!roster.resize(4), "no change reported when nothing moves");
}

#[test]
fn shrinking_never_kicks_a_seated_player() {
    let e = ids(8);
    let mut roster = PlayerRoster::new(4);
    join(&mut roster, e[0], e[1], fingerprint(1));
    join(&mut roster, e[2], e[3], fingerprint(2));
    join(&mut roster, e[4], e[5], fingerprint(3));

    roster.resize(1);

    assert_eq!(roster.capacity(), 3, "trailing empty slot dropped, P3 kept");
    assert!(roster.is_joined(PlayerId::p3()));
}

#[test]
fn an_empty_lobby_has_at_least_one_slot() {
    let mut roster = PlayerRoster::new(0);
    assert_eq!(roster.capacity(), 1);
    assert!(roster.is_empty());
    assert!(!any_player_joined(&roster));
    assert!(!any_player_disconnected(&roster));
    assert!(!lobby_is_full(&roster));
    assert!(!roster.resize(0));
    assert!(roster.resize(255));
    assert_eq!(roster.capacity(), 255);
    assert!(roster.resize(0));
    assert_eq!(roster.capacity(), 1);
    assert_eq!(PlayerRoster::default().capacity(), 4);
}

#[test]
fn a_slot_shows_what_the_roster_knows() {
    let e = ids(6);
    let mut roster = PlayerRoster::new(3);
    let p1 = join(&mut roster, e[0], e[1], fingerprint(1));
    let p2 = join(&mut roster, e[2], e[3], DeviceFingerprint::default());
    roster.mark_disconnected(p2, double(4.0));

    let slot = roster.get(p1).unwrap();
    assert_eq!(slot.id(), p1);
    assert_eq!(slot.entity(), e[0]);
    assert_eq!(slot.device().gamepad(), Some(e[1]));
    assert_eq!(slot.gamepad(), Some(e[1]));
    assert!(slot.is_connected());
    assert_eq!(slot.fingerprint().product_id, Some(1));
    assert_eq!(slot.brand(), GamepadBrand::PlayStation);
    assert_eq!(slot.waiting_secs(double(9.0), &Floats), None);

    let held = roster.get(p2).unwrap();
    assert!(!held.is_connected());
    assert_eq!(held.gamepad(), None);
    assert_eq!(held.brand(), GamepadBrand::Generic);
    assert_eq!(held.waiting_secs(double(4.5), &Floats), Some(single(0.5)));
    assert_eq!(held.waiting_secs(double(1.0), &Floats), Some(single(0.0)), "never negative");

    assert!(roster.get(PlayerId::p3()).is_none());
    assert!(roster.get(PlayerId::p8()).is_none());
    assert_eq!(roster.players(), vec![p1, p2]);
    assert_eq!(roster.iter().iter().map(|s| s.entity()).collect::<Vec<_>>(), vec![e[0], e[2]]);
    assert_eq!(roster.assigned(), vec![(p1, e[1])]);
    assert_eq!(roster.disconnected_players(), vec![p2]);
    assert_eq!(roster.player_count(), roster.connected_count() + 1);
    assert_eq!(roster.player_of_gamepad(e[1]), Some(p1));
    assert_eq!(roster.player_of_gamepad(e[3]), None);
    assert_eq!(roster.fingerprint(p1).unwrap().vendor_id, Some(0x054C));
    assert!(roster.fingerprint(PlayerId::p3()).is_none());
    assert_eq!(roster.brand(p1), GamepadBrand::PlayStation);
    assert_eq!(roster.brand(PlayerId::p3()), GamepadBrand::Generic);
    assert!(matches!(roster.device(p2), Some(PlayerDevice::Missing)));
    assert!(roster.device(PlayerId::p3()).is_none());
    assert!(any_player_disconnected(&roster));
    assert!(any_player_joined(&roster));
    assert!(!lobby_is_full(&roster));
}

#[test]
fn ties_for_the_longest_wait_go_to_the_lowest_slot() {
    let e = ids(4);
    let mut roster = PlayerRoster::new(2);
    let p1 = join(&mut roster, e[0], e[1], fingerprint(1));
    let p2 = join(&mut roster, e[2], e[3], fingerprint(2));
    assert_eq!(roster.longest_waiting_slot(), None);
    roster.mark_disconnected(p2, double(5.0));
    roster.mark_disconnected(p1, double(5.0));
    assert_eq!(roster.longest_waiting_slot(), Some(p1));
}

#[test]
fn a_grace_period_ends_exactly_on_time() {
    let e = ids(2);
    let mut roster = PlayerRoster::new(1);
    let id = join(&mut roster, e[0], e[1], fingerprint(1));
    roster.mark_disconnected(id, double(10.0));
    assert!(roster.expired_slots(single(2.5), double(12.25), &Floats).is_empty());
    assert_eq!(roster.expired_slots(single(2.5), double(12.5), &Floats), vec![id]);
}

#[test]
fn missing_slots_are_left_alone() {
    let e = ids(2);
    let mut roster = PlayerRoster::new(2);
    assert_eq!(roster.mark_disconnected(PlayerId::p1(), double(1.0)), None);
    assert_eq!(roster.mark_disconnected(PlayerId::p8(), double(1.0)), None);
    assert_eq!(roster.attach_device(PlayerId::p1(), e[0], fingerprint(1)), None);
    assert_eq!(roster.attach_device(PlayerId::p8(), e[0], fingerprint(1)), None);
    assert!(roster.vacate(PlayerId::p1()).is_none());
    assert!(roster.vacate(PlayerId::p8()).is_none());
    roster.occupy(PlayerId::p8(), e[0], e[1], fingerprint(1));
    assert!(roster.is_empty());
    assert!(!roster.is_connected(PlayerId::p1()));
    assert_eq!(roster.player_entity(PlayerId::p1()), None);
}

#[test]
fn the_first_reason_to_leave_wins() {
    let mut roster = PlayerRoster::new(2);
    roster.queue_leave(PlayerId::p2(), LeaveReason::TimedOut);
    roster.request_leave(PlayerId::p2());
    roster.request_leave(PlayerId::p1());
    assert_eq!(
        roster.take_leave_requests(),
        vec![
            (PlayerId::p2(), LeaveReason::TimedOut),
            (PlayerId::p1(), LeaveReason::Requested)
        ]
    );
}

#[test]
fn join_requests_are_deduplicated() {
    let e = ids(2);
    let mut roster = PlayerRoster::new(2);
    roster.request_join(e[1]);
    roster.request_join(e[0]);
    roster.request_join(e[1]);
    assert_eq!(roster.take_join_requests(), vec![e[1], e[0]]);
    assert!(roster.take_join_requests().is_empty());
}

#[test]
fn vacating_hands_back_what_was_there() {
    let e = ids(2);
    let mut roster = PlayerRoster::new(2);
    let id = join(&mut roster, e[0], e[1], fingerprint(1));
    let (entity, device) = roster.vacate(id).unwrap();
    assert_eq!(entity, e[0]);
    assert_eq!(device.gamepad(), Some(e[1]));
    assert!(!roster.is_joined(id));
}
