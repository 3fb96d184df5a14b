//! Slots, devices and what is known of them.

use bevy_couch_multiplayer::{DeviceFingerprint, Player, PlayerDevice, PlayerId, Single};
use bevy_ecs::entity::Entity;
use bevy_ecs::world::World;

/// Real `Entity` ids without depending on any raw-id constructor.
fn ids(n: usize) -> Vec<Entity> {
    let mut world = World::new();
    (0..n).map(|_| world.spawn_empty().id()).collect()
}

fn pad(name: &str, vendor: u16, product: u16) -> DeviceFingerprint {
    DeviceFingerprint {
        name: Some(name.to_string()),
        vendor_id: Some(vendor),
        product_id: Some(product),
    }
}

#[test]
fn ids_read_naturally() {
    assert_eq!(PlayerId::p1().number(), 1);
    assert_eq!(PlayerId::p4().index(), 3);
    assert_eq!(PlayerId::from(2), PlayerId::p3());
}

#[test]
fn ids_are_ordered_by_slot() {
    let mut ids = vec![PlayerId::p3(), PlayerId::p1(), PlayerId::p2()];
    ids.sort();
    assert_eq!(ids, vec![PlayerId::p1(), PlayerId::p2(), PlayerId::p3()]);
}

#[test]
fn same_hardware_matches() {
    assert!(pad("DualSense", 0x054C, 0x0CE6).matches(&pad("DualSense", 0x054C, 0x0CE6)));
}

#[test]
fn different_product_does_not_match() {
    assert!(!pad("Pad", 0x054C, 0x0CE6).matches(&pad("Pad", 0x054C, 0x09CC)));
}

#[test]
fn falls_back_to_name_without_ids() {
    let named = DeviceFingerprint {
        name: Some("Wireless Controller".into()),
        ..Default::default()
    };
    assert!(named.matches(&named.clone()));
    assert!(!named.matches(&DeviceFingerprint::default()));
}

#[test]
fn anonymous_devices_never_match() {
    // Otherwise every unidentifiable pad would claim the first held slot.
    assert!(!DeviceFingerprint::default().matches(&DeviceFingerprint::default()));
}

#[test]
fn ids_beat_names_and_matching_goes_both_ways() {
    let renamed = pad("DualSense over Bluetooth", 0x054C, 0x0CE6);
    let wired = pad("DualSense", 0x054C, 0x0CE6);
    assert!(renamed.matches(&wired));
    assert!(wired.matches(&renamed));
    // One side without a product id: only the name counts.
    let partial = DeviceFingerprint { product_id: None, ..pad("DualSense", 0x1234, 0) };
    assert!(partial.matches(&wired));
    assert!(wired.matches(&partial));
    assert!(!partial.matches(&renamed));
}

#[test]
fn a_name_or_a_vendor_makes_a_device_known() {
    assert!(pad("Pad", 1, 2).is_known());
    let vendor = DeviceFingerprint { vendor_id: Some(1), ..Default::default() };
    assert!(vendor.is_known());
    let product = DeviceFingerprint { product_id: Some(1), ..Default::default() };
    assert!(!product.is_known());
    assert!(!DeviceFingerprint::default().is_known());
}

#[test]
fn ids_are_shown_from_one() {
    assert_eq!(PlayerId::p2().number(), 2);
    assert_eq!(PlayerId::p2().index(), 1);
    assert_eq!(PlayerId::p2().display(), "P2");
    assert_eq!(PlayerId::new(9).display(), "P10");
    assert_eq!(PlayerId::new(104).display(), "P105");
    assert_eq!(PlayerId::new(255).number(), 255, "saturates");
    assert_eq!(PlayerId::new(255).display(), "P255");
    let all = [
        PlayerId::p1(),
        PlayerId::p2(),
        PlayerId::p3(),
        PlayerId::p4(),
        PlayerId::p5(),
        PlayerId::p6(),
        PlayerId::p7(),
        PlayerId::p8(),
    ];
    for (i, id) in all.iter().enumerate() {
        assert_eq!(id.index(), i);
        assert_eq!(*id, PlayerId::new(i as u8));
    }
}

#[test]
fn the_palette_has_eight_colours_and_repeats() {
    let palette: [[f32; 3]; 8] = [
        [0.20, 0.55, 1.00],
        [1.00, 0.35, 0.30],
        [0.35, 0.85, 0.40],
        [1.00, 0.80, 0.25],
        [0.75, 0.45, 1.00],
        [0.30, 0.85, 0.85],
        [1.00, 0.55, 0.20],
        [0.95, 0.45, 0.75],
    ];
    for slot in 0..=255u8 {
        let colour = PlayerId::new(slot).color_rgb();
        let floats = colour.map(|c: Single| f32::from_bits(c.to_bits()));
        assert_eq!(floats, palette[slot as usize % 8]);
    }
}

#[test]
fn a_device_knows_its_gamepad() {
    let e = ids(1);
    assert_eq!(PlayerDevice::Gamepad(e[0]).gamepad(), Some(e[0]));
    assert!(PlayerDevice::Gamepad(e[0]).is_connected());
    assert_eq!(PlayerDevice::Missing.gamepad(), None);
    assert!(!PlayerDevice::Missing.is_connected());
    assert!(!PlayerDevice::default().is_connected());
    assert_eq!(Player::new(PlayerId::p2()).id, PlayerId::p2());
}
