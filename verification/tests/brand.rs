//! Button-label families.

use bevy_couch_multiplayer::{vendor, DeviceFingerprint, GamepadBrand, GamepadButton};

#[test]
fn vendor_id_wins_over_name() {
    // Plenty of third-party pads put "Xbox" in the product string while
    // reporting their own vendor id, so ids are checked first.
    let brand = GamepadBrand::detect(Some("Xbox-style pad"), Some(vendor::SONY));
    assert_eq!(brand, GamepadBrand::PlayStation);
}

#[test]
fn falls_back_to_name() {
    assert_eq!(
        GamepadBrand::detect(Some("Wireless DualSense Controller"), None),
        GamepadBrand::PlayStation
    );
    assert_eq!(
        GamepadBrand::detect(Some("Pro Controller (Switch)"), None),
        GamepadBrand::Nintendo
    );
    assert_eq!(GamepadBrand::detect(Some("weird thing"), None), GamepadBrand::Generic);
}

#[test]
fn nintendo_south_is_b() {
    assert_eq!(GamepadBrand::Nintendo.button_label(GamepadButton::South), "B");
    assert_eq!(GamepadBrand::Xbox.button_label(GamepadButton::South), "A");
    assert_eq!(GamepadBrand::PlayStation.button_label(GamepadButton::South), "✕");
}

#[test]
fn unknown_brand_uses_xbox_labels() {
    assert_eq!(GamepadBrand::Generic.button_label(GamepadButton::East), "B");
}

#[test]
fn every_vendor_has_its_brand() {
    assert_eq!(GamepadBrand::detect(None, Some(vendor::SONY)), GamepadBrand::PlayStation);
    assert_eq!(GamepadBrand::detect(None, Some(vendor::MICROSOFT)), GamepadBrand::Xbox);
    assert_eq!(GamepadBrand::detect(None, Some(vendor::NINTENDO)), GamepadBrand::Nintendo);
    assert_eq!(GamepadBrand::detect(None, Some(vendor::VALVE)), GamepadBrand::Steam);
    assert_eq!(GamepadBrand::detect(None, Some(vendor::EIGHT_BITDO)), GamepadBrand::Generic);
    assert_eq!(GamepadBrand::detect(None, None), GamepadBrand::Generic);
    assert_eq!(vendor::SONY, 0x054C);
    assert_eq!(vendor::MICROSOFT, 0x045E);
    assert_eq!(vendor::NINTENDO, 0x057E);
    assert_eq!(vendor::VALVE, 0x28DE);
    assert_eq!(vendor::EIGHT_BITDO, 0x2DC8);
}

#[test]
fn names_are_matched_without_regard_to_case() {
    let brand = |name: &str| GamepadBrand::detect(Some(name), None);
    for name in ["DUALSENSE", "DualShock 4", "a PlayStation pad", "PS3", "xPS4x", "ps5"] {
        assert_eq!(brand(name), GamepadBrand::PlayStation, "{name}");
    }
    for name in ["XBOX 360", "XInput device", "X-Box One"] {
        assert_eq!(brand(name), GamepadBrand::Xbox, "{name}");
    }
    for name in ["Nintendo thing", "SWITCH", "Joy-Con (L)", "JoyCon"] {
        assert_eq!(brand(name), GamepadBrand::Nintendo, "{name}");
    }
    for name in ["Steam Deck", "VALVE pad"] {
        assert_eq!(brand(name), GamepadBrand::Steam, "{name}");
    }
    for name in ["", "x box", "ps", "stea"] {
        assert_eq!(brand(name), GamepadBrand::Generic, "{name}");
    }
    // An unknown vendor falls back to the name.
    assert_eq!(
        GamepadBrand::detect(Some("8BitDo Xbox pad"), Some(vendor::EIGHT_BITDO)),
        GamepadBrand::Xbox
    );
}

#[test]
fn earlier_families_win_where_a_name_fits_two() {
    assert_eq!(GamepadBrand::detect(Some("Xbox ps4 Switch"), None), GamepadBrand::PlayStation);
    assert_eq!(GamepadBrand::detect(Some("Steam Xbox"), None), GamepadBrand::Xbox);
    assert_eq!(GamepadBrand::detect(Some("Valve Switch"), None), GamepadBrand::Nintendo);
}

#[test]
fn labels_are_those_on_the_hardware() {
    assert_eq!(GamepadBrand::PlayStation.button_label(GamepadButton::Start), "Options");
    assert_eq!(GamepadBrand::PlayStation.button_label(GamepadButton::LeftThumb), "L3");
    assert_eq!(GamepadBrand::Nintendo.button_label(GamepadButton::Select), "-");
    assert_eq!(GamepadBrand::Nintendo.button_label(GamepadButton::LeftThumb), "LS");
    assert_eq!(GamepadBrand::Steam.button_label(GamepadButton::Select), "View");
    assert_eq!(GamepadBrand::Xbox.button_label(GamepadButton::DPadLeft), "D-Left");
    assert_eq!(GamepadBrand::Xbox.button_label(GamepadButton::Mode), "Guide");
    assert_eq!(GamepadBrand::Xbox.button_label(GamepadButton::Other(7)), "?");
}

#[test]
fn nintendo_mirrors_xbox() {
    let pairs = [
        (GamepadButton::South, GamepadButton::East),
        (GamepadButton::North, GamepadButton::West),
    ];
    for (one, other) in pairs {
        assert_eq!(
            GamepadBrand::Nintendo.button_label(one),
            GamepadBrand::Xbox.button_label(other)
        );
        assert_eq!(
            GamepadBrand::Nintendo.button_label(other),
            GamepadBrand::Xbox.button_label(one)
        );
    }
}

#[test]
fn families_have_names() {
    assert_eq!(GamepadBrand::Xbox.name(), "Xbox");
    assert_eq!(GamepadBrand::PlayStation.name(), "PlayStation");
    assert_eq!(GamepadBrand::Nintendo.name(), "Nintendo");
    assert_eq!(GamepadBrand::Steam.name(), "Steam");
    assert_eq!(GamepadBrand::Generic.name(), "Gamepad");
    assert_eq!(GamepadBrand::default(), GamepadBrand::Generic);
}

#[test]
fn a_fingerprint_knows_its_brand() {
    let pad = DeviceFingerprint {
        name: Some("Wireless DualSense Controller".to_string()),
        vendor_id: None,
        product_id: None,
    };
    assert_eq!(pad.brand(), GamepadBrand::PlayStation);
    assert_eq!(DeviceFingerprint::default().brand(), GamepadBrand::Generic);
}
