//! Guessing what kind of controller a player is holding.
//!
//! In couch co-op the players are looking at *one* screen, so a single "press
//! A" prompt is wrong for at least one of them. `GamepadBrand` lets you label
//! prompts per player instead.

use crate::buttons::GamepadButton;
use crate::player::DeviceFingerprint;
use crate::vendor;
use vstd::prelude::*;

verus! {

/// The button-label family a controller belongs to.
///
/// Buttons are named by *position* (`South`, `East`, ...) which is the right
/// call for gameplay code, but exactly the wrong thing to show a player,
/// because the same position is A, ✕, or B depending on the hardware.
#[derive(Debug, Clone, Copy, PartialEq, Eq, Hash, Structural)]
pub enum GamepadBrand {
    /// Xbox and the many pads that pretend to be one. A/B/X/Y.
    Xbox,
    /// PlayStation. ✕/○/□/△.
    PlayStation,
    /// Nintendo. A/B/X/Y, but mirrored versus Xbox.
    Nintendo,
    /// Steam Controller / Steam Deck. Xbox labels.
    Steam,
    /// Unrecognised. Falls back to Xbox labels, the most common default.
    Generic,
}

impl Default for GamepadBrand {
    fn default() -> (r: GamepadBrand)
        ensures
            r == GamepadBrand::Generic,
    {
        GamepadBrand::Generic
    }
}

/// An ASCII capital in lower case, any other character as it is.
pub open spec fn lower(c: char) -> char {
    if 'A' <= c && c <= 'Z' {
        (c as u32 + 0x20) as char
    } else {
        c
    }
}

/// `word` stands in `text` somewhere, whatever case ASCII letters of `text`
/// are in.
pub open spec fn mentions(text: Seq<char>, word: Seq<char>) -> bool {
    exists|at: int| #[trigger] stands_at(text, word, at)
}

/// `word` stands in `text` at the given place, whatever case ASCII letters of
/// `text` are in.
pub open spec fn stands_at(text: Seq<char>, word: Seq<char>, at: int) -> bool {
    &&& 0 <= at
    &&& at + word.len() <= text.len()
    &&& forall|k: int| 0 <= k < word.len() ==> lower(#[trigger] text[at + k]) == word[k]
}

fn lowered(c: char) -> (r: char)
    ensures
        r == lower(c),
{
    match c {
        'A' => 'a',
        'B' => 'b',
        'C' => 'c',
        'D' => 'd',
        'E' => 'e',
        'F' => 'f',
        'G' => 'g',
        'H' => 'h',
        'I' => 'i',
        'J' => 'j',
        'K' => 'k',
        'L' => 'l',
        'M' => 'm',
        'N' => 'n',
        'O' => 'o',
        'P' => 'p',
        'Q' => 'q',
        'R' => 'r',
        'S' => 's',
        'T' => 't',
        'U' => 'u',
        'V' => 'v',
        'W' => 'w',
        'X' => 'x',
        'Y' => 'y',
        'Z' => 'z',
        _ => c,
    }
}

fn characters(text: &str) -> (r: Vec<char>)
    ensures
        r@ == text@,
{
    let mut all: Vec<char> = Vec::new();
    for c in it: text.chars()
        invariant
            all@ == text@.take(it.index()),
            it.seq() == text@,
    {
        all.push(c);
    }
    all
}

fn has_word(text: &Vec<char>, word: &str) -> (r: bool)
    ensures
        r == mentions(text@, word@),
{
    let letters = characters(word);
    if letters.len() > text.len() {
        return false;
    }
    let mut at: usize = 0;
    while at <= text.len() - letters.len()
        invariant
            letters@ == word@,
            letters.len() <= text.len(),
            at <= text.len() - letters.len() + 1,
            forall|a: int| a < at ==> !#[trigger] stands_at(text@, word@, a),
        decreases text.len() - at,
    {
        let mut k: usize = 0;
        while k < letters.len() && lowered(text[at + k]) == letters[k]
            invariant
                at + letters.len() <= text.len(),
                k <= letters.len(),
                forall|j: int| 0 <= j < k ==> lower(#[trigger] text@[at + j]) == letters@[j],
            decreases letters.len() - k,
        {
            k += 1;
        }
        if k == letters.len() {
            assert(stands_at(text@, word@, at as int));
            return true;
        }
        assert(lower(text@[at + k]) != letters@[k as int]);
        at += 1;
    }
    false
}

impl GamepadBrand {
    /// The brand that a vendor id stands for, if it stands for one.
    pub open spec fn of_vendor(vendor_id: Option<u16>) -> Option<GamepadBrand> {
        match vendor_id {
            Some(id) => if id == vendor::SONY {
                Some(GamepadBrand::PlayStation)
            } else if id == vendor::MICROSOFT {
                Some(GamepadBrand::Xbox)
            } else if id == vendor::NINTENDO {
                Some(GamepadBrand::Nintendo)
            } else if id == vendor::VALVE {
                Some(GamepadBrand::Steam)
            } else {
                None
            },
            None => None,
        }
    }

    /// The brand that a device name speaks of.
    pub open spec fn of_name(name: Seq<char>) -> GamepadBrand {
        if mentions(name, "dualsense"@) || mentions(name, "dualshock"@) || mentions(
            name,
            "playstation"@,
        ) || mentions(name, "ps3"@) || mentions(name, "ps4"@) || mentions(name, "ps5"@) {
            GamepadBrand::PlayStation
        } else if mentions(name, "xbox"@) || mentions(name, "xinput"@) || mentions(
            name,
            "x-box"@,
        ) {
            GamepadBrand::Xbox
        } else if mentions(name, "nintendo"@) || mentions(name, "switch"@) || mentions(
            name,
            "joy-con"@,
        ) || mentions(name, "joycon"@) {
            GamepadBrand::Nintendo
        } else if mentions(name, "steam"@) || mentions(name, "valve"@) {
            GamepadBrand::Steam
        } else {
            GamepadBrand::Generic
        }
    }

    /// The brand by vendor id, else by name, else `Generic`.
    pub open spec fn detected(name: Option<Seq<char>>, vendor_id: Option<u16>) -> GamepadBrand {
        match GamepadBrand::of_vendor(vendor_id) {
            Some(brand) => brand,
            None => match name {
                Some(text) => GamepadBrand::of_name(text),
                None => GamepadBrand::Generic,
            },
        }
    }

    /// Best guess from a vendor id, falling back to the device name.
    ///
    /// Vendor id is checked first because names are wildly inconsistent
    /// between platforms and driver stacks.
    pub fn detect(name: Option<&str>, vendor_id: Option<u16>) -> (r: GamepadBrand)
        ensures
            r == GamepadBrand::detected(
                match name {
                    Some(text) => Some(text@),
                    None => None,
                },
                vendor_id,
            ),
    {
        if let Some(id) = vendor_id {
            if id == vendor::SONY {
                return GamepadBrand::PlayStation;
            } else if id == vendor::MICROSOFT {
                return GamepadBrand::Xbox;
            } else if id == vendor::NINTENDO {
                return GamepadBrand::Nintendo;
            } else if id == vendor::VALVE {
                return GamepadBrand::Steam;
            }
        }
        let text = match name {
            Some(text) => characters(text),
            None => {
                return GamepadBrand::Generic;
            },
        };
        if has_word(&text, "dualsense") || has_word(&text, "dualshock") || has_word(
            &text,
            "playstation",
        ) || has_word(&text, "ps3") || has_word(&text, "ps4") || has_word(&text, "ps5") {
            GamepadBrand::PlayStation
        } else if has_word(&text, "xbox") || has_word(&text, "xinput") || has_word(&text, "x-box") {
            GamepadBrand::Xbox
        } else if has_word(&text, "nintendo") || has_word(&text, "switch") || has_word(
            &text,
            "joy-con",
        ) || has_word(&text, "joycon") {
            GamepadBrand::Nintendo
        } else if has_word(&text, "steam") || has_word(&text, "valve") {
            GamepadBrand::Steam
        } else {
            GamepadBrand::Generic
        }
    }

    /// What is written on a button, in the Xbox vocabulary.
    pub open spec fn common_label(button: GamepadButton) -> Seq<char> {
        match button {
            GamepadButton::South => "A"@,
            GamepadButton::East => "B"@,
            GamepadButton::North => "Y"@,
            GamepadButton::West => "X"@,
            GamepadButton::LeftTrigger => "LB"@,
            GamepadButton::LeftTrigger2 => "LT"@,
            GamepadButton::RightTrigger => "RB"@,
            GamepadButton::RightTrigger2 => "RT"@,
            GamepadButton::LeftThumb => "LS"@,
            GamepadButton::RightThumb => "RS"@,
            GamepadButton::Select => "View"@,
            GamepadButton::Start => "Menu"@,
            GamepadButton::DPadUp => "D-Up"@,
            GamepadButton::DPadDown => "D-Down"@,
            GamepadButton::DPadLeft => "D-Left"@,
            GamepadButton::DPadRight => "D-Right"@,
            GamepadButton::Mode => "Guide"@,
            GamepadButton::C => "C"@,
            GamepadButton::Z => "Z"@,
            GamepadButton::Other(_) => "?"@,
        }
    }

    /// What is written on a button of this brand.
    pub open spec fn label(self, button: GamepadButton) -> Seq<char> {
        match self {
            GamepadBrand::PlayStation => match button {
                GamepadButton::South => "✕"@,
                GamepadButton::East => "○"@,
                GamepadButton::North => "△"@,
                GamepadButton::West => "□"@,
                GamepadButton::LeftTrigger => "L1"@,
                GamepadButton::LeftTrigger2 => "L2"@,
                GamepadButton::RightTrigger => "R1"@,
                GamepadButton::RightTrigger2 => "R2"@,
                GamepadButton::LeftThumb => "L3"@,
                GamepadButton::RightThumb => "R3"@,
                GamepadButton::Select => "Create"@,
                GamepadButton::Start => "Options"@,
                _ => GamepadBrand::common_label(button),
            },
            GamepadBrand::Nintendo => match button {
                GamepadButton::South => "B"@,
                GamepadButton::East => "A"@,
                GamepadButton::North => "X"@,
                GamepadButton::West => "Y"@,
                GamepadButton::LeftTrigger => "L"@,
                GamepadButton::LeftTrigger2 => "ZL"@,
                GamepadButton::RightTrigger => "R"@,
                GamepadButton::RightTrigger2 => "ZR"@,
                GamepadButton::Select => "-"@,
                GamepadButton::Start => "+"@,
                _ => GamepadBrand::common_label(button),
            },
            _ => GamepadBrand::common_label(button),
        }
    }

    /// What this player should see written on screen for a button.
    ///
    /// Note the Nintendo mapping: the *south* button is physically labelled
    /// "B" on a Switch Pro controller, and east is "A". Showing "press A" to a
    /// Switch player when you meant `GamepadButton::South` sends them to the
    /// wrong button.
    pub fn button_label(self, button: GamepadButton) -> (r: &'static str)
        ensures
            r@ == self.label(button),
    {
        match (self, button) {
            (GamepadBrand::PlayStation, GamepadButton::South) => "✕",
            (GamepadBrand::PlayStation, GamepadButton::East) => "○",
            (GamepadBrand::PlayStation, GamepadButton::North) => "△",
            (GamepadBrand::PlayStation, GamepadButton::West) => "□",
            (GamepadBrand::PlayStation, GamepadButton::LeftTrigger) => "L1",
            (GamepadBrand::PlayStation, GamepadButton::LeftTrigger2) => "L2",
            (GamepadBrand::PlayStation, GamepadButton::RightTrigger) => "R1",
            (GamepadBrand::PlayStation, GamepadButton::RightTrigger2) => "R2",
            (GamepadBrand::PlayStation, GamepadButton::LeftThumb) => "L3",
            (GamepadBrand::PlayStation, GamepadButton::RightThumb) => "R3",
            (GamepadBrand::PlayStation, GamepadButton::Select) => "Create",
            (GamepadBrand::PlayStation, GamepadButton::Start) => "Options",
            (GamepadBrand::Nintendo, GamepadButton::South) => "B",
            (GamepadBrand::Nintendo, GamepadButton::East) => "A",
            (GamepadBrand::Nintendo, GamepadButton::North) => "X",
            (GamepadBrand::Nintendo, GamepadButton::West) => "Y",
            (GamepadBrand::Nintendo, GamepadButton::LeftTrigger) => "L",
            (GamepadBrand::Nintendo, GamepadButton::LeftTrigger2) => "ZL",
            (GamepadBrand::Nintendo, GamepadButton::RightTrigger) => "R",
            (GamepadBrand::Nintendo, GamepadButton::RightTrigger2) => "ZR",
            (GamepadBrand::Nintendo, GamepadButton::Select) => "-",
            (GamepadBrand::Nintendo, GamepadButton::Start) => "+",
            (_, GamepadButton::South) => "A",
            (_, GamepadButton::East) => "B",
            (_, GamepadButton::North) => "Y",
            (_, GamepadButton::West) => "X",
            (_, GamepadButton::LeftTrigger) => "LB",
            (_, GamepadButton::LeftTrigger2) => "LT",
            (_, GamepadButton::RightTrigger) => "RB",
            (_, GamepadButton::RightTrigger2) => "RT",
            (_, GamepadButton::LeftThumb) => "LS",
            (_, GamepadButton::RightThumb) => "RS",
            (_, GamepadButton::Select) => "View",
            (_, GamepadButton::Start) => "Menu",
            (_, GamepadButton::DPadUp) => "D-Up",
            (_, GamepadButton::DPadDown) => "D-Down",
            (_, GamepadButton::DPadLeft) => "D-Left",
            (_, GamepadButton::DPadRight) => "D-Right",
            (_, GamepadButton::Mode) => "Guide",
            (_, GamepadButton::C) => "C",
            (_, GamepadButton::Z) => "Z",
            (_, GamepadButton::Other(_)) => "?",
        }
    }

    /// The family's name.
    pub open spec fn family(self) -> Seq<char> {
        match self {
            GamepadBrand::Xbox => "Xbox"@,
            GamepadBrand::PlayStation => "PlayStation"@,
            GamepadBrand::Nintendo => "Nintendo"@,
            GamepadBrand::Steam => "Steam"@,
            GamepadBrand::Generic => "Gamepad"@,
        }
    }

    /// Short human-readable family name, for "P2 - PlayStation" style UI.
    pub fn name(self) -> (r: &'static str)
        ensures
            r@ == self.family(),
    {
        match self {
            GamepadBrand::Xbox => "Xbox",
            GamepadBrand::PlayStation => "PlayStation",
            GamepadBrand::Nintendo => "Nintendo",
            GamepadBrand::Steam => "Steam",
            GamepadBrand::Generic => "Gamepad",
        }
    }
}

impl DeviceFingerprint {
    /// The button-label family by what is known of the device.
    pub open spec fn family(self) -> GamepadBrand {
        GamepadBrand::detected(
            match self.name {
                Some(text) => Some(text@),
                None => None,
            },
            self.vendor_id,
        )
    }

    /// Which button-label family this controller belongs to.
    pub fn brand(&self) -> (r: GamepadBrand)
        ensures
            r == self.family(),
    {
        let name = match &self.name {
            Some(text) => Some(text.as_str()),
            None => None,
        };
        GamepadBrand::detect(name, self.vendor_id)
    }
}

/// Where the vendor id stands for a brand, the name does not matter.
pub proof fn law_vendor_id_wins_over_name(
    one: Option<Seq<char>>,
    other: Option<Seq<char>>,
    vendor_id: Option<u16>,
)
    requires
        GamepadBrand::of_vendor(vendor_id) is Some,
    ensures
        GamepadBrand::detected(one, vendor_id) == GamepadBrand::detected(other, vendor_id),
{
}

/// Every brand but PlayStation and Nintendo reads as an Xbox pad does.
pub proof fn law_other_brands_use_xbox_labels(brand: GamepadBrand, button: GamepadButton)
    requires
        brand != GamepadBrand::PlayStation,
        brand != GamepadBrand::Nintendo,
    ensures
        brand.label(button) == GamepadBrand::Xbox.label(button),
{
}

/// Nintendo's action buttons are those of an Xbox pad, mirrored: south with
/// east, north with west.
pub proof fn law_nintendo_mirrors_xbox()
    ensures
        GamepadBrand::Nintendo.label(GamepadButton::South) == GamepadBrand::Xbox.label(
            GamepadButton::East,
        ),
        GamepadBrand::Nintendo.label(GamepadButton::East) == GamepadBrand::Xbox.label(
            GamepadButton::South,
        ),
        GamepadBrand::Nintendo.label(GamepadButton::North) == GamepadBrand::Xbox.label(
            GamepadButton::West,
        ),
        GamepadBrand::Nintendo.label(GamepadButton::West) == GamepadBrand::Xbox.label(
            GamepadButton::North,
        ),
{
}

/// A prompt names one button: on any pad, no two standard buttons carry the
/// same label, and none is left without one.
pub proof fn law_labels_tell_buttons_apart(
    brand: GamepadBrand,
    a: GamepadButton,
    b: GamepadButton,
)
    requires
        a.standard(),
        b.standard(),
    ensures
        brand.label(a) == brand.label(b) ==> a == b,
        brand.label(a).len() > 0,
        brand.label(a) != brand.label(GamepadButton::Other(0)),
{
    let one = brand.label(a);
    let other = brand.label(b);
    let extra = brand.label(GamepadButton::Other(0));
    reveal_strlit("A");
    reveal_strlit("B");
    reveal_strlit("X");
    reveal_strlit("Y");
    reveal_strlit("L");
    reveal_strlit("R");
    reveal_strlit("ZL");
    reveal_strlit("ZR");
    reveal_strlit("-");
    reveal_strlit("+");
    reveal_strlit("LB");
    reveal_strlit("LT");
    reveal_strlit("RB");
    reveal_strlit("RT");
    reveal_strlit("LS");
    reveal_strlit("RS");
    reveal_strlit("View");
    reveal_strlit("Menu");
    reveal_strlit("D-Up");
    reveal_strlit("D-Down");
    reveal_strlit("D-Left");
    reveal_strlit("D-Right");
    reveal_strlit("Guide");
    reveal_strlit("C");
    reveal_strlit("Z");
    reveal_strlit("?");
    reveal_strlit("✕");
    reveal_strlit("○");
    reveal_strlit("△");
    reveal_strlit("□");
    reveal_strlit("L1");
    reveal_strlit("L2");
    reveal_strlit("R1");
    reveal_strlit("R2");
    reveal_strlit("L3");
    reveal_strlit("R3");
    reveal_strlit("Create");
    reveal_strlit("Options");
    if one == other {
        assert(one.len() == other.len());
        assert(one[0] == other[0]);
        assert(one.last() == other.last());
        if one.len() > 2 {
            assert(one[2] == other[2]);
        }
    }
    assert(extra == "?"@);
    assert(one.len() != extra.len() || one[0] != extra[0]);
}

/// A name speaks of a word whatever stands before and after it.
pub proof fn law_words_are_found_anywhere(
    before: Seq<char>,
    name: Seq<char>,
    after: Seq<char>,
    word: Seq<char>,
)
    requires
        mentions(name, word),
    ensures
        mentions(before + name + after, word),
{
    let at = choose|at: int| #[trigger] stands_at(name, word, at);
    let text = before + name + after;
    assert forall|k: int| 0 <= k < word.len() implies lower(
        #[trigger] text[before.len() + at + k],
    ) == word[k] by {
        assert(text[before.len() + at + k] == name[at + k]);
    }
    assert(stands_at(text, word, before.len() + at));
}

/// The case of ASCII letters in a name makes no difference to its brand.
pub proof fn law_case_makes_no_difference(name: Seq<char>, shouted: Seq<char>)
    requires
        name.len() == shouted.len(),
        forall|i: int| 0 <= i < name.len() ==> lower(#[trigger] shouted[i]) == lower(name[i]),
    ensures
        GamepadBrand::of_name(name) == GamepadBrand::of_name(shouted),
{
    assert forall|word: Seq<char>, at: int| #[trigger]
        stands_at(name, word, at) == stands_at(shouted, word, at) by {
        if stands_at(name, word, at) {
            assert forall|k: int| 0 <= k < word.len() implies lower(
                #[trigger] shouted[at + k],
            ) == word[k] by {
                assert(lower(name[at + k]) == word[k]);
            }
        }
        if stands_at(shouted, word, at) {
            assert forall|k: int| 0 <= k < word.len() implies lower(#[trigger] name[at + k])
                == word[k] by {
                assert(lower(shouted[at + k]) == word[k]);
            }
        }
    }
    assert forall|word: Seq<char>| #[trigger]
        mentions(name, word) == mentions(shouted, word) by {
        if mentions(name, word) {
            let at = choose|at: int| #[trigger] stands_at(name, word, at);
            assert(stands_at(shouted, word, at));
        }
        if mentions(shouted, word) {
            let at = choose|at: int| #[trigger] stands_at(shouted, word, at);
            assert(stands_at(name, word, at));
        }
    }
}

/// Capitals make no difference: a name in which some letters from `a` to `z`
/// are written large speaks of the same brand.
pub proof fn law_capitals_make_no_difference(name: Seq<char>, shouted: Seq<char>)
    requires
        name.len() == shouted.len(),
        forall|i: int|
            0 <= i < name.len() ==> (#[trigger] shouted[i]) == name[i] || ('a' <= name[i]
                && name[i] <= 'z' && shouted[i] as int + 0x20 == name[i] as int),
    ensures
        GamepadBrand::of_name(name) == GamepadBrand::of_name(shouted),
{
    assert forall|i: int| 0 <= i < name.len() implies lower(#[trigger] shouted[i]) == lower(
        name[i],
    ) by {}
    law_case_makes_no_difference(name, shouted);
}

/// A brand is known by its vendor id, or else by the words of its name, those
/// of PlayStation first, then Xbox, Nintendo and Steam. Where neither says
/// anything it is a generic one.
pub proof fn law_brands_are_known_by_id_or_words(name: Seq<char>, vendor_id: Option<u16>)
    ensures
        ({
            let sony = mentions(name, "dualsense"@) || mentions(name, "dualshock"@) || mentions(
                name,
                "playstation"@,
            ) || mentions(name, "ps3"@) || mentions(name, "ps4"@) || mentions(name, "ps5"@);
            let xbox = mentions(name, "xbox"@) || mentions(name, "xinput"@) || mentions(
                name,
                "x-box"@,
            );
            let nintendo = mentions(name, "nintendo"@) || mentions(name, "switch"@) || mentions(
                name,
                "joy-con"@,
            ) || mentions(name, "joycon"@);
            let steam = mentions(name, "steam"@) || mentions(name, "valve"@);
            let brand = GamepadBrand::detected(Some(name), vendor_id);
            let by_id = vendor_id == Some(0x054cu16) || vendor_id == Some(0x045eu16) || vendor_id
                == Some(0x057eu16) || vendor_id == Some(0x28deu16);
            &&& vendor_id == Some(0x054cu16) ==> brand == GamepadBrand::PlayStation
            &&& vendor_id == Some(0x045eu16) ==> brand == GamepadBrand::Xbox
            &&& vendor_id == Some(0x057eu16) ==> brand == GamepadBrand::Nintendo
            &&& vendor_id == Some(0x28deu16) ==> brand == GamepadBrand::Steam
            &&& !by_id && sony ==> brand == GamepadBrand::PlayStation
            &&& !by_id && !sony && xbox ==> brand == GamepadBrand::Xbox
            &&& !by_id && !sony && !xbox && nintendo ==> brand == GamepadBrand::Nintendo
            &&& !by_id && !sony && !xbox && !nintendo && steam ==> brand == GamepadBrand::Steam
            &&& !by_id && !sony && !xbox && !nintendo && !steam ==> brand
                == GamepadBrand::Generic
            &&& !by_id ==> GamepadBrand::detected(None, vendor_id) == GamepadBrand::Generic
        }),
{
}

} // verus!
