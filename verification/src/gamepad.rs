//! What a live gamepad reports in a frame.

use crate::buttons;
use crate::buttons::GamepadButton;
use crate::entities;
use crate::player::DeviceFingerprint;
use crate::scalar::Single;
use crate::select;
use bevy_ecs::entity::Entity;
use vstd::prelude::*;

verus! {

/// A gamepad as it is in the current frame.
#[derive(Debug)]
pub struct Gamepad {
    /// The entity that stands for it.
    pub entity: Entity,
    /// Device name, vendor id and product id, as far as they are known.
    pub fingerprint: DeviceFingerprint,
    /// The buttons that are down.
    pub pressed: Vec<GamepadButton>,
    /// The buttons that went down in this frame.
    pub just_pressed: Vec<GamepadButton>,
    /// Left stick, to the right; nothing where it was never moved.
    pub left_stick_x: Option<Single>,
    /// Left stick, upwards.
    pub left_stick_y: Option<Single>,
    /// Right stick, to the right.
    pub right_stick_x: Option<Single>,
    /// Right stick, upwards.
    pub right_stick_y: Option<Single>,
    /// How far the left analog trigger is pulled.
    pub left_trigger: Option<Single>,
    /// How far the right analog trigger is pulled.
    pub right_trigger: Option<Single>,
}

impl Gamepad {
    /// The button is down.
    pub open spec fn down(self, button: GamepadButton) -> bool {
        self.pressed@.contains(button)
    }

    /// The button went down in this frame.
    pub open spec fn went_down(self, button: GamepadButton) -> bool {
        self.just_pressed@.contains(button)
    }

    /// Whether a button is down.
    pub fn pressed(&self, button: GamepadButton) -> (r: bool)
        ensures
            r == self.down(button),
    {
        buttons::contains(self.pressed.as_slice(), button)
    }

    /// Whether a button went down in this frame.
    pub fn just_pressed(&self, button: GamepadButton) -> (r: bool)
        ensures
            r == self.went_down(button),
    {
        buttons::contains(self.just_pressed.as_slice(), button)
    }

    /// Whether any of `list` went down in this frame.
    pub fn any_just_pressed(&self, list: &[GamepadButton]) -> (r: bool)
        ensures
            r == exists|i: int| 0 <= i < list@.len() && self.went_down(#[trigger] list@[i]),
    {
        let mut i: usize = 0;
        while i < list.len()
            invariant
                i <= list.len(),
                forall|k: int| 0 <= k < i ==> !self.went_down(#[trigger] list@[k]),
            decreases list.len() - i,
        {
            if self.just_pressed(list[i]) {
                assert(self.went_down(list@[i as int]));
                return true;
            }
            i += 1;
        }
        false
    }
}

/// Stands for this entity.
pub open spec fn stands_for(gamepads: Seq<Gamepad>, entity: Entity) -> spec_fn(int) -> bool {
    |i: int| gamepads[i].entity == entity
}

/// Where the gamepad of this entity is.
pub open spec fn place(gamepads: Seq<Gamepad>, entity: Entity) -> Option<int> {
    select::first(gamepads.len(), stands_for(gamepads, entity))
}

/// The entity is a live gamepad.
pub open spec fn live(gamepads: Seq<Gamepad>, entity: Entity) -> bool {
    place(gamepads, entity) is Some
}

/// What is known of the hardware behind this entity.
pub open spec fn fingerprint(gamepads: Seq<Gamepad>, entity: Entity) -> DeviceFingerprint {
    match place(gamepads, entity) {
        Some(i) => gamepads[i].fingerprint,
        None => DeviceFingerprint::anonymous(),
    }
}

/// Every entity, in the order of the gamepads.
pub open spec fn entities_of(gamepads: Seq<Gamepad>) -> Seq<Entity> {
    Seq::new(gamepads.len(), |i: int| gamepads[i].entity)
}

/// The gamepad of an entity.
pub fn find<'a>(gamepads: &'a Vec<Gamepad>, entity: Entity) -> (r: Option<&'a Gamepad>)
    ensures
        r is Some <==> live(gamepads@, entity),
        r matches Some(pad) ==> *pad == gamepads@[place(gamepads@, entity)->0],
{
    let ghost test = stands_for(gamepads@, entity);
    let mut i: usize = 0;
    while i < gamepads.len()
        invariant
            i <= gamepads.len(),
            test == stands_for(gamepads@, entity),
            forall|k: int| 0 <= k < i ==> !#[trigger] test(k),
        decreases gamepads.len() - i,
    {
        if entities::same_entity(gamepads[i].entity, entity) {
            proof {
                assert(test(i as int));
                select::lemma_first_is(gamepads@.len(), test, i as int);
            }
            return Some(&gamepads[i]);
        }
        assert(!test(i as int));
        i += 1;
    }
    proof {
        select::lemma_first(gamepads@.len(), test);
    }
    None
}

/// Whether an entity is a live gamepad.
pub fn is_live(gamepads: &Vec<Gamepad>, entity: Entity) -> (r: bool)
    ensures
        r == live(gamepads@, entity),
{
    find(gamepads, entity).is_some()
}

/// What is known of the hardware behind an entity; nothing where it is not a
/// live gamepad.
pub fn fingerprint_of(gamepad: Entity, gamepads: &Vec<Gamepad>) -> (r: DeviceFingerprint)
    ensures
        r == fingerprint(gamepads@, gamepad),
{
    match find(gamepads, gamepad) {
        Some(pad) => pad.fingerprint.clone(),
        None => DeviceFingerprint::default(),
    }
}

/// An entity is live exactly where a gamepad stands for it, and what is known
/// of it is what the first such gamepad reports. Of one that is gone nothing
/// is known.
pub proof fn law_gamepads_are_found_by_their_entity(gamepads: Seq<Gamepad>, entity: Entity)
    ensures
        live(gamepads, entity) <==> exists|i: int|
            0 <= i < gamepads.len() && (#[trigger] gamepads[i]).entity == entity,
        place(gamepads, entity) matches Some(i) ==> 0 <= i < gamepads.len() && gamepads[i].entity
            == entity,
        forall|i: int|
            0 <= i < gamepads.len() && (#[trigger] gamepads[i]).entity == entity && (forall|j: int|
                0 <= j < i ==> (#[trigger] gamepads[j]).entity != entity) ==> place(
                gamepads,
                entity,
            ) == Some(i) && fingerprint(gamepads, entity) == gamepads[i].fingerprint,
        (forall|i: int| 0 <= i < gamepads.len() ==> (#[trigger] gamepads[i]).entity != entity)
            ==> fingerprint(gamepads, entity) == DeviceFingerprint::anonymous(),
{
    let test = stands_for(gamepads, entity);
    select::lemma_first(gamepads.len(), test);
    assert forall|i: int| 0 <= i < gamepads.len() implies #[trigger] test(i) == (
    gamepads[i].entity == entity) by {}
    assert forall|i: int|
        0 <= i < gamepads.len() && (#[trigger] gamepads[i]).entity == entity && (forall|j: int|
            0 <= j < i ==> (#[trigger] gamepads[j]).entity != entity) implies place(
        gamepads,
        entity,
    ) == Some(i) && fingerprint(gamepads, entity) == gamepads[i].fingerprint by {
        assert(test(i));
        select::lemma_first_is(gamepads.len(), test, i);
    }
    match place(gamepads, entity) {
        Some(i) => {
            assert(gamepads[i].entity == entity);
        },
        None => {
            assert forall|i: int| 0 <= i < gamepads.len() implies (#[trigger] gamepads[i]).entity
                != entity by {
                assert(!test(i));
            }
        },
    }
}

} // verus!
