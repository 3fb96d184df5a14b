//! Entities and lists of them.

use bevy_ecs::entity::Entity;
use vstd::prelude::*;

verus! {

/// [`bevy_ecs::entity::Entity`]: an identifier, carried through and compared.
#[verifier::external_type_specification]
#[verifier::external_body]
pub struct ExEntity(bevy_ecs::entity::Entity);

/// `==` of [`Entity`]: it compares the bits of the two identifiers, which are
/// all that an entity holds, so it is true exactly where they are one and the
/// same entity.
#[verifier::external_body]
pub(crate) fn same_entity(a: Entity, b: Entity) -> (r: bool)
    ensures
        r == (a == b),
{
    a == b
}

/// `list` with `entity` at its end, unless it is in the list already.
pub open spec fn joined(list: Seq<Entity>, entity: Entity) -> Seq<Entity> {
    if list.contains(entity) {
        list
    } else {
        list.push(entity)
    }
}

/// Not `entity`.
pub open spec fn other_than(entity: Entity) -> spec_fn(Entity) -> bool {
    |e: Entity| e != entity
}

/// `list` without the occurrences of `entity`.
pub open spec fn without(list: Seq<Entity>, entity: Entity) -> Seq<Entity> {
    list.filter(other_than(entity))
}

/// Whether `entity` is in `list`.
pub(crate) fn contains(list: &Vec<Entity>, entity: Entity) -> (r: bool)
    ensures
        r == list@.contains(entity),
{
    let mut i: usize = 0;
    while i < list.len()
        invariant
            i <= list.len(),
            forall|k: int| 0 <= k < i ==> list@[k] != entity,
        decreases list.len() - i,
    {
        if same_entity(list[i], entity) {
            return true;
        }
        i += 1;
    }
    false
}

/// Puts `entity` at the end of `list`, unless it is in the list already.
pub(crate) fn join(list: &mut Vec<Entity>, entity: Entity)
    ensures
        final(list)@ == joined(old(list)@, entity),
{
    if !contains(list, entity) {
        list.push(entity);
    }
}

/// Takes every occurrence of `entity` out of `list`.
pub(crate) fn remove_all(list: &mut Vec<Entity>, entity: Entity)
    ensures
        final(list)@ == without(old(list)@, entity),
{
    let mut kept: Vec<Entity> = Vec::new();
    let mut i: usize = 0;
    while i < list.len()
        invariant
            i <= list.len(),
            *list == *old(list),
            kept@ == without(list@.take(i as int), entity),
        decreases list.len() - i,
    {
        let e = list[i];
        proof {
            assert(list@.take(i + 1).drop_last() == list@.take(i as int));
            reveal_with_fuel(Seq::filter, 2);
        }
        if !same_entity(e, entity) {
            kept.push(e);
        }
        i += 1;
    }
    proof {
        assert(list@.take(i as int) == list@);
    }
    *list = kept;
}

/// A list without duplicates has none after [`joined`].
pub proof fn lemma_joined_keeps_distinct(list: Seq<Entity>, entity: Entity)
    requires
        list.no_duplicates(),
    ensures
        joined(list, entity).no_duplicates(),
        joined(list, entity).contains(entity),
        forall|e: Entity| list.contains(e) ==> #[trigger] joined(list, entity).contains(e),
{
    let after = joined(list, entity);
    if !list.contains(entity) {
        assert(after[list.len() as int] == entity);
    }
    assert forall|e: Entity| list.contains(e) implies #[trigger] after.contains(e) by {
        let k = choose|k: int| 0 <= k < list.len() && list[k] == e;
        assert(after[k] == e);
    }
}

} // verus!
