use vstd::prelude::*;
use crate::archetype::{Archetype, ComponentTypeId};
use crate::bundles::{archetype_with_types, sort_type_ids, Bundle, ComponentBundle};
use crate::entities::{EntityId, EntityLocation};
use crate::world::World;

verus! {

/// One component is a bundle.
impl<V> ComponentBundle<V> for ((ComponentTypeId, V),) {
    open spec fn wf(&self) -> bool {
        true
    }

    open spec fn components(&self) -> Map<ComponentTypeId, V> {
        Map::<ComponentTypeId, V>::empty().insert(self.0.0, self.0.1)
    }

    fn new_archetype(&self) -> (archetype: Archetype<V>) {
        let mut types: Vec<ComponentTypeId> = Vec::new();
        types.push(self.0.0);
        let sorted = sort_type_ids(&types);
        let archetype = archetype_with_types(&sorted);
        proof {
            assert forall|t: ComponentTypeId| archetype@.has_type(t)
                <==> self.components().contains_key(t) by {
                assert(sorted@.contains(t) <==> types@.contains(t));
                if types@.contains(t) {
                    let i = choose|i: int| 0 <= i < types@.len() && types@[i] == t;
                    assert(types@[i] == t);
                }
                if t == self.0.0 {
                    assert(types@[0] == t);
                }
            }
        }
        archetype
    }

    fn spawn_in_world(self, world: &mut World<V>, entity_id: EntityId) -> (location:
        EntityLocation) {
        let (first,) = self;
        let mut bundle: Bundle<V> = Bundle::new();
        bundle.insert(first.0, first.1);
        bundle.spawn_in_world(world, entity_id)
    }
}

/// Two components of different types are a bundle.
impl<V> ComponentBundle<V> for ((ComponentTypeId, V), (ComponentTypeId, V)) {
    open spec fn wf(&self) -> bool {
        self.0.0 != self.1.0
    }

    open spec fn components(&self) -> Map<ComponentTypeId, V> {
        Map::<ComponentTypeId, V>::empty().insert(self.0.0, self.0.1).insert(self.1.0, self.1.1)
    }

    fn new_archetype(&self) -> (archetype: Archetype<V>) {
        let mut types: Vec<ComponentTypeId> = Vec::new();
        types.push(self.0.0);
        types.push(self.1.0);
        let sorted = sort_type_ids(&types);
        let archetype = archetype_with_types(&sorted);
        proof {
            assert forall|t: ComponentTypeId| archetype@.has_type(t)
                <==> self.components().contains_key(t) by {
                assert(sorted@.contains(t) <==> types@.contains(t));
                if types@.contains(t) {
                    let i = choose|i: int| 0 <= i < types@.len() && types@[i] == t;
                    assert(types@[i] == t);
                }
                if t == self.0.0 {
                    assert(types@[0] == t);
                }
                if t == self.1.0 {
                    assert(types@[1] == t);
                }
            }
        }
        archetype
    }

    fn spawn_in_world(self, world: &mut World<V>, entity_id: EntityId) -> (location:
        EntityLocation) {
        let (first, second) = self;
        let mut bundle: Bundle<V> = Bundle::new();
        bundle.insert(first.0, first.1);
        bundle.insert(second.0, second.1);
        bundle.spawn_in_world(world, entity_id)
    }
}

/// Three components of different types are a bundle.
impl<V> ComponentBundle<V> for (
    (ComponentTypeId, V),
    (ComponentTypeId, V),
    (ComponentTypeId, V),
) {
    open spec fn wf(&self) -> bool {
        self.0.0 != self.1.0 && self.0.0 != self.2.0 && self.1.0 != self.2.0
    }

    open spec fn components(&self) -> Map<ComponentTypeId, V> {
        Map::<ComponentTypeId, V>::empty().insert(self.0.0, self.0.1).insert(
            self.1.0,
            self.1.1,
        ).insert(self.2.0, self.2.1)
    }

    fn new_archetype(&self) -> (archetype: Archetype<V>) {
        let mut types: Vec<ComponentTypeId> = Vec::new();
        types.push(self.0.0);
        types.push(self.1.0);
        types.push(self.2.0);
        let sorted = sort_type_ids(&types);
        let archetype = archetype_with_types(&sorted);
        proof {
            assert forall|t: ComponentTypeId| archetype@.has_type(t)
                <==> self.components().contains_key(t) by {
                assert(sorted@.contains(t) <==> types@.contains(t));
                if types@.contains(t) {
                    let i = choose|i: int| 0 <= i < types@.len() && types@[i] == t;
                    assert(types@[i] == t);
                }
                if t == self.0.0 {
                    assert(types@[0] == t);
                }
                if t == self.1.0 {
                    assert(types@[1] == t);
                }
                if t == self.2.0 {
                    assert(types@[2] == t);
                }
            }
        }
        archetype
    }

    fn spawn_in_world(self, world: &mut World<V>, entity_id: EntityId) -> (location:
        EntityLocation) {
        let (first, second, third) = self;
        let mut bundle: Bundle<V> = Bundle::new();
        bundle.insert(first.0, first.1);
        bundle.insert(second.0, second.1);
        bundle.insert(third.0, third.1);
        bundle.spawn_in_world(world, entity_id)
    }
}

/// Four components of different types are a bundle.
impl<V> ComponentBundle<V> for (
    (ComponentTypeId, V),
    (ComponentTypeId, V),
    (ComponentTypeId, V),
    (ComponentTypeId, V),
) {
    open spec fn wf(&self) -> bool {
        &&& self.0.0 != self.1.0
        &&& self.0.0 != self.2.0
        &&& self.0.0 != self.3.0
        &&& self.1.0 != self.2.0
        &&& self.1.0 != self.3.0
        &&& self.2.0 != self.3.0
    }

    open spec fn components(&self) -> Map<ComponentTypeId, V> {
        Map::<ComponentTypeId, V>::empty().insert(self.0.0, self.0.1).insert(
            self.1.0,
            self.1.1,
        ).insert(self.2.0, self.2.1).insert(self.3.0, self.3.1)
    }

    fn new_archetype(&self) -> (archetype: Archetype<V>) {
        let mut types: Vec<ComponentTypeId> = Vec::new();
        types.push(self.0.0);
        types.push(self.1.0);
        types.push(self.2.0);
        types.push(self.3.0);
        let sorted = sort_type_ids(&types);
        let archetype = archetype_with_types(&sorted);
        proof {
            assert forall|t: ComponentTypeId| archetype@.has_type(t)
                <==> self.components().contains_key(t) by {
                assert(sorted@.contains(t) <==> types@.contains(t));
                if types@.contains(t) {
                    let i = choose|i: int| 0 <= i < types@.len() && types@[i] == t;
                    assert(types@[i] == t);
                }
                if t == self.0.0 {
                    assert(types@[0] == t);
                }
                if t == self.1.0 {
                    assert(types@[1] == t);
                }
                if t == self.2.0 {
                    assert(types@[2] == t);
                }
                if t == self.3.0 {
                    assert(types@[3] == t);
                }
            }
        }
        archetype
    }

    fn spawn_in_world(self, world: &mut World<V>, entity_id: EntityId) -> (location:
        EntityLocation) {
        let (first, second, third, fourth) = self;
        let mut bundle: Bundle<V> = Bundle::new();
        bundle.insert(first.0, first.1);
        bundle.insert(second.0, second.1);
        bundle.insert(third.0, third.1);
        bundle.insert(fourth.0, fourth.1);
        bundle.spawn_in_world(world, entity_id)
    }
}

/// Five components of different types are a bundle.
impl<V> ComponentBundle<V> for (
    (ComponentTypeId, V),
    (ComponentTypeId, V),
    (ComponentTypeId, V),
    (ComponentTypeId, V),
    (ComponentTypeId, V),
) {
    open spec fn wf(&self) -> bool {
        seq![
            self.0.0,
            self.1.0,
            self.2.0,
            self.3.0,
            self.4.0,
        ].no_duplicates()
    }

    open spec fn components(&self) -> Map<ComponentTypeId, V> {
        Map::<ComponentTypeId, V>::empty()
            .insert(self.0.0, self.0.1)
            .insert(self.1.0, self.1.1)
            .insert(self.2.0, self.2.1)
            .insert(self.3.0, self.3.1)
            .insert(self.4.0, self.4.1)
    }

    fn new_archetype(&self) -> (archetype: Archetype<V>) {
        let mut types: Vec<ComponentTypeId> = Vec::new();
        types.push(self.0.0);
        types.push(self.1.0);
        types.push(self.2.0);
        types.push(self.3.0);
        types.push(self.4.0);
        let sorted = sort_type_ids(&types);
        let archetype = archetype_with_types(&sorted);
        proof {
            assert forall|t: ComponentTypeId| archetype@.has_type(t)
                <==> self.components().contains_key(t) by {
                assert(sorted@.contains(t) <==> types@.contains(t));
                if types@.contains(t) {
                    let i = choose|i: int| 0 <= i < types@.len() && types@[i] == t;
                    assert(types@[i] == t);
                }
                if t == self.0.0 {
                    assert(types@[0] == t);
                }
                if t == self.1.0 {
                    assert(types@[1] == t);
                }
                if t == self.2.0 {
                    assert(types@[2] == t);
                }
                if t == self.3.0 {
                    assert(types@[3] == t);
                }
                if t == self.4.0 {
                    assert(types@[4] == t);
                }
            }
        }
        archetype
    }

    fn spawn_in_world(self, world: &mut World<V>, entity_id: EntityId) -> (location:
        EntityLocation) {
        let (c0, c1, c2, c3, c4) = self;
        let mut bundle: Bundle<V> = Bundle::new();
        bundle.insert(c0.0, c0.1);
        bundle.insert(c1.0, c1.1);
        bundle.insert(c2.0, c2.1);
        bundle.insert(c3.0, c3.1);
        bundle.insert(c4.0, c4.1);
        bundle.spawn_in_world(world, entity_id)
    }
}

/// Six components of different types are a bundle.
impl<V> ComponentBundle<V> for (
    (ComponentTypeId, V),
    (ComponentTypeId, V),
    (ComponentTypeId, V),
    (ComponentTypeId, V),
    (ComponentTypeId, V),
    (ComponentTypeId, V),
) {
    open spec fn wf(&self) -> bool {
        seq![
            self.0.0,
            self.1.0,
            self.2.0,
            self.3.0,
            self.4.0,
            self.5.0,
        ].no_duplicates()
    }

    open spec fn components(&self) -> Map<ComponentTypeId, V> {
        Map::<ComponentTypeId, V>::empty()
            .insert(self.0.0, self.0.1)
            .insert(self.1.0, self.1.1)
            .insert(self.2.0, self.2.1)
            .insert(self.3.0, self.3.1)
            .insert(self.4.0, self.4.1)
            .insert(self.5.0, self.5.1)
    }

    fn new_archetype(&self) -> (archetype: Archetype<V>) {
        let mut types: Vec<ComponentTypeId> = Vec::new();
        types.push(self.0.0);
        types.push(self.1.0);
        types.push(self.2.0);
        types.push(self.3.0);
        types.push(self.4.0);
        types.push(self.5.0);
        let sorted = sort_type_ids(&types);
        let archetype = archetype_with_types(&sorted);
        proof {
            assert forall|t: ComponentTypeId| archetype@.has_type(t)
                <==> self.components().contains_key(t) by {
                assert(sorted@.contains(t) <==> types@.contains(t));
                if types@.contains(t) {
                    let i = choose|i: int| 0 <= i < types@.len() && types@[i] == t;
                    assert(types@[i] == t);
                }
                if t == self.0.0 {
                    assert(types@[0] == t);
                }
                if t == self.1.0 {
                    assert(types@[1] == t);
                }
                if t == self.2.0 {
                    assert(types@[2] == t);
                }
                if t == self.3.0 {
                    assert(types@[3] == t);
                }
                if t == self.4.0 {
                    assert(types@[4] == t);
                }
                if t == self.5.0 {
                    assert(types@[5] == t);
                }
            }
        }
        archetype
    }

    fn spawn_in_world(self, world: &mut World<V>, entity_id: EntityId) -> (location:
        EntityLocation) {
        let (c0, c1, c2, c3, c4, c5) = self;
        let mut bundle: Bundle<V> = Bundle::new();
        bundle.insert(c0.0, c0.1);
        bundle.insert(c1.0, c1.1);
        bundle.insert(c2.0, c2.1);
        bundle.insert(c3.0, c3.1);
        bundle.insert(c4.0, c4.1);
        bundle.insert(c5.0, c5.1);
        bundle.spawn_in_world(world, entity_id)
    }
}

/// Seven components of different types are a bundle.
impl<V> ComponentBundle<V> for (
    (ComponentTypeId, V),
    (ComponentTypeId, V),
    (ComponentTypeId, V),
    (ComponentTypeId, V),
    (ComponentTypeId, V),
    (ComponentTypeId, V),
    (ComponentTypeId, V),
) {
    open spec fn wf(&self) -> bool {
        seq![
            self.0.0,
            self.1.0,
            self.2.0,
            self.3.0,
            self.4.0,
            self.5.0,
            self.6.0,
        ].no_duplicates()
    }

    open spec fn components(&self) -> Map<ComponentTypeId, V> {
        Map::<ComponentTypeId, V>::empty()
            .insert(self.0.0, self.0.1)
            .insert(self.1.0, self.1.1)
            .insert(self.2.0, self.2.1)
            .insert(self.3.0, self.3.1)
            .insert(self.4.0, self.4.1)
            .insert(self.5.0, self.5.1)
            .insert(self.6.0, self.6.1)
    }

    fn new_archetype(&self) -> (archetype: Archetype<V>) {
        let mut types: Vec<ComponentTypeId> = Vec::new();
        types.push(self.0.0);
        types.push(self.1.0);
        types.push(self.2.0);
        types.push(self.3.0);
        types.push(self.4.0);
        types.push(self.5.0);
        types.push(self.6.0);
        let sorted = sort_type_ids(&types);
        let archetype = archetype_with_types(&sorted);
        proof {
            assert forall|t: ComponentTypeId| archetype@.has_type(t)
                <==> self.components().contains_key(t) by {
                assert(sorted@.contains(t) <==> types@.contains(t));
                if types@.contains(t) {
                    let i = choose|i: int| 0 <= i < types@.len() && types@[i] == t;
                    assert(types@[i] == t);
                }
                if t == self.0.0 {
                    assert(types@[0] == t);
                }
                if t == self.1.0 {
                    assert(types@[1] == t);
                }
                if t == self.2.0 {
                    assert(types@[2] == t);
                }
                if t == self.3.0 {
                    assert(types@[3] == t);
                }
                if t == self.4.0 {
                    assert(types@[4] == t);
                }
                if t == self.5.0 {
                    assert(types@[5] == t);
                }
                if t == self.6.0 {
                    assert(types@[6] == t);
                }
            }
        }
        archetype
    }

    fn spawn_in_world(self, world: &mut World<V>, entity_id: EntityId) -> (location:
        EntityLocation) {
        let (c0, c1, c2, c3, c4, c5, c6) = self;
        let mut bundle: Bundle<V> = Bundle::new();
        bundle.insert(c0.0, c0.1);
        bundle.insert(c1.0, c1.1);
        bundle.insert(c2.0, c2.1);
        bundle.insert(c3.0, c3.1);
        bundle.insert(c4.0, c4.1);
        bundle.insert(c5.0, c5.1);
        bundle.insert(c6.0, c6.1);
        bundle.spawn_in_world(world, entity_id)
    }
}

/// Eight components of different types are a bundle.
impl<V> ComponentBundle<V> for (
    (ComponentTypeId, V),
    (ComponentTypeId, V),
    (ComponentTypeId, V),
    (ComponentTypeId, V),
    (ComponentTypeId, V),
    (ComponentTypeId, V),
    (ComponentTypeId, V),
    (ComponentTypeId, V),
) {
    open spec fn wf(&self) -> bool {
        seq![
            self.0.0,
            self.1.0,
            self.2.0,
            self.3.0,
            self.4.0,
            self.5.0,
            self.6.0,
            self.7.0,
        ].no_duplicates()
    }

    open spec fn components(&self) -> Map<ComponentTypeId, V> {
        Map::<ComponentTypeId, V>::empty()
            .insert(self.0.0, self.0.1)
            .insert(self.1.0, self.1.1)
            .insert(self.2.0, self.2.1)
            .insert(self.3.0, self.3.1)
            .insert(self.4.0, self.4.1)
            .insert(self.5.0, self.5.1)
            .insert(self.6.0, self.6.1)
            .insert(self.7.0, self.7.1)
    }

    fn new_archetype(&self) -> (archetype: Archetype<V>) {
        let mut types: Vec<ComponentTypeId> = Vec::new();
        types.push(self.0.0);
        types.push(self.1.0);
        types.push(self.2.0);
        types.push(self.3.0);
        types.push(self.4.0);
        types.push(self.5.0);
        types.push(self.6.0);
        types.push(self.7.0);
        let sorted = sort_type_ids(&types);
        let archetype = archetype_with_types(&sorted);
        proof {
            assert forall|t: ComponentTypeId| archetype@.has_type(t)
                <==> self.components().contains_key(t) by {
                assert(sorted@.contains(t) <==> types@.contains(t));
                if types@.contains(t) {
                    let i = choose|i: int| 0 <= i < types@.len() && types@[i] == t;
                    assert(types@[i] == t);
                }
                if t == self.0.0 {
                    assert(types@[0] == t);
                }
                if t == self.1.0 {
                    assert(types@[1] == t);
                }
                if t == self.2.0 {
                    assert(types@[2] == t);
                }
                if t == self.3.0 {
                    assert(types@[3] == t);
                }
                if t == self.4.0 {
                    assert(types@[4] == t);
                }
                if t == self.5.0 {
                    assert(types@[5] == t);
                }
                if t == self.6.0 {
                    assert(types@[6] == t);
                }
                if t == self.7.0 {
                    assert(types@[7] == t);
                }
            }
        }
        archetype
    }

    fn spawn_in_world(self, world: &mut World<V>, entity_id: EntityId) -> (location:
        EntityLocation) {
        let (c0, c1, c2, c3, c4, c5, c6, c7) = self;
        let mut bundle: Bundle<V> = Bundle::new();
        bundle.insert(c0.0, c0.1);
        bundle.insert(c1.0, c1.1);
        bundle.insert(c2.0, c2.1);
        bundle.insert(c3.0, c3.1);
        bundle.insert(c4.0, c4.1);
        bundle.insert(c5.0, c5.1);
        bundle.insert(c6.0, c6.1);
        bundle.insert(c7.0, c7.1);
        bundle.spawn_in_world(world, entity_id)
    }
}

/// Nine components of different types are a bundle.
impl<V> ComponentBundle<V> for (
    (ComponentTypeId, V),
    (ComponentTypeId, V),
    (ComponentTypeId, V),
    (ComponentTypeId, V),
    (ComponentTypeId, V),
    (ComponentTypeId, V),
    (ComponentTypeId, V),
    (ComponentTypeId, V),
    (ComponentTypeId, V),
) {
    open spec fn wf(&self) -> bool {
        seq![
            self.0.0,
            self.1.0,
            self.2.0,
            self.3.0,
            self.4.0,
            self.5.0,
            self.6.0,
            self.7.0,
            self.8.0,
        ].no_duplicates()
    }

    open spec fn components(&self) -> Map<ComponentTypeId, V> {
        Map::<ComponentTypeId, V>::empty()
            .insert(self.0.0, self.0.1)
            .insert(self.1.0, self.1.1)
            .insert(self.2.0, self.2.1)
            .insert(self.3.0, self.3.1)
            .insert(self.4.0, self.4.1)
            .insert(self.5.0, self.5.1)
            .insert(self.6.0, self.6.1)
            .insert(self.7.0, self.7.1)
            .insert(self.8.0, self.8.1)
    }

    fn new_archetype(&self) -> (archetype: Archetype<V>) {
        let mut types: Vec<ComponentTypeId> = Vec::new();
        types.push(self.0.0);
        types.push(self.1.0);
        types.push(self.2.0);
        types.push(self.3.0);
        types.push(self.4.0);
        types.push(self.5.0);
        types.push(self.6.0);
        types.push(self.7.0);
        types.push(self.8.0);
        let sorted = sort_type_ids(&types);
        let archetype = archetype_with_types(&sorted);
        proof {
            assert forall|t: ComponentTypeId| archetype@.has_type(t)
                <==> self.components().contains_key(t) by {
                assert(sorted@.contains(t) <==> types@.contains(t));
                if types@.contains(t) {
                    let i = choose|i: int| 0 <= i < types@.len() && types@[i] == t;
                    assert(types@[i] == t);
                }
                if t == self.0.0 {
                    assert(types@[0] == t);
                }
                if t == self.1.0 {
                    assert(types@[1] == t);
                }
                if t == self.2.0 {
                    assert(types@[2] == t);
                }
                if t == self.3.0 {
                    assert(types@[3] == t);
                }
                if t == self.4.0 {
                    assert(types@[4] == t);
                }
                if t == self.5.0 {
                    assert(types@[5] == t);
                }
                if t == self.6.0 {
                    assert(types@[6] == t);
                }
                if t == self.7.0 {
                    assert(types@[7] == t);
                }
                if t == self.8.0 {
                    assert(types@[8] == t);
                }
            }
        }
        archetype
    }

    fn spawn_in_world(self, world: &mut World<V>, entity_id: EntityId) -> (location:
        EntityLocation) {
        let (c0, c1, c2, c3, c4, c5, c6, c7, c8) = self;
        let mut bundle: Bundle<V> = Bundle::new();
        bundle.insert(c0.0, c0.1);
        bundle.insert(c1.0, c1.1);
        bundle.insert(c2.0, c2.1);
        bundle.insert(c3.0, c3.1);
        bundle.insert(c4.0, c4.1);
        bundle.insert(c5.0, c5.1);
        bundle.insert(c6.0, c6.1);
        bundle.insert(c7.0, c7.1);
        bundle.insert(c8.0, c8.1);
        bundle.spawn_in_world(world, entity_id)
    }
}

/// Ten components of different types are a bundle.
impl<V> ComponentBundle<V> for (
    (ComponentTypeId, V),
    (ComponentTypeId, V),
    (ComponentTypeId, V),
    (ComponentTypeId, V),
    (ComponentTypeId, V),
    (ComponentTypeId, V),
    (ComponentTypeId, V),
    (ComponentTypeId, V),
    (ComponentTypeId, V),
    (ComponentTypeId, V),
) {
    open spec fn wf(&self) -> bool {
        seq![
            self.0.0,
            self.1.0,
            self.2.0,
            self.3.0,
            self.4.0,
            self.5.0,
            self.6.0,
            self.7.0,
            self.8.0,
            self.9.0,
        ].no_duplicates()
    }

    open spec fn components(&self) -> Map<ComponentTypeId, V> {
        Map::<ComponentTypeId, V>::empty()
            .insert(self.0.0, self.0.1)
            .insert(self.1.0, self.1.1)
            .insert(self.2.0, self.2.1)
            .insert(self.3.0, self.3.1)
            .insert(self.4.0, self.4.1)
            .insert(self.5.0, self.5.1)
            .insert(self.6.0, self.6.1)
            .insert(self.7.0, self.7.1)
            .insert(self.8.0, self.8.1)
            .insert(self.9.0, self.9.1)
    }

    fn new_archetype(&self) -> (archetype: Archetype<V>) {
        let mut types: Vec<ComponentTypeId> = Vec::new();
        types.push(self.0.0);
        types.push(self.1.0);
        types.push(self.2.0);
        types.push(self.3.0);
        types.push(self.4.0);
        types.push(self.5.0);
        types.push(self.6.0);
        types.push(self.7.0);
        types.push(self.8.0);
        types.push(self.9.0);
        let sorted = sort_type_ids(&types);
        let archetype = archetype_with_types(&sorted);
        proof {
            assert forall|t: ComponentTypeId| archetype@.has_type(t)
                <==> self.components().contains_key(t) by {
                assert(sorted@.contains(t) <==> types@.contains(t));
                if types@.contains(t) {
                    let i = choose|i: int| 0 <= i < types@.len() && types@[i] == t;
                    assert(types@[i] == t);
                }
                if t == self.0.0 {
                    assert(types@[0] == t);
                }
                if t == self.1.0 {
                    assert(types@[1] == t);
                }
                if t == self.2.0 {
                    assert(types@[2] == t);
                }
                if t == self.3.0 {
                    assert(types@[3] == t);
                }
                if t == self.4.0 {
                    assert(types@[4] == t);
                }
                if t == self.5.0 {
                    assert(types@[5] == t);
                }
                if t == self.6.0 {
                    assert(types@[6] == t);
                }
                if t == self.7.0 {
                    assert(types@[7] == t);
                }
                if t == self.8.0 {
                    assert(types@[8] == t);
                }
                if t == self.9.0 {
                    assert(types@[9] == t);
                }
            }
        }
        archetype
    }

    fn spawn_in_world(self, world: &mut World<V>, entity_id: EntityId) -> (location:
        EntityLocation) {
        let (c0, c1, c2, c3, c4, c5, c6, c7, c8, c9) = self;
        let mut bundle: Bundle<V> = Bundle::new();
        bundle.insert(c0.0, c0.1);
        bundle.insert(c1.0, c1.1);
        bundle.insert(c2.0, c2.1);
        bundle.insert(c3.0, c3.1);
        bundle.insert(c4.0, c4.1);
        bundle.insert(c5.0, c5.1);
        bundle.insert(c6.0, c6.1);
        bundle.insert(c7.0, c7.1);
        bundle.insert(c8.0, c8.1);
        bundle.insert(c9.0, c9.1);
        bundle.spawn_in_world(world, entity_id)
    }
}

/// Eleven components of different types are a bundle.
impl<V> ComponentBundle<V> for (
    (ComponentTypeId, V),
    (ComponentTypeId, V),
    (ComponentTypeId, V),
    (ComponentTypeId, V),
    (ComponentTypeId, V),
    (ComponentTypeId, V),
    (ComponentTypeId, V),
    (ComponentTypeId, V),
    (ComponentTypeId, V),
    (ComponentTypeId, V),
    (ComponentTypeId, V),
) {
    open spec fn wf(&self) -> bool {
        seq![
            self.0.0,
            self.1.0,
            self.2.0,
            self.3.0,
            self.4.0,
            self.5.0,
            self.6.0,
            self.7.0,
            self.8.0,
            self.9.0,
            self.10.0,
        ].no_duplicates()
    }

    open spec fn components(&self) -> Map<ComponentTypeId, V> {
        Map::<ComponentTypeId, V>::empty()
            .insert(self.0.0, self.0.1)
            .insert(self.1.0, self.1.1)
            .insert(self.2.0, self.2.1)
            .insert(self.3.0, self.3.1)
            .insert(self.4.0, self.4.1)
            .insert(self.5.0, self.5.1)
            .insert(self.6.0, self.6.1)
            .insert(self.7.0, self.7.1)
            .insert(self.8.0, self.8.1)
            .insert(self.9.0, self.9.1)
            .insert(self.10.0, self.10.1)
    }

    fn new_archetype(&self) -> (archetype: Archetype<V>) {
        let mut types: Vec<ComponentTypeId> = Vec::new();
        types.push(self.0.0);
        types.push(self.1.0);
        types.push(self.2.0);
        types.push(self.3.0);
        types.push(self.4.0);
        types.push(self.5.0);
        types.push(self.6.0);
        types.push(self.7.0);
        types.push(self.8.0);
        types.push(self.9.0);
        types.push(self.10.0);
        let sorted = sort_type_ids(&types);
        let archetype = archetype_with_types(&sorted);
        proof {
            assert forall|t: ComponentTypeId| archetype@.has_type(t)
                <==> self.components().contains_key(t) by {
                assert(sorted@.contains(t) <==> types@.contains(t));
                if types@.contains(t) {
                    let i = choose|i: int| 0 <= i < types@.len() && types@[i] == t;
                    assert(types@[i] == t);
                }
                if t == self.0.0 {
                    assert(types@[0] == t);
                }
                if t == self.1.0 {
                    assert(types@[1] == t);
                }
                if t == self.2.0 {
                    assert(types@[2] == t);
                }
                if t == self.3.0 {
                    assert(types@[3] == t);
                }
                if t == self.4.0 {
                    assert(types@[4] == t);
                }
                if t == self.5.0 {
                    assert(types@[5] == t);
                }
                if t == self.6.0 {
                    assert(types@[6] == t);
                }
                if t == self.7.0 {
                    assert(types@[7] == t);
                }
                if t == self.8.0 {
                    assert(types@[8] == t);
                }
                if t == self.9.0 {
                    assert(types@[9] == t);
                }
                if t == self.10.0 {
                    assert(types@[10] == t);
                }
            }
        }
        archetype
    }

    fn spawn_in_world(self, world: &mut World<V>, entity_id: EntityId) -> (location:
        EntityLocation) {
        let (c0, c1, c2, c3, c4, c5, c6, c7, c8, c9, c10) = self;
        let mut bundle: Bundle<V> = Bundle::new();
        bundle.insert(c0.0, c0.1);
        bundle.insert(c1.0, c1.1);
        bundle.insert(c2.0, c2.1);
        bundle.insert(c3.0, c3.1);
        bundle.insert(c4.0, c4.1);
        bundle.insert(c5.0, c5.1);
        bundle.insert(c6.0, c6.1);
        bundle.insert(c7.0, c7.1);
        bundle.insert(c8.0, c8.1);
        bundle.insert(c9.0, c9.1);
        bundle.insert(c10.0, c10.1);
        bundle.spawn_in_world(world, entity_id)
    }
}

/// Twelve components of different types are a bundle.
impl<V> ComponentBundle<V> for (
    (ComponentTypeId, V),
    (ComponentTypeId, V),
    (ComponentTypeId, V),
    (ComponentTypeId, V),
    (ComponentTypeId, V),
    (ComponentTypeId, V),
    (ComponentTypeId, V),
    (ComponentTypeId, V),
    (ComponentTypeId, V),
    (ComponentTypeId, V),
    (ComponentTypeId, V),
    (ComponentTypeId, V),
) {
    open spec fn wf(&self) -> bool {
        seq![
            self.0.0,
            self.1.0,
            self.2.0,
            self.3.0,
            self.4.0,
            self.5.0,
            self.6.0,
            self.7.0,
            self.8.0,
            self.9.0,
            self.10.0,
            self.11.0,
        ].no_duplicates()
    }

    open spec fn components(&self) -> Map<ComponentTypeId, V> {
        Map::<ComponentTypeId, V>::empty()
            .insert(self.0.0, self.0.1)
            .insert(self.1.0, self.1.1)
            .insert(self.2.0, self.2.1)
            .insert(self.3.0, self.3.1)
            .insert(self.4.0, self.4.1)
            .insert(self.5.0, self.5.1)
            .insert(self.6.0, self.6.1)
            .insert(self.7.0, self.7.1)
            .insert(self.8.0, self.8.1)
            .insert(self.9.0, self.9.1)
            .insert(self.10.0, self.10.1)
            .insert(self.11.0, self.11.1)
    }

    fn new_archetype(&self) -> (archetype: Archetype<V>) {
        let mut types: Vec<ComponentTypeId> = Vec::new();
        types.push(self.0.0);
        types.push(self.1.0);
        types.push(self.2.0);
        types.push(self.3.0);
        types.push(self.4.0);
        types.push(self.5.0);
        types.push(self.6.0);
        types.push(self.7.0);
        types.push(self.8.0);
        types.push(self.9.0);
        types.push(self.10.0);
        types.push(self.11.0);
        let sorted = sort_type_ids(&types);
        let archetype = archetype_with_types(&sorted);
        proof {
            assert forall|t: ComponentTypeId| archetype@.has_type(t)
                <==> self.components().contains_key(t) by {
                assert(sorted@.contains(t) <==> types@.contains(t));
                if types@.contains(t) {
                    let i = choose|i: int| 0 <= i < types@.len() && types@[i] == t;
                    assert(types@[i] == t);
                }
                if t == self.0.0 {
                    assert(types@[0] == t);
                }
                if t == self.1.0 {
                    assert(types@[1] == t);
                }
                if t == self.2.0 {
                    assert(types@[2] == t);
                }
                if t == self.3.0 {
                    assert(types@[3] == t);
                }
                if t == self.4.0 {
                    assert(types@[4] == t);
                }
                if t == self.5.0 {
                    assert(types@[5] == t);
                }
                if t == self.6.0 {
                    assert(types@[6] == t);
                }
                if t == self.7.0 {
                    assert(types@[7] == t);
                }
                if t == self.8.0 {
                    assert(types@[8] == t);
                }
                if t == self.9.0 {
                    assert(types@[9] == t);
                }
                if t == self.10.0 {
                    assert(types@[10] == t);
                }
                if t == self.11.0 {
                    assert(types@[11] == t);
                }
            }
        }
        archetype
    }

    fn spawn_in_world(self, world: &mut World<V>, entity_id: EntityId) -> (location:
        EntityLocation) {
        let (c0, c1, c2, c3, c4, c5, c6, c7, c8, c9, c10, c11) = self;
        let mut bundle: Bundle<V> = Bundle::new();
        bundle.insert(c0.0, c0.1);
        bundle.insert(c1.0, c1.1);
        bundle.insert(c2.0, c2.1);
        bundle.insert(c3.0, c3.1);
        bundle.insert(c4.0, c4.1);
        bundle.insert(c5.0, c5.1);
        bundle.insert(c6.0, c6.1);
        bundle.insert(c7.0, c7.1);
        bundle.insert(c8.0, c8.1);
        bundle.insert(c9.0, c9.1);
        bundle.insert(c10.0, c10.1);
        bundle.insert(c11.0, c11.1);
        bundle.spawn_in_world(world, entity_id)
    }
}

/// Thirteen components of different types are a bundle.
impl<V> ComponentBundle<V> for (
    (ComponentTypeId, V),
    (ComponentTypeId, V),
    (ComponentTypeId, V),
    (ComponentTypeId, V),
    (ComponentTypeId, V),
    (ComponentTypeId, V),
    (ComponentTypeId, V),
    (ComponentTypeId, V),
    (ComponentTypeId, V),
    (ComponentTypeId, V),
    (ComponentTypeId, V),
    (ComponentTypeId, V),
    (ComponentTypeId, V),
) {
    open spec fn wf(&self) -> bool {
        seq![
            self.0.0,
            self.1.0,
            self.2.0,
            self.3.0,
            self.4.0,
            self.5.0,
            self.6.0,
            self.7.0,
            self.8.0,
            self.9.0,
            self.10.0,
            self.11.0,
            self.12.0,
        ].no_duplicates()
    }

    open spec fn components(&self) -> Map<ComponentTypeId, V> {
        Map::<ComponentTypeId, V>::empty()
            .insert(self.0.0, self.0.1)
            .insert(self.1.0, self.1.1)
            .insert(self.2.0, self.2.1)
            .insert(self.3.0, self.3.1)
            .insert(self.4.0, self.4.1)
            .insert(self.5.0, self.5.1)
            .insert(self.6.0, self.6.1)
            .insert(self.7.0, self.7.1)
            .insert(self.8.0, self.8.1)
            .insert(self.9.0, self.9.1)
            .insert(self.10.0, self.10.1)
            .insert(self.11.0, self.11.1)
            .insert(self.12.0, self.12.1)
    }

    fn new_archetype(&self) -> (archetype: Archetype<V>) {
        let mut types: Vec<ComponentTypeId> = Vec::new();
        types.push(self.0.0);
        types.push(self.1.0);
        types.push(self.2.0);
        types.push(self.3.0);
        types.push(self.4.0);
        types.push(self.5.0);
        types.push(self.6.0);
        types.push(self.7.0);
        types.push(self.8.0);
        types.push(self.9.0);
        types.push(self.10.0);
        types.push(self.11.0);
        types.push(self.12.0);
        let sorted = sort_type_ids(&types);
        let archetype = archetype_with_types(&sorted);
        proof {
            assert forall|t: ComponentTypeId| archetype@.has_type(t)
                <==> self.components().contains_key(t) by {
                assert(sorted@.contains(t) <==> types@.contains(t));
                if types@.contains(t) {
                    let i = choose|i: int| 0 <= i < types@.len() && types@[i] == t;
                    assert(types@[i] == t);
                }
                if t == self.0.0 {
                    assert(types@[0] == t);
                }
                if t == self.1.0 {
                    assert(types@[1] == t);
                }
                if t == self.2.0 {
                    assert(types@[2] == t);
                }
                if t == self.3.0 {
                    assert(types@[3] == t);
                }
                if t == self.4.0 {
                    assert(types@[4] == t);
                }
                if t == self.5.0 {
                    assert(types@[5] == t);
                }
                if t == self.6.0 {
                    assert(types@[6] == t);
                }
                if t == self.7.0 {
                    assert(types@[7] == t);
                }
                if t == self.8.0 {
                    assert(types@[8] == t);
                }
                if t == self.9.0 {
                    assert(types@[9] == t);
                }
                if t == self.10.0 {
                    assert(types@[10] == t);
                }
                if t == self.11.0 {
                    assert(types@[11] == t);
                }
                if t == self.12.0 {
                    assert(types@[12] == t);
                }
            }
        }
        archetype
    }

    fn spawn_in_world(self, world: &mut World<V>, entity_id: EntityId) -> (location:
        EntityLocation) {
        let (c0, c1, c2, c3, c4, c5, c6, c7, c8, c9, c10, c11, c12) = self;
        let mut bundle: Bundle<V> = Bundle::new();
        bundle.insert(c0.0, c0.1);
        bundle.insert(c1.0, c1.1);
        bundle.insert(c2.0, c2.1);
        bundle.insert(c3.0, c3.1);
        bundle.insert(c4.0, c4.1);
        bundle.insert(c5.0, c5.1);
        bundle.insert(c6.0, c6.1);
        bundle.insert(c7.0, c7.1);
        bundle.insert(c8.0, c8.1);
        bundle.insert(c9.0, c9.1);
        bundle.insert(c10.0, c10.1);
        bundle.insert(c11.0, c11.1);
        bundle.insert(c12.0, c12.1);
        bundle.spawn_in_world(world, entity_id)
    }
}

/// Fourteen components of different types are a bundle.
impl<V> ComponentBundle<V> for (
    (ComponentTypeId, V),
    (ComponentTypeId, V),
    (ComponentTypeId, V),
    (ComponentTypeId, V),
    (ComponentTypeId, V),
    (ComponentTypeId, V),
    (ComponentTypeId, V),
    (ComponentTypeId, V),
    (ComponentTypeId, V),
    (ComponentTypeId, V),
    (ComponentTypeId, V),
    (ComponentTypeId, V),
    (ComponentTypeId, V),
    (ComponentTypeId, V),
) {
    open spec fn wf(&self) -> bool {
        seq![
            self.0.0,
            self.1.0,
            self.2.0,
            self.3.0,
            self.4.0,
            self.5.0,
            self.6.0,
            self.7.0,
            self.8.0,
            self.9.0,
            self.10.0,
            self.11.0,
            self.12.0,
            self.13.0,
        ].no_duplicates()
    }

    open spec fn components(&self) -> Map<ComponentTypeId, V> {
        Map::<ComponentTypeId, V>::empty()
            .insert(self.0.0, self.0.1)
            .insert(self.1.0, self.1.1)
            .insert(self.2.0, self.2.1)
            .insert(self.3.0, self.3.1)
            .insert(self.4.0, self.4.1)
            .insert(self.5.0, self.5.1)
            .insert(self.6.0, self.6.1)
            .insert(self.7.0, self.7.1)
            .insert(self.8.0, self.8.1)
            .insert(self.9.0, self.9.1)
            .insert(self.10.0, self.10.1)
            .insert(self.11.0, self.11.1)
            .insert(self.12.0, self.12.1)
            .insert(self.13.0, self.13.1)
    }

    fn new_archetype(&self) -> (archetype: Archetype<V>) {
        let mut types: Vec<ComponentTypeId> = Vec::new();
        types.push(self.0.0);
        types.push(self.1.0);
        types.push(self.2.0);
        types.push(self.3.0);
        types.push(self.4.0);
        types.push(self.5.0);
        types.push(self.6.0);
        types.push(self.7.0);
        types.push(self.8.0);
        types.push(self.9.0);
        types.push(self.10.0);
        types.push(self.11.0);
        types.push(self.12.0);
        types.push(self.13.0);
        let sorted = sort_type_ids(&types);
        let archetype = archetype_with_types(&sorted);
        proof {
            assert forall|t: ComponentTypeId| archetype@.has_type(t)
                <==> self.components().contains_key(t) by {
                assert(sorted@.contains(t) <==> types@.contains(t));
                if types@.contains(t) {
                    let i = choose|i: int| 0 <= i < types@.len() && types@[i] == t;
                    assert(types@[i] == t);
                }
                if t == self.0.0 {
                    assert(types@[0] == t);
                }
                if t == self.1.0 {
                    assert(types@[1] == t);
                }
                if t == self.2.0 {
                    assert(types@[2] == t);
                }
                if t == self.3.0 {
                    assert(types@[3] == t);
                }
                if t == self.4.0 {
                    assert(types@[4] == t);
                }
                if t == self.5.0 {
                    assert(types@[5] == t);
                }
                if t == self.6.0 {
                    assert(types@[6] == t);
                }
                if t == self.7.0 {
                    assert(types@[7] == t);
                }
                if t == self.8.0 {
                    assert(types@[8] == t);
                }
                if t == self.9.0 {
                    assert(types@[9] == t);
                }
                if t == self.10.0 {
                    assert(types@[10] == t);
                }
                if t == self.11.0 {
                    assert(types@[11] == t);
                }
                if t == self.12.0 {
                    assert(types@[12] == t);
                }
                if t == self.13.0 {
                    assert(types@[13] == t);
                }
            }
        }
        archetype
    }

    fn spawn_in_world(self, world: &mut World<V>, entity_id: EntityId) -> (location:
        EntityLocation) {
        let (c0, c1, c2, c3, c4, c5, c6, c7, c8, c9, c10, c11, c12, c13) = self;
        let mut bundle: Bundle<V> = Bundle::new();
        bundle.insert(c0.0, c0.1);
        bundle.insert(c1.0, c1.1);
        bundle.insert(c2.0, c2.1);
        bundle.insert(c3.0, c3.1);
        bundle.insert(c4.0, c4.1);
        bundle.insert(c5.0, c5.1);
        bundle.insert(c6.0, c6.1);
        bundle.insert(c7.0, c7.1);
        bundle.insert(c8.0, c8.1);
        bundle.insert(c9.0, c9.1);
        bundle.insert(c10.0, c10.1);
        bundle.insert(c11.0, c11.1);
        bundle.insert(c12.0, c12.1);
        bundle.insert(c13.0, c13.1);
        bundle.spawn_in_world(world, entity_id)
    }
}

/// Fifteen components of different types are a bundle.
impl<V> ComponentBundle<V> for (
    (ComponentTypeId, V),
    (ComponentTypeId, V),
    (ComponentTypeId, V),
    (ComponentTypeId, V),
    (ComponentTypeId, V),
    (ComponentTypeId, V),
    (ComponentTypeId, V),
    (ComponentTypeId, V),
    (ComponentTypeId, V),
    (ComponentTypeId, V),
    (ComponentTypeId, V),
    (ComponentTypeId, V),
    (ComponentTypeId, V),
    (ComponentTypeId, V),
    (ComponentTypeId, V),
) {
    open spec fn wf(&self) -> bool {
        seq![
            self.0.0,
            self.1.0,
            self.2.0,
            self.3.0,
            self.4.0,
            self.5.0,
            self.6.0,
            self.7.0,
            self.8.0,
            self.9.0,
            self.10.0,
            self.11.0,
            self.12.0,
            self.13.0,
            self.14.0,
        ].no_duplicates()
    }

    open spec fn components(&self) -> Map<ComponentTypeId, V> {
        Map::<ComponentTypeId, V>::empty()
            .insert(self.0.0, self.0.1)
            .insert(self.1.0, self.1.1)
            .insert(self.2.0, self.2.1)
            .insert(self.3.0, self.3.1)
            .insert(self.4.0, self.4.1)
            .insert(self.5.0, self.5.1)
            .insert(self.6.0, self.6.1)
            .insert(self.7.0, self.7.1)
            .insert(self.8.0, self.8.1)
            .insert(self.9.0, self.9.1)
            .insert(self.10.0, self.10.1)
            .insert(self.11.0, self.11.1)
            .insert(self.12.0, self.12.1)
            .insert(self.13.0, self.13.1)
            .insert(self.14.0, self.14.1)
    }

    fn new_archetype(&self) -> (archetype: Archetype<V>) {
        let mut types: Vec<ComponentTypeId> = Vec::new();
        types.push(self.0.0);
        types.push(self.1.0);
        types.push(self.2.0);
        types.push(self.3.0);
        types.push(self.4.0);
        types.push(self.5.0);
        types.push(self.6.0);
        types.push(self.7.0);
        types.push(self.8.0);
        types.push(self.9.0);
        types.push(self.10.0);
        types.push(self.11.0);
        types.push(self.12.0);
        types.push(self.13.0);
        types.push(self.14.0);
        let sorted = sort_type_ids(&types);
        let archetype = archetype_with_types(&sorted);
        proof {
            assert forall|t: ComponentTypeId| archetype@.has_type(t)
                <==> self.components().contains_key(t) by {
                assert(sorted@.contains(t) <==> types@.contains(t));
                if types@.contains(t) {
                    let i = choose|i: int| 0 <= i < types@.len() && types@[i] == t;
                    assert(types@[i] == t);
                }
                if t == self.0.0 {
                    assert(types@[0] == t);
                }
                if t == self.1.0 {
                    assert(types@[1] == t);
                }
                if t == self.2.0 {
                    assert(types@[2] == t);
                }
                if t == self.3.0 {
                    assert(types@[3] == t);
                }
                if t == self.4.0 {
                    assert(types@[4] == t);
                }
                if t == self.5.0 {
                    assert(types@[5] == t);
                }
                if t == self.6.0 {
                    assert(types@[6] == t);
                }
                if t == self.7.0 {
                    assert(types@[7] == t);
                }
                if t == self.8.0 {
                    assert(types@[8] == t);
                }
                if t == self.9.0 {
                    assert(types@[9] == t);
                }
                if t == self.10.0 {
                    assert(types@[10] == t);
                }
                if t == self.11.0 {
                    assert(types@[11] == t);
                }
                if t == self.12.0 {
                    assert(types@[12] == t);
                }
                if t == self.13.0 {
                    assert(types@[13] == t);
                }
                if t == self.14.0 {
                    assert(types@[14] == t);
                }
            }
        }
        archetype
    }

    fn spawn_in_world(self, world: &mut World<V>, entity_id: EntityId) -> (location:
        EntityLocation) {
        let (c0, c1, c2, c3, c4, c5, c6, c7, c8, c9, c10, c11, c12, c13, c14) = self;
        let mut bundle: Bundle<V> = Bundle::new();
        bundle.insert(c0.0, c0.1);
        bundle.insert(c1.0, c1.1);
        bundle.insert(c2.0, c2.1);
        bundle.insert(c3.0, c3.1);
        bundle.insert(c4.0, c4.1);
        bundle.insert(c5.0, c5.1);
        bundle.insert(c6.0, c6.1);
        bundle.insert(c7.0, c7.1);
        bundle.insert(c8.0, c8.1);
        bundle.insert(c9.0, c9.1);
        bundle.insert(c10.0, c10.1);
        bundle.insert(c11.0, c11.1);
        bundle.insert(c12.0, c12.1);
        bundle.insert(c13.0, c13.1);
        bundle.insert(c14.0, c14.1);
        bundle.spawn_in_world(world, entity_id)
    }
}

} // verus!
