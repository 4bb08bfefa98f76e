use vstd::prelude::*;
use std::collections::HashMap;
use crate::archetype::{
    Archetype, ArchetypeError, ArchetypeId, ComponentSet, ComponentStore, ComponentTypeId,
};
use crate::archetype_view::ArchetypeView;
use crate::bundles::{bundle_id_of, calculate_bundle_id, BundleId, ComponentBundle};
use crate::entities::{
    lemma_live_handles_counted, live_handles, Entities, Entity, EntityArchetypeIndex, EntityEntry,
    EntityError, EntityId, EntityLocation,
};
use crate::helpers::{
    binary_search, index_twice, lemma_insert_contains, lemma_insert_keeps_sorted,
    lemma_remove_contains, lemma_remove_keeps_sorted, lemma_sorted_lists_equal,
    lemma_sorted_no_duplicates, lemma_swap_removed_keeps_others, strictly_sorted, swap_removed,
};
use crate::layout::Layout;
use crate::queries::error::FetchError;
use crate::queries::query::{Query, QueryMut};
use crate::queries::query_parameters::{
    asks_to_write, conflicting, matches_parameters, QueryParameters,
};

verus! {

/// What the world refuses with: the error of the part that refused.
#[derive(Debug, PartialEq, Eq, Clone, Copy, Structural)]
pub enum EcsError {
    ArchetypeErr(ArchetypeError),
    EntityErr(EntityError),
    QueryErr(FetchError),
}

impl EcsError {
    /// The error in words: which part of the world refused, and why.
    pub open spec fn text(self) -> Seq<char> {
        match self {
            EcsError::ArchetypeErr(error) => "Archetype error: "@ + error.text(),
            EcsError::EntityErr(error) => "Entity error: "@ + error.text(),
            EcsError::QueryErr(error) => "Query error: "@ + error.text(),
        }
    }

    /// The error in words: which part of the world refused, and why.
    pub fn message(&self) -> (text: String)
        ensures
            text@ == self.text(),
    {
        match self {
            EcsError::ArchetypeErr(error) => {
                let reason = error.message();
                String::from_str("Archetype error: ").concat(reason.as_str())
            },
            EcsError::EntityErr(error) => {
                let reason = error.message();
                String::from_str("Entity error: ").concat(reason.as_str())
            },
            EcsError::QueryErr(error) => {
                let reason = error.message();
                String::from_str("Query error: ").concat(reason.as_str())
            },
        }
    }
}

/// The component types of each archetype, by archetype id.
pub open spec fn schemas<V>(archetypes: Seq<ArchetypeView<V>>) -> Seq<Seq<ComponentTypeId>> {
    Seq::new(archetypes.len(), |a: int| archetypes[a].type_ids())
}

/// No two archetypes have the same component types, and the cache leads
/// from the identifier of each archetype's types to an archetype with that
/// identifier.
pub open spec fn schemas_wf(
    schemas: Seq<Seq<ComponentTypeId>>,
    cache: Map<BundleId, ArchetypeId>,
) -> bool {
    &&& forall|a: int, b: int|
        0 <= a < b < schemas.len() ==> #[trigger] schemas[a] != #[trigger] schemas[b]
    &&& forall|id: BundleId| #[trigger]
        cache.contains_key(id) ==> (cache[id] as int) < schemas.len() && bundle_id_of(
            schemas[cache[id] as int],
        ) == id
    &&& forall|a: int|
        0 <= a < schemas.len() ==> cache.contains_key(bundle_id_of(#[trigger] schemas[a]))
}

/// The entities and their components after a live entity has got `value`
/// as its component of type `type_id`.
pub open spec fn with_component<V>(
    world: Map<Entity, Map<ComponentTypeId, V>>,
    entity: Entity,
    type_id: ComponentTypeId,
    value: V,
) -> Map<Entity, Map<ComponentTypeId, V>> {
    world.insert(entity, world[entity].insert(type_id, value))
}

/// The entities and their components after a live entity has lost its
/// component of type `type_id`.
pub open spec fn without_component<V>(
    world: Map<Entity, Map<ComponentTypeId, V>>,
    entity: Entity,
    type_id: ComponentTypeId,
) -> Map<Entity, Map<ComponentTypeId, V>> {
    world.insert(entity, world[entity].remove(type_id))
}

/// An entity with components of the types `a` and `b` that gets one of
/// type `c` and then loses the one of type `b` has components of exactly
/// the types `a` and `c`; the one of type `a` is what it was, and no other
/// entity has changed.
pub proof fn lemma_migration_preserves_data<V>(
    world: Map<Entity, Map<ComponentTypeId, V>>,
    entity: Entity,
    a: ComponentTypeId,
    b: ComponentTypeId,
    c: ComponentTypeId,
    value: V,
)
    requires
        world.contains_key(entity),
        world[entity].dom() == set![a, b],
        c != a,
        c != b,
        a != b,
    ensures
        ({
            let after = without_component(with_component(world, entity, c, value), entity, b);
            &&& after.dom() == world.dom()
            &&& after[entity].dom() == set![a, c]
            &&& after[entity][a] == world[entity][a]
            &&& after[entity][c] == value
            &&& forall|other: Entity|
                other != entity && world.contains_key(other) ==> #[trigger] after[other]
                    == world[other]
        }),
{
    let after = without_component(with_component(world, entity, c, value), entity, b);
    assert(after.dom() =~= world.dom());
    assert(after[entity].dom() =~= set![a, c]);
}

/// The store of entities and their components.
pub struct World<V> {
    entities: Entities,
    archetypes: Vec<Archetype<V>>,
    bundle_to_archetype: HashMap<BundleId, ArchetypeId>,
}

impl<V> World<V> {
    /// The generational entity table.
    pub closed spec fn entity_table(&self) -> Entities {
        self.entities
    }

    /// The archetypes, by archetype id.
    pub closed spec fn archetypes(&self) -> Seq<ArchetypeView<V>> {
        Seq::new(self.archetypes@.len(), |a: int| self.archetypes@[a]@)
    }

    /// Which archetype each bundle identifier was last registered for.
    pub closed spec fn bundle_cache(&self) -> Map<BundleId, ArchetypeId> {
        self.bundle_to_archetype@
    }

    /// The entity table and the archetypes as plain data.
    pub open spec fn layout(&self) -> Layout<V> {
        Layout { entries: self.entity_table().entries(), archetypes: self.archetypes() }
    }

    /// The archetypes and the cache agree.
    pub open spec fn registry_wf(&self) -> bool {
        schemas_wf(schemas(self.archetypes()), self.bundle_cache())
    }

    /// The entity table is well formed, every live entity has its row and
    /// every row its live entity, and the archetypes and the cache agree.
    pub open spec fn wf(&self) -> bool {
        &&& self.entity_table().wf()
        &&& self.layout().consistent()
        &&& self.registry_wf()
    }

    /// The live entities, each with its components by component type.
    pub open spec fn view(&self) -> Map<Entity, Map<ComponentTypeId, V>> {
        self.layout().view()
    }

    /// The archetype `archetype_id` exists and has a column of `type_id`.
    pub open spec fn has_column(
        &self,
        archetype_id: ArchetypeId,
        type_id: ComponentTypeId,
    ) -> bool {
        let a = archetype_id as int;
        a < self.archetypes().len() && self.archetypes()[a].has_type(type_id)
    }

    /// The values of the column of `type_id` in the archetype
    /// `archetype_id`, by row.
    pub open spec fn column(&self, archetype_id: ArchetypeId, type_id: ComponentTypeId) -> Seq<V> {
        self.archetypes()[archetype_id as int].column(type_id)
    }

    /// The world has an archetype for exactly this set of component types.
    pub open spec fn has_archetype_for(&self, types: Set<ComponentTypeId>) -> bool {
        exists|a: int|
            0 <= a < self.archetypes().len() && (#[trigger] self.archetypes()[a]).has_exactly(
                types,
            )
    }

    /// The cache of `other` is what a row move to the archetype
    /// `destination` leaves of this world's cache: the same where the
    /// archetype is one of this world, and with the archetype entered
    /// under the identifier of its component types where it is new.
    pub open spec fn cache_follows(&self, other: &Self, destination: ArchetypeId) -> bool {
        other.bundle_cache() == (if (destination as int) < self.archetypes().len() {
            self.bundle_cache()
        } else {
            self.bundle_cache().insert(
                bundle_id_of(other.archetypes()[destination as int].type_ids()),
                destination,
            )
        })
    }

    /// The location that the table records for the slot of `entity`.
    pub open spec fn location(&self, entity: Entity) -> EntityLocation {
        self.entity_table().entries()[entity.index as int].location
    }

    /// A world without entities and without archetypes.
    pub fn new() -> (world: Self)
        ensures
            world.wf(),
            world.can_spawn(),
            world@ == Map::<Entity, Map<ComponentTypeId, V>>::empty(),
            world.archetypes().len() == 0,
            world.layout().entries.len() == 0,
            world.free_slots().len() == 0,
    {
        let world = World {
            entities: Entities::default(),
            archetypes: Vec::new(),
            bundle_to_archetype: HashMap::new(),
        };
        proof {
            assert(world@ =~= Map::<Entity, Map<ComponentTypeId, V>>::empty());
        }
        world
    }

    /// Appends an archetype to the list.
    pub(crate) fn add_archetype(&mut self, archetype: Archetype<V>)
        ensures
            final(self).archetypes() == old(self).archetypes().push(archetype@),
            final(self).entity_table() == old(self).entity_table(),
            final(self).bundle_cache() == old(self).bundle_cache(),
    {
        self.archetypes.push(archetype);
        proof {
            assert(self.archetypes() =~= old(self).archetypes().push(archetype@));
        }
    }

    /// The archetype with the given id, to read.
    pub(crate) fn get_archetype(&self, archetype_id: ArchetypeId) -> (archetype: &Archetype<V>)
        requires
            (archetype_id as int) < self.archetypes().len(),
        ensures
            archetype@ == self.archetypes()[archetype_id as int],
    {
        &self.archetypes[archetype_id]
    }

    /// The archetype with the given id, to change.
    pub(crate) fn get_archetype_mut(&mut self, archetype_id: ArchetypeId)
        -> (archetype: &mut Archetype<
        V,
    >)
        requires
            (archetype_id as int) < old(self).archetypes().len(),
        ensures
            archetype@ == old(self).archetypes()[archetype_id as int],
            final(self).archetypes() == old(self).archetypes().update(
                archetype_id as int,
                final(archetype)@,
            ),
            final(self).entity_table() == old(self).entity_table(),
            final(self).bundle_cache() == old(self).bundle_cache(),
    {
        &mut self.archetypes[archetype_id]
    }

    /// The archetype that the cache has for the bundle identifier.
    pub(crate) fn get_bundle_archetype(&self, bundle_id: BundleId) -> (found: Option<&ArchetypeId>)
        ensures
            found == (if self.bundle_cache().contains_key(bundle_id) {
                Some(&self.bundle_cache()[bundle_id])
            } else {
                None
            }),
    {
        self.bundle_to_archetype.get(&bundle_id)
    }

    /// Enters an archetype in the cache under the bundle identifier.
    /// Returns what the cache had there.
    pub(crate) fn set_bundle_archetype(&mut self, bundle_id: BundleId, archetype_id: ArchetypeId)
        -> (before:
        Option<ArchetypeId>)
        ensures
            final(self).bundle_cache() == old(self).bundle_cache().insert(bundle_id, archetype_id),
            final(self).archetypes() == old(self).archetypes(),
            final(self).entity_table() == old(self).entity_table(),
            before == (if old(self).bundle_cache().contains_key(bundle_id) {
                Some(old(self).bundle_cache()[bundle_id])
            } else {
                None
            }),
    {
        self.bundle_to_archetype.insert(bundle_id, archetype_id)
    }

    /// The id that the next archetype will get.
    pub(crate) fn next_archetype_id(&self) -> (id: usize)
        ensures
            id == self.archetypes().len(),
    {
        self.archetypes.len()
    }

    /// Appends the entity to the entity list of an archetype. Returns its
    /// row.
    pub(crate) fn add_entity_to_archetype(
        &mut self,
        archetype_id: ArchetypeId,
        entity_id: EntityId,
    ) -> (index: EntityArchetypeIndex)
        requires
            (archetype_id as int) < old(self).archetypes().len(),
        ensures
            index == old(self).archetypes()[archetype_id as int].entities.len(),
            final(self).archetypes() == old(self).archetypes().update(
                archetype_id as int,
                old(self).archetypes()[archetype_id as int].with_entities(
                    old(self).archetypes()[archetype_id as int].entities.push(entity_id),
                ),
            ),
            final(self).entity_table() == old(self).entity_table(),
            final(self).bundle_cache() == old(self).bundle_cache(),
    {
        self.get_archetype_mut(archetype_id).add_entity(entity_id)
    }

    /// Appends a component to its column in an archetype.
    pub(crate) fn add_component_to_archetype(
        &mut self,
        archetype_id: ArchetypeId,
        type_id: ComponentTypeId,
        component: V,
    )
        requires
            (archetype_id as int) < old(self).archetypes().len(),
            old(self).archetypes()[archetype_id as int].sorted(),
            old(self).archetypes()[archetype_id as int].has_type(type_id),
        ensures
            final(self).archetypes() == old(self).archetypes().update(
                archetype_id as int,
                old(self).archetypes()[archetype_id as int].with_column(
                    type_id,
                    old(self).archetypes()[archetype_id as int].column(type_id).push(component),
                ),
            ),
            final(self).entity_table() == old(self).entity_table(),
            final(self).bundle_cache() == old(self).bundle_cache(),
    {
        self.get_archetype_mut(archetype_id).add_entity_component(type_id, component)
    }

    /// Overwrites the component of one type in the row at `entity_location`.
    pub(crate) fn set_component_in_archetype(
        &mut self,
        entity_location: &EntityLocation,
        type_id: ComponentTypeId,
        component: V,
    )
        requires
            (entity_location.archetype_id as int) < old(self).archetypes().len(),
            ({
                let archetype = old(self).archetypes()[entity_location.archetype_id as int];
                &&& archetype.sorted()
                &&& archetype.has_type(type_id)
                &&& entity_location.index_in_archetype < archetype.column(type_id).len()
            }),
        ensures
            ({
                let archetype = old(self).archetypes()[entity_location.archetype_id as int];
                final(self).archetypes() == old(self).archetypes().update(
                    entity_location.archetype_id as int,
                    archetype.with_column(
                        type_id,
                        archetype.column(type_id).update(
                            entity_location.index_in_archetype as int,
                            component,
                        ),
                    ),
                )
            }),
            final(self).entity_table() == old(self).entity_table(),
            final(self).bundle_cache() == old(self).bundle_cache(),
    {
        let result = self.get_archetype_mut(entity_location.archetype_id).set_entity_component(
            entity_location.index_in_archetype,
            type_id,
            component,
        );
        assert(result is Ok);
    }

    /// The archetype whose component types are exactly `types`, if the world
    /// has one. The cache is asked first; where another list of types has
    /// the same identifier, the archetypes are looked through.
    pub(crate) fn find_archetype(&self, bundle_id: BundleId, types: &Vec<ComponentTypeId>)
        -> (found:
        Option<ArchetypeId>)
        requires
            self.registry_wf(),
            self.layout().archetypes_wf(),
            strictly_sorted(types@),
            bundle_id == bundle_id_of(types@),
        ensures
            found is Some <==> self.has_archetype_for(types@.to_set()),
            match found {
                Some(id) => (id as int) < self.archetypes().len()
                    && self.archetypes()[id as int].type_ids()
                    == types@,
                None => forall|a: int|
                    0 <= a < self.archetypes().len()
                        ==> (#[trigger] self.archetypes()[a]).type_ids()
                        != types@,
            },
    {
        let ghost list = schemas(self.archetypes());
        let found = match self.get_bundle_archetype(bundle_id) {
            None => {
                proof {
                    let all = self.archetypes();
                    assert forall|a: int|
                        0 <= a < all.len() implies (#[trigger] all[a]).type_ids() != types@ by {
                        assert(self.bundle_cache().contains_key(bundle_id_of(list[a])));
                    }
                }
                None
            },
            Some(id) => {
                let id: ArchetypeId = *id;
                assert(self.bundle_cache().contains_key(bundle_id));
                assert((id as int) < list.len());
                if self.get_archetype(id).has_types(types) {
                    Some(id)
                } else {
                    self.scan_for_archetype(types)
                }
            },
        };
        proof {
            self.lemma_archetype_for(types@, found);
        }
        found
    }

    /// Looks through all archetypes for the one whose component types are
    /// exactly `types`.
    fn scan_for_archetype(&self, types: &Vec<ComponentTypeId>) -> (found: Option<ArchetypeId>)
        ensures
            match found {
                Some(id) => (id as int) < self.archetypes().len()
                    && self.archetypes()[id as int].type_ids() == types@,
                None => forall|a: int|
                    0 <= a < self.archetypes().len()
                        ==> (#[trigger] self.archetypes()[a]).type_ids() != types@,
            },
    {
        let mut a: usize = 0;
        while a < self.archetypes.len()
            invariant
                a <= self.archetypes.len(),
                forall|b: int|
                    0 <= b < a ==> (#[trigger] self.archetypes()[b]).type_ids() != types@,
            decreases self.archetypes.len() - a,
        {
            if self.archetypes[a].has_types(types) {
                return Some(a);
            }
            a = a + 1;
        }
        None
    }

    /// An archetype with exactly the component types of a strictly sorted
    /// list is one whose list of types is that list.
    proof fn lemma_archetype_for(&self, types: Seq<ComponentTypeId>, found: Option<ArchetypeId>)
        requires
            self.layout().archetypes_wf(),
            strictly_sorted(types),
            match found {
                Some(id) => (id as int) < self.archetypes().len()
                    && self.archetypes()[id as int].type_ids() == types,
                None => forall|a: int|
                    0 <= a < self.archetypes().len()
                        ==> (#[trigger] self.archetypes()[a]).type_ids() != types,
            },
        ensures
            found is Some <==> self.has_archetype_for(types.to_set()),
    {
        match found {
            Some(id) => {
                assert(self.archetypes()[id as int].has_exactly(types.to_set()));
            },
            None => {
                if self.has_archetype_for(types.to_set()) {
                    let all = self.archetypes();
                    let a = choose|a: int|
                        0 <= a < all.len() && (#[trigger] all[a]).has_exactly(types.to_set());
                    assert(self.layout().archetypes[a].wf());
                    assert forall|t: ComponentTypeId| self.archetypes()[a].type_ids().contains(t)
                        <==> types.contains(t) by {
                        assert(self.archetypes()[a].has_type(t) <==> types.to_set().contains(t));
                    }
                    lemma_sorted_lists_equal(self.archetypes()[a].type_ids(), types);
                }
            },
        }
    }

    /// Adds `archetype` to the world and enters it in the cache under
    /// `bundle_id`. Returns its id.
    pub(crate) fn register_archetype(&mut self, bundle_id: BundleId, archetype: Archetype<V>)
        -> (id:
        ArchetypeId)
        requires
            old(self).registry_wf(),
            archetype@.wf(),
            archetype@.entities.len() == 0,
            bundle_id == bundle_id_of(archetype@.type_ids()),
            forall|a: int|
                0 <= a < old(self).archetypes().len()
                    ==> (#[trigger] old(self).archetypes()[a]).type_ids()
                    != archetype@.type_ids(),
        ensures
            final(self).registry_wf(),
            id == old(self).archetypes().len(),
            final(self).archetypes() == old(self).archetypes().push(archetype@),
            final(self).bundle_cache() == old(self).bundle_cache().insert(bundle_id, id),
            final(self).entity_table() == old(self).entity_table(),
    {
        let ghost before = schemas(self.archetypes());
        let ghost added = archetype@.type_ids();
        let id = self.next_archetype_id();
        self.set_bundle_archetype(bundle_id, id);
        self.add_archetype(archetype);
        proof {
            let after = schemas(self.archetypes());
            assert(after =~= before.push(added));
            assert forall|a: int, b: int| 0 <= a < b < after.len() implies #[trigger] after[a]
                != #[trigger] after[b] by {
                if b == id {
                    assert(old(self).archetypes()[a].type_ids() != added);
                } else {
                    assert(before[a] != before[b]);
                }
            }
            assert forall|key: BundleId| #[trigger]
                self.bundle_cache().contains_key(key) implies (self.bundle_cache()[key] as int)
                < after.len() && bundle_id_of(after[self.bundle_cache()[key] as int]) == key by {
                if key != bundle_id {
                    assert(old(self).bundle_cache().contains_key(key));
                }
            }
            assert forall|a: int| 0 <= a < after.len() implies self.bundle_cache().contains_key(
                bundle_id_of(#[trigger] after[a]),
            ) by {
                if a < id {
                    assert(old(self).bundle_cache().contains_key(bundle_id_of(before[a])));
                }
            }
        }
        id
    }

    /// The entity table has a slot to give.
    pub open spec fn can_spawn(&self) -> bool {
        self.entity_table().can_allocate()
    }

    /// The handle that the next spawned entity gets.
    pub open spec fn next_entity(&self) -> Entity {
        self.entity_table().next_entity()
    }

    /// The freed slots of the entity table, most recently freed last.
    pub open spec fn free_slots(&self) -> Seq<EntityId> {
        self.entity_table().free_list()
    }

    /// The handle names a slot whose generation has moved past it.
    pub open spec fn is_stale(&self, entity: Entity) -> bool {
        self.layout().stale(entity)
    }

    /// Whether `spawn` is within the limits of the entity table.
    pub fn has_room(&self) -> (b: bool)
        ensures
            b == self.can_spawn(),
    {
        self.entities.has_room()
    }

    /// Spawns an entity with the components of `bundle`.
    pub fn spawn<B: ComponentBundle<V>>(&mut self, bundle: B) -> (entity: Entity)
        requires
            old(self).wf(),
            old(self).can_spawn(),
            bundle.wf(),
        ensures
            final(self).wf(),
            entity == old(self).next_entity(),
            !old(self)@.contains_key(entity),
            !old(self).is_stale(entity),
            final(self)@ == old(self)@.insert(entity, bundle.components()),
            final(self).free_slots() == (if old(self).free_slots().len() > 0 {
                old(self).free_slots().drop_last()
            } else {
                old(self).free_slots()
            }),
            final(self).layout().entries.len() == (if old(self).free_slots().len() > 0 {
                old(self).layout().entries.len()
            } else {
                old(self).layout().entries.len() + 1
            }),
            old(self).layout().generations_kept(final(self).layout()),
            old(self).layout().same_archetypes_except(
                final(self).layout(),
                final(self).location(entity).archetype_id as int,
                final(self).location(entity).archetype_id as int,
            ),
            old(self).layout().row_added(
                final(self).layout(),
                entity.index as int,
                final(self).location(entity),
                bundle.components(),
            ),
            old(self).cache_follows(final(self), final(self).location(entity).archetype_id),
            old(self).has_archetype_for(bundle.components().dom())
                <==> final(self).archetypes().len() == old(self).archetypes().len(),
            forall|a: int|
                0 <= a < old(self).archetypes().len()
                    ==> (#[trigger] final(self).archetypes()[a]).type_ids()
                    == old(self).archetypes()[a].type_ids(),
    {
        let ghost start = self.layout();
        let ghost values = bundle.components();
        let entity = self.entities.allocate().unwrap();
        let ghost x = entity.index as int;
        proof {
            let free = old(self).entity_table().free_list();
            if free.len() > 0 {
                assert(free[free.len() - 1] == entity.index);
                assert(!start.slot_live(x));
            }
            start.lemma_revive(self.layout().entries, x);
        }
        let ghost revived = self.layout();
        let location = bundle.spawn_in_world(self, entity.index);
        let placed = self.entities.set_location(entity.index, location);
        proof {
            assert(placed is Ok);
            let after = self.layout();
            assert(after =~= Layout {
                entries: revived.entries.update(x, revived.entries[x].with_location(location)),
                archetypes: self.archetypes(),
            });
            assert forall|i: int| #[trigger] start.slot_live(i) && i != x implies after.components(
                i,
            ) == start.components(i) by {
                assert(revived.slot_live(i));
            }
            start.lemma_view_inserted(after, entity, values);
        }
        entity
    }

    /// Removes the entity: its row leaves its archetype, the entity that
    /// takes over the row is told so, and the slot is freed for the next
    /// generation. A handle that is not live changes nothing.
    pub fn remove(&mut self, entity: Entity)
        requires
            old(self).wf(),
            old(self)@.contains_key(entity) ==> entity.generation < u32::MAX,
        ensures
            final(self).wf(),
            final(self)@ == old(self)@.remove(entity),
            old(self)@.contains_key(entity) ==> final(self).is_stale(entity),
            final(self).free_slots() == (if old(self)@.contains_key(entity) {
                old(self).free_slots().push(entity.index)
            } else {
                old(self).free_slots()
            }),
            old(self).layout().generations_kept(final(self).layout()),
            old(self).layout().same_schemas(final(self).layout()),
            old(self)@.contains_key(entity) ==> {
                let evicted = old(self).layout().evict(entity.index as int);
                &&& final(self).layout().archetypes == evicted.archetypes
                &&& final(self).layout().entries == evicted.entries.update(
                    entity.index as int,
                    evicted.entries[entity.index as int].retired(),
                )
            },
            !old(self)@.contains_key(entity) ==> final(self).layout() == old(self).layout(),
            final(self).bundle_cache() == old(self).bundle_cache(),
    {
        let ghost start = self.layout();
        let ghost x = entity.index as int;
        let location = match self.entities.live_at_index(entity.index) {
            Some(entry) => {
                if entry.generation != entity.generation {
                    proof {
                        assert(self@ =~= old(self)@.remove(entity));
                    }
                    return ;
                }
                entry.location
            },
            None => {
                proof {
                    assert(self@ =~= old(self)@.remove(entity));
                }
                return ;
            },
        };
        proof {
            assert(start.slot_live(x));
            assert(start.located(x));
            assert(start.archetypes[location.archetype_id as int].wf());
            start.lemma_evict(x);
        }
        let archetype = &mut self.archetypes[location.archetype_id];
        archetype.remove_entity_components(location.index_in_archetype);
        let moved = archetype.remove_entity(location.index_in_archetype);
        if let Some(moved) = moved {
            proof {
                let last = start.archetypes[location.archetype_id as int].entities.len() - 1;
                assert(start.in_rows(location.archetype_id as int, last));
                assert(start.row_owned(location.archetype_id as int, last));
            }
            let fixed = self.entities.set_location(moved, location);
            assert(fixed is Ok);
        }
        let ghost evicted = self.layout();
        proof {
            assert(evicted.archetypes =~= start.evict(x).archetypes);
            assert(evicted.entries =~= start.evict(x).entries);
            assert(evicted == start.evict(x));
        }
        let freed = self.entities.deallocate(entity);
        proof {
            assert(freed is Ok);
            let after = self.layout();
            assert(after == evicted.with_entries(after.entries));
            evicted.lemma_retire(after.entries, x);
            assert(schemas(self.archetypes()) =~= schemas(old(self).archetypes()));
            assert forall|i: int| #[trigger] start.slot_live(i) && i != x implies after.components(
                i,
            ) == start.components(i) by {
                assert(evicted.entries[i].is_live == start.entries[i].is_live);
                assert(evicted.slot_live(i));
            }
            assert forall|i: int|
                i != x implies (#[trigger] start.slot_live(i) <==> after.slot_live(
                i,
            )) && (start.slot_live(i) ==> start.entries[i].generation
                == after.entries[i].generation) by {
                if 0 <= i < start.entries.len() {
                    assert(evicted.entries[i].is_live == start.entries[i].is_live);
                }
            }
            start.lemma_view_removed(after, entity);
            assert forall|i: int|
                0 <= i < start.entries.len() implies (#[trigger] start.entries[i]).generation
                <= after.entries[i].generation by {
                assert(evicted.entries[i].generation == start.entries[i].generation);
            }
            assert forall|a: int|
                0 <= a < start.archetypes.len() implies (#[trigger] start.archetypes[a]).type_ids()
                == after.archetypes[a].type_ids() by {
                assert(evicted.archetypes[a].type_ids() == start.archetypes[a].type_ids());
            }
        }
    }

    /// Adds a single component to an entity. Where the entity already has
    /// a component of that type, the value is overwritten where it is.
    /// Otherwise the entity's row moves to the archetype that has the one
    /// component type more, which is created if the world has none.
    pub fn add_component(&mut self, entity: Entity, type_id: ComponentTypeId, component: V)
        -> (result:
        Result<(), EcsError>)
        requires
            old(self).wf(),
        ensures
            final(self).wf(),
            final(self).free_slots() == old(self).free_slots(),
            old(self).layout().generations_kept(final(self).layout()),
            old(self).layout().same_handles(final(self).layout()),
            old(self).archetypes().len() <= final(self).archetypes().len(),
            forall|a: int|
                0 <= a < old(self).archetypes().len()
                    ==> (#[trigger] final(self).archetypes()[a]).type_ids()
                    == old(self).archetypes()[a].type_ids(),
            !old(self)@.contains_key(entity) ==> {
                &&& result == Err::<(), EcsError>(EcsError::EntityErr(EntityError::DoesNotExist))
                &&& final(self).layout() == old(self).layout()
                &&& final(self).bundle_cache() == old(self).bundle_cache()
            },
            old(self)@.contains_key(entity) ==> {
                &&& result is Ok
                &&& final(self)@ == with_component(old(self)@, entity, type_id, component)
            },
            old(self)@.contains_key(entity) && old(self)@[entity].contains_key(type_id) ==> {
                &&& final(self).layout() == old(self).layout().overwrite(
                    entity.index as int,
                    type_id,
                    component,
                )
                &&& final(self).bundle_cache() == old(self).bundle_cache()
            },
            old(self)@.contains_key(entity) && !old(self)@[entity].contains_key(type_id) ==> {
                let from = old(self).location(entity);
                let to = final(self).location(entity);
                &&& to.archetype_id != from.archetype_id
                &&& final(self).archetypes()[from.archetype_id as int] == old(
                    self,
                ).archetypes()[from.archetype_id as int].without_row(from.index_in_archetype as int)
                &&& old(self).layout().row_added(
                    final(self).layout(),
                    entity.index as int,
                    to,
                    final(self)@[entity],
                )
                &&& old(self).layout().same_archetypes_except(
                    final(self).layout(),
                    from.archetype_id as int,
                    to.archetype_id as int,
                )
                &&& old(self).cache_follows(final(self), to.archetype_id)
                &&& old(self).has_archetype_for(old(self)@[entity].dom().insert(type_id))
                    <==> final(self).archetypes().len() == old(self).archetypes().len()
            },
    {
        let ghost start = self.layout();
        let ghost x = entity.index as int;
        let entry: EntityEntry = match self.entities.live_at_index(entity.index) {
            Some(entry) => *entry,
            None => {
                return Err(EcsError::EntityErr(EntityError::DoesNotExist));
            },
        };
        if entry.generation != entity.generation {
            return Err(EcsError::EntityErr(EntityError::DoesNotExist));
        }
        let source: ArchetypeId = entry.location.archetype_id;
        let row: EntityArchetypeIndex = entry.location.index_in_archetype;
        proof {
            assert(start.slot_live(x));
            assert(start.located(x));
            assert(start.archetypes[source as int].wf());
        }
        let ghost from = start.archetypes[source as int];
        let current_type_ids = self.get_archetype(source).type_ids();
        let binary_search_index = binary_search(&current_type_ids, type_id);
        let insert_index: usize = match binary_search_index {
            Ok(_) => {
                // Component already exists, just overwrite
                proof {
                    from.lemma_has_type(type_id);
                    assert(from.columns[from.index_of(type_id)].values.len()
                        == from.entities.len());
                    start.lemma_overwrite(x, type_id, component);
                }
                self.set_component_in_archetype(&entry.location, type_id, component);
                proof {
                    let after = self.layout();
                    assert(after == start.overwrite(x, type_id, component));
                    assert(schemas(self.archetypes()) =~= schemas(old(self).archetypes()));
                    start.lemma_view_updated(
                        after,
                        entity,
                        start.components(x).insert(type_id, component),
                    );
                }
                return Ok(());
            },
            Err(i) => i,
        };
        // Component does not exist in the current archetype
        // We'll find one with the right combination or create a new one
        let mut new_type_ids = self.get_archetype(source).type_ids();
        new_type_ids.insert(insert_index, type_id);
        proof {
            lemma_insert_keeps_sorted(current_type_ids@, insert_index as int, type_id);
            lemma_insert_contains(current_type_ids@, insert_index as int, type_id);
            lemma_sorted_no_duplicates(current_type_ids@);
        }
        proof {
            assert(new_type_ids@.to_set() =~= old(self)@[entity].dom().insert(type_id)) by {
                assert forall|u: ComponentTypeId| from.has_type(u)
                    <==> old(self)@[entity].dom().contains(u) by {}
            }
        }
        let bundle_id = calculate_bundle_id(new_type_ids.as_slice());
        let new_archetype_idx: ArchetypeId = match self.find_archetype(bundle_id, &new_type_ids) {
            Some(idx) => idx,
            None => {
                // Didn't find matching archetype, let's create a new one
                let mut new_archetype = self.get_archetype(source).empty_clone();
                let ghost cloned = new_archetype@;
                proof {
                    assert(cloned.columns.len() == from.columns.len());
                    assert(from.type_ids().len() == from.columns.len());
                    assert(new_archetype.components@.len() == cloned.columns.len());
                }
                new_archetype.components.insert(insert_index, ComponentStore::new(type_id));
                proof {
                    assert forall|i: int|
                        0 <= i < new_type_ids@.len() implies new_archetype@.type_ids()[i]
                        == new_type_ids@[i] && new_archetype@.columns[i].values.len() == 0 by {
                        if i < insert_index {
                            assert(new_archetype@.columns[i] == cloned.columns[i]);
                            assert(from.type_ids()[i] == from.columns[i].type_id);
                        } else if i > insert_index {
                            assert(new_archetype@.columns[i] == cloned.columns[i - 1]);
                            assert(from.type_ids()[i - 1] == from.columns[i - 1].type_id);
                        }
                    }
                    assert(new_archetype@.type_ids() =~= new_type_ids@);
                    assert(new_archetype@.entities == cloned.entities);
                    assert(new_archetype@.columns.len() == new_type_ids@.len());
                    assert forall|i: int|
                        0 <= i < new_archetype@.columns.len()
                            implies (#[trigger] new_archetype@.columns[i]).values.len()
                        == new_archetype@.entities.len() by {
                        if i < insert_index {
                            assert(new_archetype@.columns[i] == cloned.columns[i]);
                        } else if i > insert_index {
                            assert(new_archetype@.columns[i] == cloned.columns[i - 1]);
                        }
                    }
                    start.lemma_with_archetype(new_archetype@);
                }
                self.register_archetype(bundle_id, new_archetype)
            },
        };
        let ghost base = self.layout();
        let ghost into = base.archetypes[new_archetype_idx as int];
        let ghost values = from.row(row as int).insert(type_id, component);
        proof {
            assert(base.consistent());
            assert(base.archetypes[source as int] == from);
            assert(into.wf());
            assert(into.type_ids() != from.type_ids());
            assert forall|u: ComponentTypeId| into.has_type(u) <==> from.has_type(u) || u
                == type_id by {}
            into.lemma_moved_in_with(
                from,
                current_type_ids@,
                row as int,
                entity.index,
                type_id,
                component,
            );
            from.lemma_moved_out(current_type_ids@, row as int);
            assert forall|k: int| 0 <= k < current_type_ids@.len() implies from.has_type(
                #[trigger] current_type_ids@[k],
            ) && into.has_type(current_type_ids@[k]) && row < from.column(
                current_type_ids@[k],
            ).len() by {
                let u = current_type_ids@[k];
                assert(from.type_ids()[k] == u);
                from.lemma_has_type(u);
                assert(from.columns[from.index_of(u)].values.len() == from.entities.len());
            }
        }
        // Split borrowing
        let (old_archetype, new_archetype) = index_twice(
            self.archetypes.as_mut_slice(),
            source,
            new_archetype_idx,
        );
        // Pushes to entity vec, adds space to component sets
        let new_idx_in_archetype = new_archetype.add_entity(entity.index);
        let new_location = EntityLocation::new(new_archetype_idx, new_idx_in_archetype);
        match self.entities.set_location(entity.index, new_location) {
            Ok(_) => {},
            Err(error) => {
                return Err(EcsError::EntityErr(error));
            },
        }
        // Migrate components to new archetype
        old_archetype.migrate_components(&current_type_ids, row, new_archetype);
        // Add new component too
        new_archetype.add_entity_component(type_id, component);
        // Update moved entity location, if any
        // We return None if we're last
        if let Some(moved) = old_archetype.remove_entity(row) {
            proof {
                let last = from.entities.len() - 1;
                assert(base.in_rows(source as int, last));
                assert(base.row_owned(source as int, last));
            }
            match self.entities.set_location(moved, entry.location) {
                Ok(_) => {},
                Err(error) => {
                    return Err(EcsError::EntityErr(error));
                },
            }
        }
        proof {
            let after = self.layout();
            let target = base.relocate(x, new_location, values);
            assert(self.archetypes()[source as int] == from.without_row(row as int));
            assert(self.archetypes()[new_archetype_idx as int] == into.with_row(
                entity.index,
                values,
            ));
            assert(after.archetypes =~= target.archetypes);
            assert(after.entries =~= target.entries);
            assert(after == target);
            base.lemma_relocate(x, new_location, values);
            assert(schemas(self.archetypes()) =~= schemas(base.archetypes));
            assert forall|i: int| #[trigger] start.slot_live(i) && i != x implies after.components(
                i,
            ) == start.components(i) by {
                assert(start.located(i));
                assert(base.slot_live(i));
            }
            start.lemma_view_updated(after, entity, values);
        }
        Ok(())
    }

    /// Removes a single component from an entity: the entity's row moves to
    /// the archetype that has the one component type less, which is created
    /// if the world has none.
    pub fn remove_component(&mut self, entity: Entity, type_id: ComponentTypeId) -> (result:
        Result<(), EcsError>)
        requires
            old(self).wf(),
        ensures
            final(self).wf(),
            final(self).free_slots() == old(self).free_slots(),
            old(self).layout().generations_kept(final(self).layout()),
            old(self).layout().same_handles(final(self).layout()),
            old(self).archetypes().len() <= final(self).archetypes().len(),
            forall|a: int|
                0 <= a < old(self).archetypes().len()
                    ==> (#[trigger] final(self).archetypes()[a]).type_ids()
                    == old(self).archetypes()[a].type_ids(),
            !old(self)@.contains_key(entity) ==> {
                &&& result == Err::<(), EcsError>(EcsError::EntityErr(EntityError::DoesNotExist))
                &&& final(self).layout() == old(self).layout()
                &&& final(self).bundle_cache() == old(self).bundle_cache()
            },
            old(self)@.contains_key(entity) && !old(self)@[entity].contains_key(type_id) ==> {
                &&& result == Err::<(), EcsError>(
                    EcsError::ArchetypeErr(ArchetypeError::ComponentMissing),
                )
                &&& final(self).layout() == old(self).layout()
                &&& final(self).bundle_cache() == old(self).bundle_cache()
            },
            old(self)@.contains_key(entity) && old(self)@[entity].contains_key(type_id) ==> {
                let from = old(self).location(entity);
                let to = final(self).location(entity);
                &&& result is Ok
                &&& final(self)@ == without_component(old(self)@, entity, type_id)
                &&& to.archetype_id != from.archetype_id
                &&& final(self).archetypes()[from.archetype_id as int] == old(
                    self,
                ).archetypes()[from.archetype_id as int].without_row(from.index_in_archetype as int)
                &&& old(self).layout().row_added(
                    final(self).layout(),
                    entity.index as int,
                    to,
                    final(self)@[entity],
                )
                &&& old(self).layout().same_archetypes_except(
                    final(self).layout(),
                    from.archetype_id as int,
                    to.archetype_id as int,
                )
                &&& old(self).cache_follows(final(self), to.archetype_id)
                &&& old(self).has_archetype_for(old(self)@[entity].dom().remove(type_id))
                    <==> final(self).archetypes().len() == old(self).archetypes().len()
            },
    {
        let ghost start = self.layout();
        let ghost x = entity.index as int;
        let entry: EntityEntry = match self.entities.live_at_index(entity.index) {
            Some(entry) => *entry,
            None => {
                return Err(EcsError::EntityErr(EntityError::DoesNotExist));
            },
        };
        if entry.generation != entity.generation {
            return Err(EcsError::EntityErr(EntityError::DoesNotExist));
        }
        let source: ArchetypeId = entry.location.archetype_id;
        let row: EntityArchetypeIndex = entry.location.index_in_archetype;
        proof {
            assert(start.slot_live(x));
            assert(start.located(x));
            assert(start.archetypes[source as int].wf());
        }
        let ghost from = start.archetypes[source as int];
        let current_type_ids = self.get_archetype(source).type_ids();
        let type_id_idx: usize = match binary_search(&current_type_ids, type_id) {
            Ok(i) => i,
            Err(_) => {
                // Component doesn't exist in archetype?!
                return Err(EcsError::ArchetypeErr(ArchetypeError::ComponentMissing));
            },
        };
        proof {
            assert(current_type_ids@.contains(type_id));
        }
        let mut new_type_ids = self.get_archetype(source).type_ids();
        new_type_ids.remove(type_id_idx);
        proof {
            lemma_remove_keeps_sorted(current_type_ids@, type_id_idx as int);
            lemma_remove_contains(current_type_ids@, type_id_idx as int);
            lemma_sorted_no_duplicates(new_type_ids@);
        }
        proof {
            assert(new_type_ids@.to_set() =~= old(self)@[entity].dom().remove(type_id)) by {
                assert forall|u: ComponentTypeId| from.has_type(u)
                    <==> old(self)@[entity].dom().contains(u) by {}
            }
        }
        let bundle_id = calculate_bundle_id(new_type_ids.as_slice());
        let new_archetype_idx: ArchetypeId = match self.find_archetype(bundle_id, &new_type_ids) {
            Some(idx) => idx,
            None => {
                // Didn't find matching archetype, let's create a new one
                let mut new_archetype = self.get_archetype(source).empty_clone();
                let ghost cloned = new_archetype@;
                proof {
                    assert(cloned.columns.len() == from.columns.len());
                    assert(from.type_ids().len() == from.columns.len());
                    assert(new_archetype.components@.len() == cloned.columns.len());
                }
                new_archetype.components.remove(type_id_idx);
                proof {
                    assert forall|i: int|
                        0 <= i < new_type_ids@.len() implies new_archetype@.type_ids()[i]
                        == new_type_ids@[i] && new_archetype@.columns[i].values.len() == 0 by {
                        if i < type_id_idx {
                            assert(new_archetype@.columns[i] == cloned.columns[i]);
                            assert(from.type_ids()[i] == from.columns[i].type_id);
                        } else {
                            assert(new_archetype@.columns[i] == cloned.columns[i + 1]);
                            assert(from.type_ids()[i + 1] == from.columns[i + 1].type_id);
                        }
                    }
                    assert(new_archetype@.type_ids() =~= new_type_ids@);
                    assert(new_archetype@.entities == cloned.entities);
                    assert(new_archetype@.columns.len() == new_type_ids@.len());
                    assert forall|i: int|
                        0 <= i < new_archetype@.columns.len()
                            implies (#[trigger] new_archetype@.columns[i]).values.len()
                        == new_archetype@.entities.len() by {
                        if i < type_id_idx {
                            assert(new_archetype@.columns[i] == cloned.columns[i]);
                        } else {
                            assert(new_archetype@.columns[i] == cloned.columns[i + 1]);
                        }
                    }
                    start.lemma_with_archetype(new_archetype@);
                }
                self.register_archetype(bundle_id, new_archetype)
            },
        };
        let ghost base = self.layout();
        let ghost into = base.archetypes[new_archetype_idx as int];
        let ghost values = from.row(row as int).remove(type_id);
        proof {
            assert(base.consistent());
            assert(base.archetypes[source as int] == from);
            assert(into.wf());
            assert(into.type_ids().len() != from.type_ids().len());
            assert forall|u: ComponentTypeId| into.has_type(u) <==> from.has_type(u) && u
                != type_id by {}
            into.lemma_moved_in_without(from, new_type_ids@, row as int, entity.index, type_id);
            from.lemma_moved_out_but_one(new_type_ids@, row as int, type_id);
            assert forall|k: int| 0 <= k < new_type_ids@.len() implies from.has_type(
                #[trigger] new_type_ids@[k],
            ) && into.has_type(new_type_ids@[k]) && row < from.column(new_type_ids@[k]).len() by {
                let u = new_type_ids@[k];
                assert(new_type_ids@.contains(u));
                from.lemma_has_type(u);
                assert(from.columns[from.index_of(u)].values.len() == from.entities.len());
            }
            from.lemma_has_type(type_id);
            assert(from.columns[from.index_of(type_id)].values.len() == from.entities.len());
        }
        let (old_archetype, new_archetype) = index_twice(
            self.archetypes.as_mut_slice(),
            source,
            new_archetype_idx,
        );
        // Pushes into entity vec, adds space to component sets
        let new_idx_in_archetype = new_archetype.add_entity(entity.index);
        let new_location = EntityLocation::new(new_archetype_idx, new_idx_in_archetype);
        match self.entities.set_location(entity.index, new_location) {
            Ok(_) => {},
            Err(error) => {
                return Err(EcsError::EntityErr(error));
            },
        }
        // Migrate components to new archetype, except removed one
        old_archetype.migrate_components(&new_type_ids, row, new_archetype);
        // The removed component leaves the old archetype too
        ComponentSet::remove(old_archetype.get_component_set_mut(type_id), row);
        if let Some(moved) = old_archetype.remove_entity(row) {
            proof {
                let last = from.entities.len() - 1;
                assert(base.in_rows(source as int, last));
                assert(base.row_owned(source as int, last));
            }
            match self.entities.set_location(moved, entry.location) {
                Ok(_) => {},
                Err(error) => {
                    return Err(EcsError::EntityErr(error));
                },
            }
        }
        proof {
            let after = self.layout();
            let target = base.relocate(x, new_location, values);
            assert(self.archetypes()[source as int] == from.without_row(row as int));
            assert(self.archetypes()[new_archetype_idx as int] == into.with_row(
                entity.index,
                values,
            ));
            assert(after.archetypes =~= target.archetypes);
            assert(after.entries =~= target.entries);
            assert(after == target);
            base.lemma_relocate(x, new_location, values);
            assert(schemas(self.archetypes()) =~= schemas(base.archetypes));
            assert forall|i: int| #[trigger] start.slot_live(i) && i != x implies after.components(
                i,
            ) == start.components(i) by {
                assert(start.located(i));
                assert(base.slot_live(i));
            }
            start.lemma_view_updated(after, entity, values);
        }
        Ok(())
    }

    /// Answers a shared query: the archetypes that have all requested
    /// component types, with their columns to read. A parameter that asks
    /// to write is refused: exclusive access is had through `query_mut`.
    pub fn query<'world_borrow, Q: QueryParameters>(
        &'world_borrow self,
        parameters: &Q,
    ) -> (result: Result<Query<'world_borrow, V>, EcsError>)
        requires
            self.wf(),
        ensures
            asks_to_write(parameters.parameters()) ==> result matches Err(
                EcsError::QueryErr(FetchError::ConflictingAccess),
            ),
            !asks_to_write(parameters.parameters()) && (forall|a: int|
                0 <= a < self.archetypes().len() ==> !matches_parameters(
                    #[trigger] self.archetypes()[a],
                    parameters.parameters(),
                )) ==> result matches Err(EcsError::QueryErr(FetchError::ArchetypeMissing)),
            !asks_to_write(parameters.parameters()) && (exists|a: int|
                0 <= a < self.archetypes().len() && matches_parameters(
                    #[trigger] self.archetypes()[a],
                    parameters.parameters(),
                )) ==> result is Ok,
            result matches Ok(found) ==> {
                &&& found.wf()
                &&& found.world() == *self
                &&& found.parameters() == parameters.parameters()
                &&& found.archetype_ids().len() > 0
            },
    {
        match crate::queries::query::query(self, parameters) {
            Err(error) => Err(EcsError::QueryErr(error)),
            Ok(None) => Err(EcsError::QueryErr(FetchError::ArchetypeMissing)),
            Ok(Some(found)) => {
                proof {
                    let first = found.archetype_ids()[0];
                    assert(matches_parameters(
                        self.archetypes()[first as int],
                        parameters.parameters(),
                    ));
                }
                Ok(found)
            },
        }
    }

    /// Answers an exclusive query: the archetypes that have all requested
    /// component types, with the world held exclusively by the answer, so
    /// that no other query can be made while it lives. Parameters that
    /// name one component type twice, and at least once to write, are
    /// refused.
    pub fn query_mut<'world_borrow, Q: QueryParameters>(
        &'world_borrow mut self,
        parameters: &Q,
    ) -> (result: Result<QueryMut<'world_borrow, V>, EcsError>)
        requires
            old(self).wf(),
        ensures
            conflicting(parameters.parameters()) ==> result matches Err(
                EcsError::QueryErr(FetchError::ConflictingAccess),
            ),
            !conflicting(parameters.parameters()) && (forall|a: int|
                0 <= a < old(self).archetypes().len() ==> !matches_parameters(
                    #[trigger] old(self).archetypes()[a],
                    parameters.parameters(),
                )) ==> result matches Err(EcsError::QueryErr(FetchError::ArchetypeMissing)),
            !conflicting(parameters.parameters()) && (exists|a: int|
                0 <= a < old(self).archetypes().len() && matches_parameters(
                    #[trigger] old(self).archetypes()[a],
                    parameters.parameters(),
                )) ==> result is Ok,
            result matches Ok(found) ==> {
                &&& found.wf()
                &&& found.held() == *old(self)
                &&& *final(found.world) == *final(self)
                &&& found.matches.parameters() == parameters.parameters()
                &&& found.matches.archetype_ids().len() > 0
            },
            result is Err ==> *final(self) == *old(self),
    {
        let ghost before = self.archetypes();
        match crate::queries::query::query_mut(self, parameters) {
            Err(error) => Err(EcsError::QueryErr(error)),
            Ok(None) => Err(EcsError::QueryErr(FetchError::ArchetypeMissing)),
            Ok(Some(found)) => {
                proof {
                    let first = found.matches.archetype_ids()[0];
                    assert(matches_parameters(before[first as int], parameters.parameters()));
                }
                Ok(found)
            },
        }
    }

    /// After the values of one column were overwritten through a fetch for
    /// writing, the world is well formed again, and the entities of that
    /// archetype have their new value at that component type.
    pub proof fn lemma_written(
        &self,
        after: &Self,
        archetype_id: ArchetypeId,
        type_id: ComponentTypeId,
        values: Seq<V>,
    )
        requires
            self.wf(),
            (archetype_id as int) < self.archetypes().len(),
            self.archetypes()[archetype_id as int].has_type(type_id),
            values.len() == self.archetypes()[archetype_id as int].entities.len(),
            after.archetypes() == self.archetypes().update(
                archetype_id as int,
                self.archetypes()[archetype_id as int].with_column(type_id, values),
            ),
            after.entity_table() == self.entity_table(),
            after.bundle_cache() == self.bundle_cache(),
        ensures
            after.wf(),
            self.layout().same_schemas(after.layout()),
            after@.dom() == self@.dom(),
            forall|entity: Entity| #[trigger]
                self@.contains_key(entity) ==> after@[entity] == (if self.location(
                    entity,
                ).archetype_id == archetype_id {
                    self@[entity].insert(
                        type_id,
                        values[self.location(entity).index_in_archetype as int],
                    )
                } else {
                    self@[entity]
                }),
    {
        let start = self.layout();
        start.lemma_rewrite(archetype_id as int, type_id, values);
        assert(after.layout() == start.rewrite(archetype_id as int, type_id, values));
        assert(schemas(after.archetypes()) =~= schemas(self.archetypes()));
        assert(after@.dom() =~= self@.dom());
        assert forall|entity: Entity| #[trigger] self@.contains_key(entity) implies after@[entity]
            == (if self.location(entity).archetype_id == archetype_id {
            self@[entity].insert(type_id, values[self.location(entity).index_in_archetype as int])
        } else {
            self@[entity]
        }) by {
            assert(start.slot_live(entity.index as int));
        }
    }

    /// Number of live entities.
    pub fn entity_count(&self) -> (n: usize)
        requires
            self.wf(),
        ensures
            self@.dom().finite(),
            n == self@.dom().len(),
    {
        proof {
            lemma_live_handles_counted(self.entity_table().entries());
            assert(self@.dom() =~= live_handles(self.entity_table().entries()));
        }
        self.entities.count()
    }

    /// Two live entities with components of the same types are stored in
    /// the same archetype.
    pub proof fn lemma_archetype_sharing(&self, first: Entity, second: Entity)
        requires
            self.wf(),
            self@.contains_key(first),
            self@.contains_key(second),
            self@[first].dom() == self@[second].dom(),
        ensures
            self.location(first).archetype_id == self.location(second).archetype_id,
    {
        let layout = self.layout();
        assert(layout.slot_live(first.index as int));
        assert(layout.slot_live(second.index as int));
        assert(layout.located(first.index as int));
        assert(layout.located(second.index as int));
        let a = self.location(first).archetype_id as int;
        let b = self.location(second).archetype_id as int;
        if a != b {
            assert(layout.archetypes[a].wf());
            assert(layout.archetypes[b].wf());
            assert forall|t: ComponentTypeId| layout.archetypes[a].type_ids().contains(t)
                <==> layout.archetypes[b].type_ids().contains(t) by {
                assert(self@[first].dom().contains(t) <==> self@[second].dom().contains(t));
                assert(self@[first].contains_key(t) <==> layout.archetypes[a].has_type(t));
                assert(self@[second].contains_key(t) <==> layout.archetypes[b].has_type(t));
            }
            lemma_sorted_lists_equal(
                layout.archetypes[a].type_ids(),
                layout.archetypes[b].type_ids(),
            );
            assert(schemas(self.archetypes())[a] == schemas(self.archetypes())[b]);
        }
    }

    /// No two archetypes have the same set of component types.
    pub proof fn lemma_one_archetype_per_type_set(&self, a: int, b: int)
        requires
            self.wf(),
            0 <= a < self.archetypes().len(),
            0 <= b < self.archetypes().len(),
            forall|t: ComponentTypeId|
                self.archetypes()[a].has_type(t) <==> self.archetypes()[b].has_type(t),
        ensures
            a == b,
    {
        let layout = self.layout();
        if a != b {
            assert(layout.archetypes[a].wf());
            assert(layout.archetypes[b].wf());
            assert forall|t: ComponentTypeId| layout.archetypes[a].type_ids().contains(t)
                <==> layout.archetypes[b].type_ids().contains(t) by {
                assert(self.archetypes()[a].has_type(t) <==> self.archetypes()[b].has_type(t));
            }
            lemma_sorted_lists_equal(
                layout.archetypes[a].type_ids(),
                layout.archetypes[b].type_ids(),
            );
            assert(schemas(self.archetypes())[a] == schemas(self.archetypes())[b]);
        }
    }

    /// The location recorded for a live entity is a row of an archetype;
    /// that row belongs to the entity and holds its components.
    pub proof fn lemma_location_points_at_row(&self, entity: Entity)
        requires
            self.wf(),
            self@.contains_key(entity),
        ensures
            (self.location(entity).archetype_id as int) < self.archetypes().len(),
            (self.location(entity).index_in_archetype as int)
                < self.archetypes()[self.location(entity).archetype_id as int].entities.len(),
            self.archetypes()[self.location(entity).archetype_id as int].entities[self.location(
                entity,
            ).index_in_archetype as int] == entity.index,
            self@[entity] == self.archetypes()[self.location(entity).archetype_id as int].row(
                self.location(entity).index_in_archetype as int,
            ),
    {
        let layout = self.layout();
        assert(layout.slot_live(entity.index as int));
        assert(layout.located(entity.index as int));
    }

    /// Every row of every archetype belongs to a live entity whose
    /// recorded location is that row.
    pub proof fn lemma_row_has_live_owner(&self, archetype_id: int, row: int)
        requires
            self.wf(),
            0 <= archetype_id < self.archetypes().len(),
            0 <= row < self.archetypes()[archetype_id].entities.len(),
        ensures
            ({
                let index = self.archetypes()[archetype_id].entities[row];
                let entries = self.entity_table().entries();
                let owner = Entity { index, generation: entries[index as int].generation };
                &&& self@.contains_key(owner)
                &&& self.location(owner).archetype_id == archetype_id
                &&& self.location(owner).index_in_archetype == row
            }),
    {
        let layout = self.layout();
        assert(layout.in_rows(archetype_id, row));
        assert(layout.row_owned(archetype_id, row));
    }

    /// What a column holds in a row is the component of that type of the
    /// live entity that the row belongs to.
    pub proof fn lemma_column_holds_components(
        &self,
        archetype_id: int,
        row: int,
        type_id: ComponentTypeId,
    )
        requires
            self.wf(),
            0 <= archetype_id < self.archetypes().len(),
            0 <= row < self.archetypes()[archetype_id].entities.len(),
            self.archetypes()[archetype_id].has_type(type_id),
        ensures
            ({
                let index = self.archetypes()[archetype_id].entities[row];
                let entries = self.entity_table().entries();
                let owner = Entity { index, generation: entries[index as int].generation };
                &&& self@.contains_key(owner)
                &&& self@[owner].contains_key(type_id)
                &&& self@[owner][type_id] == self.archetypes()[archetype_id].column(type_id)[row]
            }),
    {
        self.lemma_row_has_live_owner(archetype_id, row);
    }

    /// When the row of a live entity leaves its archetype, the archetype
    /// is left with the other entities, each once and in some order, and
    /// with one value for each of them in every column; every other live
    /// entity of the world is found at the row that the table then records
    /// for it, with the components it had.
    pub proof fn lemma_eviction_keeps_the_others(&self, entity: Entity)
        requires
            self.wf(),
            self@.contains_key(entity),
        ensures
            ({
                let row = self.location(entity).index_in_archetype as int;
                let before = self.archetypes()[self.location(entity).archetype_id as int];
                let evicted = self.layout().evict(entity.index as int);
                let after = evicted.archetypes[self.location(entity).archetype_id as int];
                &&& before.entities[row] == entity.index
                &&& before.entities.no_duplicates()
                &&& after.entities == swap_removed(before.entities, row)
                &&& after.entities.len() == before.entities.len() - 1
                &&& after.entities.no_duplicates()
                &&& !after.entities.contains(entity.index)
                &&& forall|k: int|
                    0 <= k < before.entities.len() && k != row ==> after.entities.contains(
                        #[trigger] before.entities[k],
                    )
                &&& forall|k: int|
                    0 <= k < after.entities.len() ==> before.entities.contains(
                        #[trigger] after.entities[k],
                    )
                &&& after.wf()
                &&& forall|i: int| #[trigger]
                    self.layout().slot_live(i) && i != entity.index ==> evicted.located(i)
                        && evicted.components(i) == self.layout().components(i)
            }),
    {
        let layout = self.layout();
        let x = entity.index as int;
        let a = self.location(entity).archetype_id as int;
        let row = self.location(entity).index_in_archetype as int;
        let before = self.archetypes()[a];
        assert(layout.slot_live(x));
        assert(layout.located(x));
        assert forall|j: int, k: int|
            0 <= j < before.entities.len() && 0 <= k < before.entities.len() && j
                != k implies before.entities[j] != before.entities[k] by {
            assert(layout.in_rows(a, j));
            assert(layout.row_owned(a, j));
            assert(layout.in_rows(a, k));
            assert(layout.row_owned(a, k));
        }
        lemma_swap_removed_keeps_others(before.entities, row);
        layout.lemma_evict(x);
        let evicted = layout.evict(x);
        assert(evicted.archetypes[a].wf());
        assert forall|i: int| #[trigger] layout.slot_live(i) && i != x implies evicted.located(i)
            && evicted.components(i) == layout.components(i) by {
            assert(evicted.entries[i].is_live == layout.entries[i].is_live);
            assert(evicted.slot_live(i));
        }
    }

    /// A stale handle names no live entity.
    pub proof fn lemma_stale_is_not_live(&self, entity: Entity)
        requires
            self.is_stale(entity),
        ensures
            !self@.contains_key(entity),
    {
    }

    /// A handle that is stale stays stale, whatever is done to the world
    /// without letting a generation go back.
    pub proof fn lemma_stale_stays_stale(&self, later: &Self, entity: Entity)
        requires
            self.is_stale(entity),
            self.layout().generations_kept(later.layout()),
        ensures
            later.is_stale(entity),
            !later@.contains_key(entity),
    {
        self.layout().lemma_stale_kept(later.layout(), entity);
    }

    /// Advances the world by `dt`. Nothing in the store depends on time.
    pub fn update(&mut self, dt: u32)
        ensures
            *final(self) == *old(self),
    {
    }

    /// Whether the handle names a live entity.
    pub fn is_live(&self, entity: Entity) -> (b: bool)
        requires
            self.wf(),
        ensures
            b == self@.contains_key(entity),
    {
        self.entities.is_live(entity)
    }

    /// Number of archetypes created so far.
    pub fn archetype_count(&self) -> (n: usize)
        ensures
            n == self.archetypes().len(),
    {
        self.archetypes.len()
    }

    /// Where the components of a live entity are stored.
    pub fn entity_location(&self, entity: Entity) -> (found: Option<EntityLocation>)
        requires
            self.wf(),
        ensures
            found == (if self@.contains_key(entity) {
                Some(self.location(entity))
            } else {
                None
            }),
    {
        match self.entities.live_at_index(entity.index) {
            Some(entry) => {
                if entry.generation == entity.generation {
                    Some(entry.location)
                } else {
                    None
                }
            },
            None => None,
        }
    }

    /// Whether the entity is live and has a component of type `type_id`.
    pub fn has_component(&self, entity: Entity, type_id: ComponentTypeId) -> (b: bool)
        requires
            self.wf(),
        ensures
            b == (self@.contains_key(entity) && self@[entity].contains_key(type_id)),
    {
        match self.entity_location(entity) {
            Some(location) => {
                proof {
                    assert(self.layout().slot_live(entity.index as int));
                    assert(self.layout().located(entity.index as int));
                    assert(self.layout().archetypes[location.archetype_id as int].wf());
                }
                let archetype = self.get_archetype(location.archetype_id);
                archetype.has_component(type_id)
            },
            None => false,
        }
    }

    /// The component of type `type_id` of a live entity.
    pub fn get_component(&self, entity: Entity, type_id: ComponentTypeId) -> (found: Option<&V>)
        requires
            self.wf(),
        ensures
            found == (if self@.contains_key(entity) && self@[entity].contains_key(type_id) {
                Some(&self@[entity][type_id])
            } else {
                None
            }),
    {
        match self.entity_location(entity) {
            Some(location) => {
                proof {
                    assert(self.layout().slot_live(entity.index as int));
                    assert(self.layout().located(entity.index as int));
                    assert(self.layout().archetypes[location.archetype_id as int].wf());
                }
                let archetype = self.get_archetype(location.archetype_id);
                match archetype.get_entity_component(type_id) {
                    Ok(column) => {
                        proof {
                            archetype@.lemma_has_type(type_id);
                        }
                        Some(&column[location.index_in_archetype])
                    },
                    Err(_) => None,
                }
            },
            None => None,
        }
    }
}

} // verus!
