use vstd::prelude::*;
use vstd::bytes::{spec_u64_to_le_bytes, u64_to_le_bytes};
use vstd::std_specs::hash::DefaultHasherAdditionalSpecFns;
use std::collections::hash_map::DefaultHasher;
use std::hash::Hasher;
use crate::archetype::{Archetype, ComponentStore, ComponentTypeId};
use crate::entities::{EntityId, EntityLocation};
use crate::helpers::{
    binary_search, lemma_insert_contains, lemma_insert_keeps_sorted, lemma_push_contains,
    lemma_sorted_lists_equal, strictly_sorted,
};
use crate::world::{schemas, World};

verus! {

/// Identifier of a set of component types: the hash of its sorted list.
pub type BundleId = u64;

/// What `calculate_bundle_id` feeds to the hasher: the length of the list,
/// then each component type, as little-endian bytes.
pub open spec fn bundle_writes(types: Seq<ComponentTypeId>) -> Seq<Seq<u8>> {
    seq![spec_u64_to_le_bytes(types.len() as u64)] + Seq::new(
        types.len(),
        |i: int| spec_u64_to_le_bytes(types[i]),
    )
}

/// The identifier of a list of component types.
pub open spec fn bundle_id_of(types: Seq<ComponentTypeId>) -> BundleId {
    DefaultHasher::spec_finish(bundle_writes(types))
}

/// Hashes a list of component types to its identifier. Callers pass the
/// list sorted, so that one set of types has one identifier.
pub fn calculate_bundle_id(types: &[ComponentTypeId]) -> (id: u64)
    ensures
        id == bundle_id_of(types@),
{
    let mut s = DefaultHasher::new();
    let prefix = u64_to_le_bytes(types.len() as u64);
    s.write(prefix.as_slice());
    let mut i: usize = 0;
    while i < types.len()
        invariant
            i <= types.len(),
            s@ == bundle_writes(types@).take(i + 1),
        decreases types.len() - i,
    {
        let bytes = u64_to_le_bytes(types[i]);
        s.write(bytes.as_slice());
        proof {
            assert(s@ =~= bundle_writes(types@).take(i + 2));
        }
        i = i + 1;
    }
    proof {
        assert(bundle_writes(types@).take(i + 1) =~= bundle_writes(types@));
    }
    s.finish()
}

/// The order in which two components of different types are put into a
/// bundle makes no difference to the bundle.
pub proof fn lemma_insertion_order_irrelevant<V>(
    bundle: Map<ComponentTypeId, V>,
    first: ComponentTypeId,
    first_value: V,
    second: ComponentTypeId,
    second_value: V,
)
    requires
        first != second,
    ensures
        bundle.insert(first, first_value).insert(second, second_value) == bundle.insert(
            second,
            second_value,
        ).insert(first, first_value),
{
    assert(bundle.insert(first, first_value).insert(second, second_value) =~= bundle.insert(
        second,
        second_value,
    ).insert(first, first_value));
}

/// The component types of `types` in ascending order.
pub fn sort_type_ids(types: &Vec<ComponentTypeId>) -> (list: Vec<ComponentTypeId>)
    ensures
        strictly_sorted(list@),
        forall|type_id: ComponentTypeId| list@.contains(type_id) <==> types@.contains(type_id),
{
    let mut list: Vec<ComponentTypeId> = Vec::new();
    let mut i: usize = 0;
    while i < types.len()
        invariant
            i <= types.len(),
            strictly_sorted(list@),
            forall|t: ComponentTypeId| list@.contains(t) <==> types@.take(i as int).contains(t),
        decreases types.len() - i,
    {
        let type_id: ComponentTypeId = types[i];
        let ghost before = list@;
        let ghost seen = types@.take(i as int);
        match binary_search(&list, type_id) {
            Ok(at) => {
                assert(before[at as int] == type_id);
                assert(before.contains(type_id));
            },
            Err(at) => {
                list.insert(at, type_id);
                proof {
                    lemma_insert_keeps_sorted(before, at as int, type_id);
                    lemma_insert_contains(before, at as int, type_id);
                }
            },
        }
        proof {
            let seen_next = types@.take(i + 1);
            assert(seen_next =~= seen.push(type_id));
            lemma_push_contains(seen, type_id);
            assert forall|t: ComponentTypeId| list@.contains(t) <==> seen_next.contains(t) by {
                assert(before.contains(t) <==> seen.contains(t));
            }
        }
        i = i + 1;
    }
    proof {
        assert(types@.take(i as int) =~= types@);
    }
    list
}

/// An archetype without entities that has one empty column for each of the
/// listed component types.
pub fn archetype_with_types<V>(types: &Vec<ComponentTypeId>) -> (archetype: Archetype<V>)
    requires
        strictly_sorted(types@),
    ensures
        archetype@.wf(),
        archetype@.entities.len() == 0,
        archetype@.type_ids() == types@,
{
    let mut archetype: Archetype<V> = Archetype::new();
    let mut i: usize = 0;
    while i < types.len()
        invariant
            i <= types.len(),
            archetype.components.len() == i,
            archetype@.entities.len() == 0,
            forall|j: int|
                0 <= j < i ==> (#[trigger] archetype.components@[j])@.type_id == types[j]
                    && archetype.components@[j]@.values.len() == 0,
        decreases types.len() - i,
    {
        archetype.components.push(ComponentStore::new(types[i]));
        i = i + 1;
    }
    proof {
        assert(archetype@.type_ids() =~= types@);
        let built = archetype@;
        assert forall|j: int|
            0 <= j < built.columns.len() implies (#[trigger] built.columns[j]).values.len()
            == built.entities.len() by {
            assert(archetype.components@[j]@.values.len() == 0);
        }
    }
    archetype
}

/// Component values that can be handed over together, each under the key
/// of its component type.
pub trait ComponentBundle<V>: Sized {
    /// No component type occurs twice.
    spec fn wf(&self) -> bool;

    /// The bundle as a map from component type to value.
    spec fn components(&self) -> Map<ComponentTypeId, V>;

    /// An archetype without entities that has one empty column for each
    /// component type of the bundle.
    fn new_archetype(&self) -> (archetype: Archetype<V>)
        requires
            self.wf(),
        ensures
            archetype@.wf(),
            archetype@.entities.len() == 0,
            forall|type_id: ComponentTypeId|
                archetype@.has_type(type_id) <==> self.components().contains_key(type_id),
    ;

    /// Finds or creates the archetype of the bundle's component types,
    /// gives the entity a new last row there and moves the bundle's values
    /// into it. Returns where the row is; the caller records it in the
    /// entity table. The entity is live and has no row yet.
    fn spawn_in_world(self, world: &mut World<V>, entity_id: EntityId) -> (location:
        EntityLocation)
        requires
            self.wf(),
            old(world).registry_wf(),
            old(world).layout().pending(entity_id as int),
        ensures
            final(world).registry_wf(),
            final(world).entity_table() == old(world).entity_table(),
            old(world).layout().same_archetypes_except(
                final(world).layout(),
                location.archetype_id as int,
                location.archetype_id as int,
            ),
            old(world).layout().row_added(
                final(world).layout(),
                entity_id as int,
                location,
                self.components(),
            ),
            old(world).cache_follows(final(world), location.archetype_id),
            old(world).has_archetype_for(self.components().dom())
                <==> final(world).archetypes().len() == old(world).archetypes().len(),
            forall|a: int|
                0 <= a < old(world).archetypes().len()
                    ==> (#[trigger] final(world).archetypes()[a]).type_ids()
                    == old(world).archetypes()[a].type_ids(),
            ({
                let entries = old(world).layout().entries;
                let after = final(world).layout().with_entries(
                    entries.update(
                        entity_id as int,
                        entries[entity_id as int].with_location(location),
                    ),
                );
                &&& after.consistent()
                &&& after.components(entity_id as int) == self.components()
                &&& old(world).layout().same_components_except(after, entity_id as int)
            }),
    ;
}

/// A bundle that is filled one component at a time. One value per type: a
/// later value for a type replaces the earlier one.
pub struct Bundle<V> {
    components: Vec<(ComponentTypeId, V)>,
}

impl<V> Bundle<V> {
    /// The component types, in the order in which they were supplied.
    pub closed spec fn types(&self) -> Seq<ComponentTypeId> {
        Seq::new(self.components@.len(), |i: int| self.components@[i].0)
    }

    /// The values, in the order in which they were supplied.
    pub closed spec fn values(&self) -> Seq<V> {
        Seq::new(self.components@.len(), |i: int| self.components@[i].1)
    }

    /// The bundle as a map from component type to value.
    pub open spec fn view(&self) -> Map<ComponentTypeId, V> {
        Map::new(
            |type_id: ComponentTypeId| self.types().contains(type_id),
            |type_id: ComponentTypeId| self.values()[self.types().index_of(type_id)],
        )
    }

    /// A bundle without components.
    pub fn new() -> (bundle: Self)
        ensures
            bundle.wf(),
            bundle@ == Map::<ComponentTypeId, V>::empty(),
            bundle.types() == Seq::<ComponentTypeId>::empty(),
    {
        let bundle = Bundle { components: Vec::new() };
        proof {
            assert(bundle@ =~= Map::<ComponentTypeId, V>::empty());
            assert(bundle.types() =~= Seq::<ComponentTypeId>::empty());
        }
        bundle
    }

    /// Number of components in the bundle.
    pub fn len(&self) -> (n: usize)
        ensures
            n == self.types().len(),
    {
        self.components.len()
    }

    /// Position of the component of type `type_id` in the bundle.
    fn position(&self, type_id: ComponentTypeId) -> (found: Option<usize>)
        ensures
            match found {
                Some(i) => i < self.types().len() && self.types()[i as int] == type_id,
                None => !self.types().contains(type_id),
            },
    {
        let mut i: usize = 0;
        while i < self.components.len()
            invariant
                i <= self.components.len(),
                forall|j: int| 0 <= j < i ==> self.types()[j] != type_id,
            decreases self.components.len() - i,
        {
            if self.components[i].0 == type_id {
                return Some(i);
            }
            i = i + 1;
        }
        None
    }

    /// Whether the bundle holds a component of type `type_id`.
    pub fn contains(&self, type_id: ComponentTypeId) -> (b: bool)
        ensures
            b == self@.contains_key(type_id),
    {
        self.position(type_id).is_some()
    }

    /// Puts `component` into the bundle under `type_id`.
    pub fn insert(&mut self, type_id: ComponentTypeId, component: V)
        requires
            old(self).wf(),
        ensures
            final(self).wf(),
            final(self)@ == old(self)@.insert(type_id, component),
            old(self)@.contains_key(type_id) ==> final(self).types() == old(self).types(),
            !old(self)@.contains_key(type_id) ==> final(self).types() == old(self).types().push(
                type_id,
            ),
    {
        match self.position(type_id) {
            Some(i) => {
                self.components[i].1 = component;
                proof {
                    assert(self.types() =~= old(self).types());
                    assert forall|t: ComponentTypeId|
                        self@.contains_key(t) implies #[trigger] self@[t]
                        == old(self)@.insert(type_id, component)[t] by {
                        let k = self.types().index_of(t);
                        assert(0 <= k < self.types().len() && self.types()[k] == t);
                    }
                    assert(self@ =~= old(self)@.insert(type_id, component));
                }
            },
            None => {
                self.components.push((type_id, component));
                proof {
                    assert(self.types() =~= old(self).types().push(type_id));
                    let n = old(self).types().len() as int;
                    assert(self.types()[n] == type_id);
                    assert forall|t: ComponentTypeId|
                        self@.contains_key(t) implies #[trigger] self@[t]
                        == old(self)@.insert(type_id, component)[t] by {
                        let k = self.types().index_of(t);
                        assert(0 <= k < self.types().len() && self.types()[k] == t);
                        if t != type_id {
                            assert(k != n);
                            assert(old(self).types()[k] == t);
                            let k0 = old(self).types().index_of(t);
                            assert(0 <= k0 < n && old(self).types()[k0] == t);
                            assert(self.types()[k0] == t);
                        }
                    }
                    assert forall|t: ComponentTypeId|
                        old(self)@.insert(type_id, component).contains_key(
                            t,
                        ) implies self@.contains_key(t) by {
                        if t != type_id {
                            let k0 = old(self).types().index_of(t);
                            assert(0 <= k0 < n && old(self).types()[k0] == t);
                            assert(self.types()[k0] == t);
                        }
                    }
                    assert(self@ =~= old(self)@.insert(type_id, component));
                }
            },
        }
    }

    /// The component types of the bundle in ascending order.
    pub fn sorted_type_ids(&self) -> (list: Vec<ComponentTypeId>)
        ensures
            strictly_sorted(list@),
            forall|type_id: ComponentTypeId|
                list@.contains(type_id) <==> self@.contains_key(type_id),
    {
        let mut types: Vec<ComponentTypeId> = Vec::new();
        let mut i: usize = 0;
        while i < self.components.len()
            invariant
                i <= self.components.len(),
                types@ == self.types().take(i as int),
            decreases self.components.len() - i,
        {
            types.push(self.components[i].0);
            proof {
                assert(types@ =~= self.types().take(i + 1));
            }
            i = i + 1;
        }
        proof {
            assert(self.types().take(i as int) =~= self.types());
        }
        sort_type_ids(&types)
    }
}

impl<V> ComponentBundle<V> for Bundle<V> {
    open spec fn wf(&self) -> bool {
        self.types().len() == self.values().len() && self.types().no_duplicates()
    }

    open spec fn components(&self) -> Map<ComponentTypeId, V> {
        self@
    }

    fn new_archetype(&self) -> (archetype: Archetype<V>) {
        let types = self.sorted_type_ids();
        archetype_with_types(&types)
    }

    fn spawn_in_world(self, world: &mut World<V>, entity_id: EntityId) -> (location:
        EntityLocation) {
        let ghost x = entity_id as int;
        let ghost start = world.layout();
        let ghost values = self@;
        let types = self.sorted_type_ids();
        let bundle_id = calculate_bundle_id(types.as_slice());
        proof {
            assert(types@.to_set() =~= values.dom());
        }
        let archetype_id = match world.find_archetype(bundle_id, &types) {
            Some(id) => id,
            None => {
                let archetype = self.new_archetype();
                proof {
                    assert forall|t: ComponentTypeId| archetype@.type_ids().contains(t)
                        <==> types@.contains(t) by {
                        assert(archetype@.has_type(t) <==> self@.contains_key(t));
                    }
                    lemma_sorted_lists_equal(archetype@.type_ids(), types@);
                    start.lemma_with_archetype(archetype@);
                }
                world.register_archetype(bundle_id, archetype)
            },
        };
        let ghost base = world.layout();
        let ghost cache = world.bundle_cache();
        let ghost target = base.archetypes[archetype_id as int];
        proof {
            assert(world.registry_wf());
            assert(base.pending(x));
            assert(target.wf());
            assert forall|i: int| #[trigger] start.slot_live(i) && i != x implies base.components(i)
                == start.components(i) by {
                assert(start.located(i));
            }
        }
        let index_in_archetype = world.add_entity_to_archetype(archetype_id, entity_id);
        let ghost seated = target.with_entities(target.entities.push(entity_id));
        let mut components = self.components;
        let ghost supplied = self.types();
        let ghost given = self.values();
        proof {
            assert(supplied.skip(supplied.len() as int).len() == 0);
            assert(seated.filled(supplied.skip(supplied.len() as int), values) =~= seated);
        }
        while components.len() > 0
            invariant
                (archetype_id as int) < base.archetypes.len(),
                target == base.archetypes[archetype_id as int],
                target.sorted(),
                seated == target.with_entities(target.entities.push(entity_id)),
                supplied.no_duplicates(),
                supplied.len() == given.len(),
                forall|t: ComponentTypeId| supplied.contains(t) ==> target.has_type(t),
                values == Map::new(
                    |type_id: ComponentTypeId| supplied.contains(type_id),
                    |type_id: ComponentTypeId| given[supplied.index_of(type_id)],
                ),
                components.len() <= supplied.len(),
                forall|j: int|
                    0 <= j < components.len() ==> (#[trigger] components@[j]).0 == supplied[j]
                        && components@[j].1 == given[j],
                world.archetypes() == base.archetypes.update(
                    archetype_id as int,
                    seated.filled(supplied.skip(components.len() as int), values),
                ),
                world.entity_table() == old(world).entity_table(),
                world.bundle_cache() == cache,
            decreases components.len(),
        {
            let ghost k = components.len() as int;
            let ghost done = supplied.skip(k);
            let ghost next = supplied.skip(k - 1);
            let ghost here = seated.filled(done, values);
            let (type_id, component) = components.pop().unwrap();
            proof {
                assert(type_id == supplied[k - 1]);
                assert(component == given[k - 1]);
                assert(supplied.contains(type_id));
                let at = supplied.index_of(type_id);
                assert(0 <= at < supplied.len() && supplied[at] == type_id);
                assert(at == k - 1);
                assert(values[type_id] == component);
                assert(here.type_ids() =~= target.type_ids());
                target.lemma_same_types(here);
                target.lemma_has_type(type_id);
                assert(!done.contains(type_id)) by {
                    if done.contains(type_id) {
                        let j = choose|j: int| 0 <= j < done.len() && done[j] == type_id;
                        assert(supplied[j + k] == type_id);
                    }
                }
                assert(here.column(type_id) == target.column(type_id));
            }
            world.add_component_to_archetype(archetype_id, type_id, component);
            proof {
                assert forall|t: ComponentTypeId| next.contains(t) <==> (done.contains(t) || t
                    == type_id) by {
                    if done.contains(t) {
                        let j = choose|j: int| 0 <= j < done.len() && done[j] == t;
                        assert(next[j + 1] == t);
                    }
                    if t == type_id {
                        assert(next[0] == t);
                    }
                    if next.contains(t) {
                        let j = choose|j: int| 0 <= j < next.len() && next[j] == t;
                        if j > 0 {
                            assert(done[j - 1] == t);
                        }
                    }
                }
                let grown = here.with_column(type_id, here.column(type_id).push(component));
                assert forall|i: int| 0 <= i < target.columns.len() implies grown.columns[i]
                    == seated.filled(next, values).columns[i] by {
                    target.lemma_index_of(i);
                    if i != target.index_of(type_id) {
                        assert(target.columns[i].type_id != type_id);
                    }
                }
                assert(grown =~= seated.filled(next, values));
            }
        }
        let location = EntityLocation { archetype_id, index_in_archetype };
        proof {
            assert(supplied.skip(0) =~= supplied);
            target.lemma_filled(supplied, entity_id, values);
            assert forall|t: ComponentTypeId| values.contains_key(t) <==> target.has_type(t) by {
                assert(target.type_ids() == types@);
            }
            base.lemma_place(x, location, values);
            let entries = start.entries;
            let after = world.layout().with_entries(
                entries.update(x, entries[x].with_location(location)),
            );
            assert(after =~= base.place(x, location, values));
            assert forall|i: int| #[trigger] start.slot_live(i) && i != x implies after.components(
                i,
            ) == start.components(i) by {
                assert(base.slot_live(i));
            }
            assert(schemas(world.archetypes()) =~= schemas(base.archetypes));
            assert(world.archetypes()[archetype_id as int] == target.with_row(entity_id, values));
            if (archetype_id as int) < start.archetypes.len() {
                assert(target == start.archetypes[archetype_id as int]);
            } else {
                assert(target.entities.len() == 0);
                assert(target.with_row(entity_id, values).entities =~= seq![entity_id]);
            }
        }
        location
    }
}

} // verus!
