use vstd::prelude::*;
use crate::archetype_view::{ArchetypeView, ColumnView};
use crate::entities::{EntityArchetypeIndex, EntityId};
use crate::helpers::{lemma_push_contains, swap_removed};

verus! {

/// Position of an archetype in the world's archetype list.
pub type ArchetypeId = usize;

/// Key that identifies one component type.
pub type ComponentTypeId = u64;

/// Why an archetype refuses.
#[derive(Debug, PartialEq, Eq, Clone, Copy, Structural)]
pub enum ArchetypeError {
    /// The archetype does not contain the entity.
    EntityMissing,
    /// The archetype has no column of the component type.
    ComponentMissing,
    /// The row lies beyond the end of the column.
    UnderCapacity,
}

impl ArchetypeError {
    /// The error in words.
    pub open spec fn text(self) -> Seq<char> {
        match self {
            ArchetypeError::EntityMissing => "Archetype does not contain Entity"@,
            ArchetypeError::ComponentMissing => "Archetype does not contain Component"@,
            ArchetypeError::UnderCapacity => "Index exceeds Archetype's entity vec"@,
        }
    }

    /// The error in words.
    pub fn message(&self) -> (text: String)
        ensures
            text@ == self.text(),
    {
        match self {
            ArchetypeError::EntityMissing => String::from_str("Archetype does not contain Entity"),
            ArchetypeError::ComponentMissing => String::from_str(
                "Archetype does not contain Component",
            ),
            ArchetypeError::UnderCapacity => String::from_str(
                "Index exceeds Archetype's entity vec",
            ),
        }
    }
}

/// One column: the values of one component type, densely packed by row.
pub struct ComponentStore<V> {
    pub type_id: ComponentTypeId,
    pub data: Vec<V>,
}

impl<V> View for ComponentStore<V> {
    type V = ColumnView<V>;

    open spec fn view(&self) -> ColumnView<V> {
        ColumnView { type_id: self.type_id, values: self.data@ }
    }
}

/// What the values of a column can do, whatever their type.
pub trait ComponentSet<V>: Sized {
    /// The values, by row.
    spec fn values(&self) -> Seq<V>;

    /// Number of rows.
    fn len(&self) -> (n: usize)
        ensures
            n == self.values().len(),
    ;

    /// Drops the value at `index`; the last value takes its place.
    fn remove(&mut self, index: usize)
        requires
            index < old(self).values().len(),
        ensures
            final(self).values() == swap_removed(old(self).values(), index as int),
    ;

    /// Makes room for one more value. The values stay as they are.
    fn expand(&mut self)
        ensures
            final(self).values() == old(self).values(),
    ;

    /// An empty set of values of the same type.
    fn empty_clone(&self) -> (set: Self)
        ensures
            set.values() == Seq::<V>::empty(),
    ;

    /// Moves the value at `index` to the end of `other_set`; the last value
    /// of this set takes its place.
    fn migrate(&mut self, index: usize, other_set: &mut Self)
        requires
            index < old(self).values().len(),
        ensures
            final(self).values() == swap_removed(old(self).values(), index as int),
            final(other_set).values() == old(other_set).values().push(
                old(self).values()[index as int],
            ),
    ;
}

impl<V> ComponentSet<V> for Vec<V> {
    open spec fn values(&self) -> Seq<V> {
        self@
    }

    fn len(&self) -> (n: usize) {
        Vec::len(self)
    }

    fn remove(&mut self, index: usize) {
        self.swap_remove(index);
    }

    fn expand(&mut self) {
        self.reserve(1);
    }

    fn empty_clone(&self) -> (set: Self) {
        Vec::new()
    }

    fn migrate(&mut self, index: usize, other_set: &mut Self) {
        let data: V = self.swap_remove(index);
        other_set.push(data);
    }
}

impl<V> ComponentStore<V> {
    /// An empty column for the component type `type_id`.
    pub fn new(type_id: ComponentTypeId) -> (store: Self)
        ensures
            store@ == (ColumnView { type_id, values: Seq::<V>::empty() }),
    {
        Self { type_id, data: Vec::new() }
    }

    /// An empty column of the same component type.
    pub fn empty_clone(&self) -> (store: ComponentStore<V>)
        ensures
            store@ == (ColumnView { type_id: self@.type_id, values: Seq::<V>::empty() }),
    {
        ComponentStore { type_id: self.type_id, data: ComponentSet::empty_clone(&self.data) }
    }
}

/// The table of all entities that have one set of component types: a column
/// per type and, beside them, the entity of each row.
pub struct Archetype<V> {
    pub components: Vec<ComponentStore<V>>,
    pub entities: Vec<EntityId>,
}

impl<V> View for Archetype<V> {
    type V = ArchetypeView<V>;

    open spec fn view(&self) -> ArchetypeView<V> {
        ArchetypeView {
            columns: Seq::new(self.components@.len(), |i: int| self.components@[i]@),
            entities: self.entities@,
        }
    }
}

impl<V> Default for Archetype<V> {
    /// An archetype without columns and without entities.
    fn default() -> (archetype: Self)
        ensures
            archetype@.columns.len() == 0,
            archetype@.entities.len() == 0,
            archetype@.wf(),
    {
        Archetype::new()
    }
}

impl<V> Archetype<V> {
    /// An archetype without columns and without entities.
    pub fn new() -> (archetype: Self)
        ensures
            archetype@.columns.len() == 0,
            archetype@.entities.len() == 0,
            archetype@.wf(),
    {
        Archetype { components: Vec::new(), entities: Vec::new() }
    }

    /// Position of the column of `type_id`, if there is one.
    pub fn find_column(&self, type_id: ComponentTypeId) -> (found: Option<usize>)
        requires
            self@.sorted(),
        ensures
            match found {
                Some(i) => self@.has_type(type_id) && i == self@.index_of(type_id),
                None => !self@.has_type(type_id),
            },
    {
        let mut low: usize = 0;
        let mut high: usize = self.components.len();
        while low < high
            invariant
                low <= high <= self.components.len(),
                self@.sorted(),
                forall|j: int| 0 <= j < low ==> self@.type_ids()[j] < type_id,
                forall|j: int| high <= j < self.components.len() ==> type_id < self@.type_ids()[j],
            decreases high - low,
        {
            let mid: usize = low + (high - low) / 2;
            let probe: ComponentTypeId = self.components[mid].type_id;
            assert(self@.type_ids()[mid as int] == probe);
            if probe == type_id {
                proof {
                    self@.lemma_index_of(mid as int);
                }
                return Some(mid);
            } else if probe < type_id {
                low = mid + 1;
            } else {
                high = mid;
            }
        }
        None
    }

    /// Whether the archetype has a column of `type_id`.
    pub fn has_component(&self, type_id: ComponentTypeId) -> (b: bool)
        requires
            self@.sorted(),
        ensures
            b == self@.has_type(type_id),
    {
        self.find_column(type_id).is_some()
    }

    /// The component types of the columns, in ascending order.
    pub fn type_ids(&self) -> (list: Vec<ComponentTypeId>)
        ensures
            list@ == self@.type_ids(),
    {
        let mut list: Vec<ComponentTypeId> = Vec::new();
        let mut i: usize = 0;
        while i < self.components.len()
            invariant
                i <= self.components.len(),
                list@ == self@.type_ids().take(i as int),
            decreases self.components.len() - i,
        {
            list.push(self.components[i].type_id);
            proof {
                assert(list@ =~= self@.type_ids().take(i + 1));
            }
            i = i + 1;
        }
        proof {
            assert(self@.type_ids().take(i as int) =~= self@.type_ids());
        }
        list
    }

    /// The values of the column of `type_id`, to read and to change.
    pub fn get_component_set_mut(&mut self, type_id: ComponentTypeId) -> (set: &mut Vec<V>)
        requires
            old(self)@.sorted(),
            old(self)@.has_type(type_id),
        ensures
            set@ == old(self)@.column(type_id),
            final(self)@ == old(self)@.with_column(type_id, final(set)@),
    {
        let found = self.find_column(type_id);
        let i: usize = found.unwrap();
        proof {
            old(self)@.lemma_has_type(type_id);
        }
        &mut self.components[i].data
    }

    /// Appends `component` to the column of its type. Meant for the row of an
    /// entity that was just added.
    pub fn add_entity_component(&mut self, type_id: ComponentTypeId, component: V)
        requires
            old(self)@.sorted(),
            old(self)@.has_type(type_id),
        ensures
            final(self)@ == old(self)@.with_column(
                type_id,
                old(self)@.column(type_id).push(component),
            ),
    {
        self.get_component_set_mut(type_id).push(component)
    }

    /// Appends the entity as the owner of a new last row and makes room for
    /// that row in every column. The columns get their values afterwards.
    pub fn add_entity(&mut self, entity_id: EntityId) -> (index: EntityArchetypeIndex)
        ensures
            index == old(self)@.entities.len(),
            final(self)@ == old(self)@.with_entities(old(self)@.entities.push(entity_id)),
    {
        let index: usize = self.entities.len();
        self.entities.push(entity_id);
        let mut i: usize = 0;
        while i < self.components.len()
            invariant
                i <= self.components.len(),
                self@ == old(self)@.with_entities(old(self)@.entities.push(entity_id)),
            decreases self.components.len() - i,
        {
            let ghost before = self@;
            ComponentSet::expand(&mut self.components[i].data);
            proof {
                assert(self@.columns =~= before.columns);
            }
            i = i + 1;
        }
        index
    }

    /// Takes the entity of row `index_in_archetype` out of the entity list.
    /// The last entity takes its place and is returned; `None` when the row
    /// was the last one.
    pub fn remove_entity(
        &mut self,
        index_in_archetype: EntityArchetypeIndex,
    ) -> (moved: Option<EntityId>)
        requires
            index_in_archetype < old(self)@.entities.len(),
        ensures
            final(self)@ == old(self)@.with_entities(
                swap_removed(old(self)@.entities, index_in_archetype as int),
            ),
            moved == (if index_in_archetype == old(self)@.entities.len() - 1 {
                None
            } else {
                Some(old(self)@.entities.last())
            }),
    {
        if self.entities.len() - 1 == index_in_archetype {
            self.entities.pop();
            proof {
                assert(self@.entities =~= swap_removed(
                    old(self)@.entities,
                    index_in_archetype as int,
                ));
            }
            return None;
        }
        let moved: EntityId = self.entities[self.entities.len() - 1];
        self.entities.swap_remove(index_in_archetype);
        Some(moved)
    }

    /// Overwrites the component of type `type_id` in row `index_in_archetype`.
    pub fn set_entity_component(
        &mut self,
        index_in_archetype: EntityArchetypeIndex,
        type_id: ComponentTypeId,
        comp: V,
    ) -> (result: Result<(), ArchetypeError>)
        requires
            old(self)@.sorted(),
        ensures
            !old(self)@.has_type(type_id) ==> {
                &&& result == Err::<(), ArchetypeError>(ArchetypeError::ComponentMissing)
                &&& final(self)@ == old(self)@
            },
            old(self)@.has_type(type_id) && index_in_archetype >= old(self)@.column(type_id).len()
                ==> {
                &&& result == Err::<(), ArchetypeError>(ArchetypeError::UnderCapacity)
                &&& final(self)@ == old(self)@
            },
            old(self)@.has_type(type_id) && index_in_archetype < old(self)@.column(type_id).len()
                ==> {
                &&& result is Ok
                &&& final(self)@ == old(self)@.with_column(
                    type_id,
                    old(self)@.column(type_id).update(index_in_archetype as int, comp),
                )
            },
    {
        if !self.has_component(type_id) {
            return Err(ArchetypeError::ComponentMissing);
        }
        let ghost before = self@;
        let comp_store = self.get_component_set_mut(type_id);
        if index_in_archetype >= comp_store.len() {
            proof {
                before.lemma_has_type(type_id);
                assert(before.with_column(type_id, before.column(type_id)).columns
                    =~= before.columns);
            }
            return Err(ArchetypeError::UnderCapacity);
        }
        comp_store[index_in_archetype] = comp;
        Ok(())
    }

    /// The values of the column of `type_id`, by row.
    pub fn get_entity_component(
        &self,
        type_id: ComponentTypeId,
    ) -> (result: Result<&Vec<V>, ArchetypeError>)
        requires
            self@.sorted(),
        ensures
            match result {
                Ok(column) => self@.has_type(type_id) && column@ == self@.column(type_id),
                Err(error) => !self@.has_type(type_id) && error
                    == ArchetypeError::ComponentMissing,
            },
    {
        match self.find_column(type_id) {
            Some(i) => {
                proof {
                    self@.lemma_has_type(type_id);
                }
                Ok(&self.components[i].data)
            },
            None => Err(ArchetypeError::ComponentMissing),
        }
    }

    /// Moves the component of type `type_id` in row `index_in_archetype` to
    /// the end of the same column of `other_archetype`. In this archetype the
    /// last value of the column takes its place.
    pub fn migrate_component(
        &mut self,
        type_id: ComponentTypeId,
        index_in_archetype: EntityArchetypeIndex,
        other_archetype: &mut Archetype<V>,
    )
        requires
            old(self)@.sorted(),
            old(other_archetype)@.sorted(),
            old(self)@.has_type(type_id),
            old(other_archetype)@.has_type(type_id),
            index_in_archetype < old(self)@.column(type_id).len(),
        ensures
            final(self)@ == old(self)@.with_column(
                type_id,
                swap_removed(old(self)@.column(type_id), index_in_archetype as int),
            ),
            final(other_archetype)@ == old(other_archetype)@.with_column(
                type_id,
                old(other_archetype)@.column(type_id).push(
                    old(self)@.column(type_id)[index_in_archetype as int],
                ),
            ),
    {
        let other_set = other_archetype.get_component_set_mut(type_id);
        self.get_component_set_mut(type_id).migrate(index_in_archetype, other_set)
    }

    /// Whether the archetype's component types are exactly those of the
    /// list, in the same order.
    pub fn has_types(&self, types: &Vec<ComponentTypeId>) -> (b: bool)
        ensures
            b == (self@.type_ids() == types@),
    {
        if self.components.len() != types.len() {
            assert(self@.type_ids().len() == self.components.len());
            return false;
        }
        let mut i: usize = 0;
        while i < self.components.len()
            invariant
                i <= self.components.len(),
                self.components.len() == types.len(),
                forall|j: int| 0 <= j < i ==> self@.type_ids()[j] == types[j],
            decreases self.components.len() - i,
        {
            if self.components[i].type_id != types[i] {
                assert(self@.type_ids()[i as int] != types[i as int]);
                return false;
            }
            i = i + 1;
        }
        proof {
            assert(self@.type_ids() =~= types@);
        }
        true
    }

    /// An archetype with the same columns, all of them empty, and without
    /// entities.
    pub fn empty_clone(&self) -> (archetype: Archetype<V>)
        ensures
            archetype@ == self@.emptied(),
    {
        let mut archetype: Archetype<V> = Archetype::new();
        let mut i: usize = 0;
        while i < self.components.len()
            invariant
                i <= self.components.len(),
                archetype.components.len() == i,
                archetype@.entities.len() == 0,
                forall|j: int|
                    0 <= j < i ==> (#[trigger] archetype.components@[j])@
                        == self@.emptied().columns[j],
            decreases self.components.len() - i,
        {
            let store = self.components[i].empty_clone();
            archetype.components.push(store);
            i = i + 1;
        }
        proof {
            assert(archetype@.columns =~= self@.emptied().columns);
            assert(archetype@.entities =~= self@.emptied().entities);
        }
        archetype
    }

    /// Moves the components of the listed types in row
    /// `index_in_archetype` to the ends of the same columns of
    /// `other_archetype`.
    pub fn migrate_components(
        &mut self,
        types: &Vec<ComponentTypeId>,
        index_in_archetype: EntityArchetypeIndex,
        other_archetype: &mut Archetype<V>,
    )
        requires
            old(self)@.sorted(),
            old(other_archetype)@.sorted(),
            types@.no_duplicates(),
            forall|k: int|
                0 <= k < types.len() ==> {
                    &&& old(self)@.has_type(#[trigger] types[k])
                    &&& old(other_archetype)@.has_type(types[k])
                    &&& index_in_archetype < old(self)@.column(types[k]).len()
                },
        ensures
            final(self)@ == old(self)@.migrated_from(types@, index_in_archetype as int),
            final(other_archetype)@ == old(other_archetype)@.migrated_into(
                types@,
                old(self)@,
                index_in_archetype as int,
            ),
    {
        let ghost source = self@;
        let ghost target = other_archetype@;
        let ghost row = index_in_archetype as int;
        let mut k: usize = 0;
        proof {
            assert(types@.take(0).len() == 0);
            assert(self@ =~= source.migrated_from(types@.take(0), row));
            assert(other_archetype@ =~= target.migrated_into(types@.take(0), source, row));
        }
        while k < types.len()
            invariant
                k <= types.len(),
                row == index_in_archetype as int,
                source.sorted(),
                target.sorted(),
                types@.no_duplicates(),
                forall|k: int|
                    0 <= k < types.len() ==> {
                        &&& source.has_type(#[trigger] types[k])
                        &&& target.has_type(types[k])
                        &&& index_in_archetype < source.column(types[k]).len()
                    },
                self@ == source.migrated_from(types@.take(k as int), row),
                other_archetype@ == target.migrated_into(types@.take(k as int), source, row),
            decreases types.len() - k,
        {
            let type_id: ComponentTypeId = types[k];
            let ghost here = self@;
            let ghost there = other_archetype@;
            let ghost done = types@.take(k as int);
            let ghost next = types@.take(k + 1);
            proof {
                assert(here.type_ids() =~= source.type_ids());
                assert(there.type_ids() =~= target.type_ids());
                source.lemma_same_types(here);
                target.lemma_same_types(there);
                source.lemma_has_type(type_id);
                target.lemma_has_type(type_id);
                assert(!done.contains(type_id)) by {
                    if done.contains(type_id) {
                        let j = choose|j: int| 0 <= j < done.len() && done[j] == type_id;
                        assert(types@[j] == type_id && types@[k as int] == type_id);
                    }
                }
                assert(here.column(type_id) == source.column(type_id));
                assert(there.column(type_id) == target.column(type_id));
            }
            self.migrate_component(type_id, index_in_archetype, other_archetype);
            proof {
                assert(next =~= done.push(type_id));
                lemma_push_contains(done, type_id);
                let at = source.index_of(type_id);
                let into = target.index_of(type_id);
                assert forall|i: int| 0 <= i < source.columns.len() implies self@.columns[i]
                    == source.migrated_from(next, row).columns[i] by {
                    source.lemma_index_of(i);
                    if i != at {
                        assert(source.columns[i].type_id != type_id);
                    }
                }
                assert(self@ =~= source.migrated_from(next, row));
                assert forall|i: int|
                    0 <= i < target.columns.len() implies other_archetype@.columns[i]
                    == target.migrated_into(next, source, row).columns[i] by {
                    target.lemma_index_of(i);
                    if i != into {
                        assert(target.columns[i].type_id != type_id);
                    }
                }
                assert(other_archetype@ =~= target.migrated_into(next, source, row));
            }
            k = k + 1;
        }
        proof {
            assert(types@.take(k as int) =~= types@);
        }
    }

    /// Drops the values of row `index_in_archetype` from every column; in
    /// each the last value takes the place of the one dropped. The entity
    /// list stays as it is.
    pub fn remove_entity_components(&mut self, index_in_archetype: EntityArchetypeIndex)
        requires
            old(self)@.aligned(),
            index_in_archetype < old(self)@.entities.len(),
        ensures
            final(self)@ == old(self)@.without_row(index_in_archetype as int).with_entities(
                old(self)@.entities,
            ),
    {
        let ghost before = self@;
        let ghost row = index_in_archetype as int;
        let mut i: usize = 0;
        while i < self.components.len()
            invariant
                i <= self.components.len(),
                row == index_in_archetype as int,
                before.aligned(),
                index_in_archetype < before.entities.len(),
                self@.entities == before.entities,
                self@.columns.len() == before.columns.len(),
                forall|j: int|
                    0 <= j < i ==> #[trigger] self@.columns[j] == before.without_row(
                        row,
                    ).columns[j],
                forall|j: int|
                    i <= j < before.columns.len() ==> #[trigger] self@.columns[j]
                        == before.columns[j],
            decreases self.components.len() - i,
        {
            let ghost here = self@;
            assert(here.columns[i as int] == before.columns[i as int]);
            assert(before.columns[i as int].values.len() == before.entities.len());
            ComponentSet::remove(&mut self.components[i].data, index_in_archetype);
            proof {
                assert forall|j: int| 0 <= j < i + 1 implies #[trigger] self@.columns[j]
                    == before.without_row(row).columns[j] by {
                    if j < i {
                        assert(self@.columns[j] == here.columns[j]);
                    }
                }
                assert forall|j: int|
                    i + 1 <= j < before.columns.len() implies #[trigger] self@.columns[j]
                    == before.columns[j] by {
                    assert(self@.columns[j] == here.columns[j]);
                }
            }
            i = i + 1;
        }
        proof {
            assert(self@.columns =~= before.without_row(row).columns);
        }
    }
}

} // verus!
