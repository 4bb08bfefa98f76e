use vstd::prelude::*;
use crate::archetype::ArchetypeId;

verus! {

/// Index of a slot of the entity table.
pub type EntityId = u32;

/// How often a slot has been freed.
pub type Generation = u32;

/// Row of an archetype.
pub type EntityArchetypeIndex = usize;

/// Why the entity table refuses.
#[derive(Debug, PartialEq, Eq, Clone, Copy, Structural)]
pub enum EntityError {
    /// The index was never allocated.
    DoesNotExist,
    /// The slot is already live.
    AlreadyAllocated,
    /// The slot is no longer live.
    AlreadyDeallocated,
}

impl EntityError {
    /// The error in words.
    pub open spec fn text(self) -> Seq<char> {
        match self {
            EntityError::DoesNotExist => "Entity does not exist"@,
            EntityError::AlreadyAllocated => {
                "An entity with this ID was already allocated and is still live"@
            },
            EntityError::AlreadyDeallocated => {
                "An entity with this ID was already deallocated and is no longer live"@
            },
        }
    }

    /// The error in words.
    pub fn message(&self) -> (text: String)
        ensures
            text@ == self.text(),
    {
        match self {
            EntityError::DoesNotExist => String::from_str("Entity does not exist"),
            EntityError::AlreadyAllocated => String::from_str(
                "An entity with this ID was already allocated and is still live",
            ),
            EntityError::AlreadyDeallocated => String::from_str(
                "An entity with this ID was already deallocated and is no longer live",
            ),
        }
    }
}

/// Handle of one entity: a slot index and the generation the slot had when
/// the handle was given out.
#[derive(Debug, PartialEq, Eq, PartialOrd, Ord, Clone, Copy, Structural)]
pub struct Entity {
    pub index: EntityId,
    pub generation: Generation,
}

impl Entity {
    /// The handle of slot `index` in generation `generation`.
    pub fn new(index: EntityId, generation: Generation) -> (entity: Self)
        ensures
            entity == (Entity { index, generation }),
    {
        Self { index, generation }
    }
}

/// The row of an archetype that holds an entity's components.
#[derive(Debug, PartialEq, Eq, PartialOrd, Ord, Clone, Copy, Structural)]
pub struct EntityLocation {
    pub archetype_id: ArchetypeId,
    pub index_in_archetype: EntityArchetypeIndex,
}

impl EntityLocation {
    /// The row `index_in_archetype` of the archetype `archetype_id`.
    pub fn new(
        archetype_id: ArchetypeId,
        index_in_archetype: EntityArchetypeIndex,
    ) -> (location: Self)
        ensures
            location == (EntityLocation { archetype_id, index_in_archetype }),
    {
        Self { archetype_id, index_in_archetype }
    }
}

/// One slot of the entity table.
#[derive(Debug, PartialEq, Eq, PartialOrd, Ord, Clone, Copy, Structural)]
pub struct EntityEntry {
    pub is_live: bool,
    pub generation: Generation,
    pub location: EntityLocation,
}

impl EntityEntry {
    /// An entry with the given liveness, generation and location.
    pub fn new(
        is_live: bool,
        generation: Generation,
        archetype_id: ArchetypeId,
        index_in_archetype: EntityArchetypeIndex,
    ) -> (entry: Self)
        ensures
            entry == (EntityEntry {
                is_live,
                generation,
                location: EntityLocation { archetype_id, index_in_archetype },
            }),
    {
        Self {
            is_live,
            generation,
            location: EntityLocation::new(archetype_id, index_in_archetype),
        }
    }

    /// The entry with its liveness flag replaced.
    pub open spec fn with_live(self, is_live: bool) -> Self {
        EntityEntry { is_live, generation: self.generation, location: self.location }
    }

    /// The entry with its location replaced.
    pub open spec fn with_location(self, location: EntityLocation) -> Self {
        EntityEntry { is_live: self.is_live, generation: self.generation, location }
    }

    /// The entry as `deallocate` leaves it: not live, one generation later.
    pub open spec fn retired(self) -> Self {
        EntityEntry {
            is_live: false,
            generation: (self.generation + 1) as Generation,
            location: self.location,
        }
    }
}

/// Number of live entries among `entries`.
pub open spec fn count_live(entries: Seq<EntityEntry>) -> nat
    decreases entries.len(),
{
    if entries.len() == 0 {
        0
    } else {
        count_live(entries.drop_last()) + if entries.last().is_live {
            1nat
        } else {
            0nat
        }
    }
}

/// The handles that are live in a table with these entries.
pub open spec fn live_handles(entries: Seq<EntityEntry>) -> Set<Entity> {
    Set::new(
        |entity: Entity|
            (entity.index as int) < entries.len() && entries[entity.index as int].is_live
                && entries[entity.index as int].generation == entity.generation,
    )
}

/// There are as many live handles as live slots.
pub proof fn lemma_live_handles_counted(entries: Seq<EntityEntry>)
    requires
        entries.len() <= u32::MAX,
    ensures
        live_handles(entries).finite(),
        live_handles(entries).len() == count_live(entries),
    decreases entries.len(),
{
    if entries.len() == 0 {
        assert(live_handles(entries) =~= Set::<Entity>::empty());
    } else {
        let before = entries.drop_last();
        let last = entries.last();
        lemma_live_handles_counted(before);
        if last.is_live {
            let handle = Entity { index: before.len() as EntityId, generation: last.generation };
            assert(!live_handles(before).contains(handle));
            assert(live_handles(entries) =~= live_handles(before).insert(handle));
        } else {
            assert(live_handles(entries) =~= live_handles(before));
        }
    }
}

/// A handle that was live before its slot was freed is not live once the
/// slot has been given out again: the new handle has the same index and
/// the next generation.
pub proof fn lemma_reused_slot_rejects_old_handle(entries: Seq<EntityEntry>, entity: Entity)
    requires
        live_handles(entries).contains(entity),
        entity.generation < u32::MAX,
    ensures
        ({
            let index = entity.index as int;
            let freed = entries.update(index, entries[index].retired());
            let reused = freed.update(index, freed[index].with_live(true));
            let successor = Entity {
                index: entity.index,
                generation: (entity.generation + 1) as Generation,
            };
            &&& !live_handles(freed).contains(entity)
            &&& !live_handles(reused).contains(entity)
            &&& live_handles(reused).contains(successor)
            &&& successor != entity
        }),
{
}

/// The generational entity table: one entry per slot ever allocated, and the
/// stack of freed slot indices.
pub struct Entities {
    entries: Vec<EntityEntry>,
    free: Vec<EntityId>,
}

impl Default for Entities {
    /// A table without slots.
    fn default() -> (table: Self)
        ensures
            table.wf(),
            table.entries() == Seq::<EntityEntry>::empty(),
            table.free_list() == Seq::<EntityId>::empty(),
    {
        Entities::new()
    }
}

impl Entities {
    /// The slots, by index.
    pub closed spec fn entries(&self) -> Seq<EntityEntry> {
        self.entries@
    }

    /// The freed indices, most recently freed last.
    pub closed spec fn free_list(&self) -> Seq<EntityId> {
        self.free@
    }

    /// The free list holds exactly the indices of the slots that are not
    /// live, each once, and every index fits in 32 bits.
    pub open spec fn wf(&self) -> bool {
        &&& self.entries().len() <= u32::MAX
        &&& self.free_list().no_duplicates()
        &&& forall|k: int|
            0 <= k < self.free_list().len() ==> (#[trigger] self.free_list()[k] as int)
                < self.entries().len() && !self.entries()[self.free_list()[k] as int].is_live
        &&& forall|i: int|
            0 <= i < self.entries().len() && !(#[trigger] self.entries()[i]).is_live
                ==> self.free_list().contains(i as EntityId)
    }

    /// Slot `index` exists and is live.
    pub open spec fn slot_live(&self, index: EntityId) -> bool {
        (index as int) < self.entries().len() && self.entries()[index as int].is_live
    }

    /// A handle is live when its slot is live and still has the handle's
    /// generation.
    pub open spec fn live(&self, entity: Entity) -> bool {
        self.slot_live(entity.index) && self.entries()[entity.index as int].generation
            == entity.generation
    }

    /// The handle that `allocate` gives out next: the most recently freed
    /// slot in the generation it was left with, or a new slot of
    /// generation 0 when none is free.
    pub open spec fn next_entity(&self) -> Entity {
        if self.free_list().len() > 0 {
            Entity {
                index: self.free_list().last(),
                generation: self.entries()[self.free_list().last() as int].generation,
            }
        } else {
            Entity { index: self.entries().len() as EntityId, generation: 0 }
        }
    }

    /// Whether `allocate` has a slot to give: a freed one, or room for a new
    /// index.
    pub open spec fn can_allocate(&self) -> bool {
        self.free_list().len() > 0 || self.entries().len() < u32::MAX
    }

    /// A table without slots.
    pub fn new() -> (table: Self)
        ensures
            table.wf(),
            table.entries() == Seq::<EntityEntry>::empty(),
            table.free_list() == Seq::<EntityId>::empty(),
    {
        Entities { entries: Vec::new(), free: Vec::new() }
    }

    /// Number of slots ever allocated.
    pub fn len(&self) -> (n: u32)
        requires
            self.entries().len() <= u32::MAX,
        ensures
            n == self.entries().len(),
    {
        self.entries.len() as u32
    }

    /// Whether a call of `allocate` is within the table's limits.
    pub fn has_room(&self) -> (b: bool)
        ensures
            b == self.can_allocate(),
    {
        self.free.len() > 0 || self.entries.len() < u32::MAX as usize
    }

    /// Gives out the most recently freed slot, with the generation it was
    /// left with, or a new slot of generation 0 when none is free.
    pub fn allocate(&mut self) -> (result: Result<Entity, EntityError>)
        requires
            old(self).wf(),
            old(self).can_allocate(),
        ensures
            final(self).wf(),
            result == Ok::<Entity, EntityError>(old(self).next_entity()),
            old(self).free_list().len() > 0 ==> {
                let index = old(self).free_list().last();
                &&& final(self).free_list() == old(self).free_list().drop_last()
                &&& final(self).entries() == old(self).entries().update(
                    index as int,
                    old(self).entries()[index as int].with_live(true),
                )
            },
            old(self).free_list().len() == 0 ==> {
                &&& final(self).free_list() == old(self).free_list()
                &&& final(self).entries() == old(self).entries().push(
                    EntityEntry {
                        is_live: true,
                        generation: 0,
                        location: EntityLocation { archetype_id: 0, index_in_archetype: 0 },
                    },
                )
            },
    {
        if let Some(index) = self.free.pop() {
            let entry = &mut self.entries[index as usize];
            if entry.is_live {
                return Err(EntityError::AlreadyAllocated);
            }
            entry.is_live = true;
            let entity = Entity::new(index, entry.generation);
            proof {
                let old_free = old(self).free_list();
                assert(old_free[old_free.len() - 1] == index);
                assert forall|i: int|
                    0 <= i < self.entries().len() && !(#[trigger] self.entries()[i]).is_live
                    implies self.free_list().contains(i as EntityId) by {
                    assert(!old(self).entries()[i].is_live);
                    assert(old_free.contains(i as EntityId));
                    let k = choose|k: int| 0 <= k < old_free.len() && old_free[k] == i as EntityId;
                    assert(k != old_free.len() - 1);
                    assert(self.free_list()[k] == i as EntityId);
                }
            }
            Ok(entity)
        } else {
            let generation: Generation = 0;
            self.entries.push(EntityEntry::new(true, generation, 0, 0));
            Ok(Entity::new(self.len() - 1, generation))
        }
    }

    /// Marks the slot of `entity` as free and starts its next generation.
    /// The handle's generation is not looked at.
    pub fn deallocate(&mut self, entity: Entity) -> (result: Result<(), EntityError>)
        requires
            old(self).wf(),
            old(self).slot_live(entity.index)
                ==> old(self).entries()[entity.index as int].generation
                < u32::MAX,
        ensures
            final(self).wf(),
            (entity.index as int) >= old(self).entries().len() ==> {
                &&& result == Err::<(), EntityError>(EntityError::DoesNotExist)
                &&& final(self).entries() == old(self).entries()
                &&& final(self).free_list() == old(self).free_list()
            },
            (entity.index as int) < old(self).entries().len() && !old(self).slot_live(entity.index)
                ==> {
                &&& result == Err::<(), EntityError>(EntityError::AlreadyDeallocated)
                &&& final(self).entries() == old(self).entries()
                &&& final(self).free_list() == old(self).free_list()
            },
            old(self).slot_live(entity.index) ==> {
                &&& result is Ok
                &&& final(self).entries() == old(self).entries().update(
                    entity.index as int,
                    old(self).entries()[entity.index as int].retired(),
                )
                &&& final(self).free_list() == old(self).free_list().push(entity.index)
            },
    {
        if entity.index >= self.len() {
            return Err(EntityError::DoesNotExist);
        }
        let entry = &mut self.entries[entity.index as usize];
        if !entry.is_live {
            return Err(EntityError::AlreadyDeallocated);
        }
        entry.is_live = false;
        entry.generation = entry.generation + 1;
        self.free.push(entity.index);
        proof {
            let old_free = old(self).free_list();
            assert forall|k: int| 0 <= k < old_free.len() implies old_free[k] != entity.index by {
                assert(!old(self).entries()[old_free[k] as int].is_live);
            }
            assert forall|i: int|
                0 <= i < self.entries().len() && !(#[trigger] self.entries()[i]).is_live
                implies self.free_list().contains(i as EntityId) by {
                if i == entity.index {
                    assert(self.free_list()[old_free.len() as int] == entity.index);
                } else {
                    assert(!old(self).entries()[i].is_live);
                    let k = choose|k: int| 0 <= k < old_free.len() && old_free[k] == i as EntityId;
                    assert(self.free_list()[k] == i as EntityId);
                }
            }
        }
        Ok(())
    }

    /// Overwrites the location stored in a live slot. No generation is
    /// compared: the caller has checked the handle.
    pub fn set_location(
        &mut self,
        entity_id: EntityId,
        location: EntityLocation,
    ) -> (result: Result<(), EntityError>)
        requires
            old(self).wf(),
        ensures
            final(self).wf(),
            final(self).free_list() == old(self).free_list(),
            (entity_id as int) >= old(self).entries().len() ==> {
                &&& result == Err::<(), EntityError>(EntityError::DoesNotExist)
                &&& final(self).entries() == old(self).entries()
            },
            (entity_id as int) < old(self).entries().len() && !old(self).slot_live(entity_id) ==> {
                &&& result == Err::<(), EntityError>(EntityError::AlreadyDeallocated)
                &&& final(self).entries() == old(self).entries()
            },
            old(self).slot_live(entity_id) ==> {
                &&& result is Ok
                &&& final(self).entries() == old(self).entries().update(
                    entity_id as int,
                    old(self).entries()[entity_id as int].with_location(location),
                )
            },
    {
        if entity_id >= self.len() {
            return Err(EntityError::DoesNotExist);
        }
        let entry = &mut self.entries[entity_id as usize];
        if !entry.is_live {
            return Err(EntityError::AlreadyDeallocated);
        }
        entry.location = location;
        proof {
            assert forall|i: int|
                0 <= i < self.entries().len() && !(#[trigger] self.entries()[i]).is_live
                implies self.free_list().contains(i as EntityId) by {
                assert(!old(self).entries()[i].is_live);
            }
        }
        Ok(())
    }

    /// Number of live slots.
    pub fn count(&self) -> (n: usize)
        ensures
            n == count_live(self.entries()),
    {
        let mut n: usize = 0;
        let mut i: usize = 0;
        while i < self.entries.len()
            invariant
                i <= self.entries.len(),
                n == count_live(self.entries@.take(i as int)),
                n <= i,
            decreases self.entries.len() - i,
        {
            proof {
                assert(self.entries@.take(i + 1).drop_last() == self.entries@.take(i as int));
            }
            if self.entries[i].is_live {
                n = n + 1;
            }
            i = i + 1;
        }
        proof {
            assert(self.entries@.take(i as int) == self.entries@);
        }
        n
    }

    /// Whether the handle is live.
    pub fn is_live(&self, entity: Entity) -> (b: bool)
        requires
            self.entries().len() <= u32::MAX,
        ensures
            b == self.live(entity),
    {
        if entity.index >= self.len() {
            return false;
        }
        let entry = &self.entries[entity.index as usize];
        entry.is_live && entry.generation == entity.generation
    }

    /// The entry at `index`, if that slot is live.
    pub fn live_at_index(&self, index: u32) -> (entry: Option<&EntityEntry>)
        ensures
            entry == (if self.slot_live(index) {
                Some(&self.entries()[index as int])
            } else {
                None
            }),
    {
        if (index as usize) < self.entries.len() {
            let entry = &self.entries[index as usize];
            if entry.is_live {
                return Some(entry);
            }
        }
        None
    }
}

} // verus!
