use vstd::prelude::*;
use std::collections::HashMap;
use crate::archetype::ComponentTypeId;
use crate::entities::EntityId;

verus! {

/// Position of a component type's pool.
pub type ComponentId = usize;

/// Appends an empty slot to a pool.
fn push_none<V>(pool: &mut Vec<Option<V>>)
    ensures
        final(pool)@ == old(pool)@.push(None),
{
    pool.push(None);
}

/// Empties the slot at `index`, if the pool has one. Returns whether it has.
fn set_none_at<V>(pool: &mut Vec<Option<V>>, index: usize) -> (found: bool)
    ensures
        found == (index < old(pool)@.len()),
        final(pool)@ == cleared(old(pool)@, index as int),
{
    if index < pool.len() {
        pool[index] = None;
        return true;
    }
    false
}

/// What a slot of a pool holds, and nothing where the pool has no such slot.
pub open spec fn slot<V>(pool: Seq<Option<V>>, index: int) -> Option<V> {
    if 0 <= index < pool.len() {
        pool[index]
    } else {
        None
    }
}

/// A pool with the slot at `index` emptied, if it has one.
pub open spec fn cleared<V>(pool: Seq<Option<V>>, index: int) -> Seq<Option<V>> {
    if 0 <= index < pool.len() {
        pool.update(index, None)
    } else {
        pool
    }
}

/// A pool extended by empty slots until it has at least `len` of them.
pub open spec fn padded<V>(pool: Seq<Option<V>>, len: int) -> Seq<Option<V>> {
    if pool.len() >= len {
        pool
    } else {
        pool + Seq::new((len - pool.len()) as nat, |i: int| None)
    }
}

/// Component storage by pools: one pool per registered component type, and
/// in each pool one slot per entity index, empty or holding a value.
pub struct Components<V> {
    pools: Vec<Vec<Option<V>>>,
    registry: HashMap<ComponentTypeId, ComponentId>,
}

impl<V> Default for Components<V> {
    /// Storage without pools.
    fn default() -> (components: Self)
        ensures
            components.wf(),
            components.pools().len() == 0,
            components.registry() == Map::<ComponentTypeId, ComponentId>::empty(),
    {
        Components::new()
    }
}

impl<V> Components<V> {
    /// The pools, by component id.
    pub closed spec fn pools(&self) -> Seq<Seq<Option<V>>> {
        Seq::new(self.pools@.len(), |i: int| self.pools@[i]@)
    }

    /// The component id of each registered component type.
    pub closed spec fn registry(&self) -> Map<ComponentTypeId, ComponentId> {
        self.registry@
    }

    /// Every registered type has a pool of its own.
    pub open spec fn wf(&self) -> bool {
        &&& forall|type_id: ComponentTypeId| #[trigger]
            self.registry().contains_key(type_id) ==> (self.registry()[type_id] as int)
                < self.pools().len()
        &&& forall|a: ComponentTypeId, b: ComponentTypeId|
            self.registry().contains_key(a) && self.registry().contains_key(b) && a != b
                ==> #[trigger] self.registry()[a] != #[trigger] self.registry()[b]
    }

    /// The component of type `type_id` of the entity with index `entity_id`.
    pub open spec fn component(&self, entity_id: EntityId, type_id: ComponentTypeId) -> Option<V> {
        if self.registry().contains_key(type_id) {
            slot(self.pools()[self.registry()[type_id] as int], entity_id as int)
        } else {
            None
        }
    }

    pub fn new() -> (components: Self)
        ensures
            components.wf(),
            components.pools().len() == 0,
            components.registry() == Map::<ComponentTypeId, ComponentId>::empty(),
    {
        Components { pools: Vec::new(), registry: HashMap::new() }
    }

    /// Appends an empty slot to every pool.
    pub fn expand_pools(&mut self)
        ensures
            final(self).registry() == old(self).registry(),
            final(self).pools().len() == old(self).pools().len(),
            forall|i: int|
                0 <= i < old(self).pools().len() ==> #[trigger] final(self).pools()[i] == old(
                    self,
                ).pools()[i].push(None),
    {
        let mut i: usize = 0;
        while i < self.pools.len()
            invariant
                i <= self.pools.len(),
                self.registry() == old(self).registry(),
                self.pools().len() == old(self).pools().len(),
                forall|j: int|
                    0 <= j < i ==> #[trigger] self.pools()[j] == old(self).pools()[j].push(None),
                forall|j: int|
                    i <= j < self.pools().len() ==> #[trigger] self.pools()[j] == old(
                        self,
                    ).pools()[j],
            decreases self.pools.len() - i,
        {
            let ghost before = self.pools();
            push_none(&mut self.pools[i]);
            proof {
                assert forall|j: int| 0 <= j < i + 1 implies #[trigger] self.pools()[j] == old(
                    self,
                ).pools()[j].push(None) by {
                    if j < i {
                        assert(self.pools()[j] == before[j]);
                    } else {
                        assert(before[j] == old(self).pools()[j]);
                    }
                }
                assert forall|j: int|
                    i + 1 <= j < self.pools().len() implies #[trigger] self.pools()[j]
                    == old(self).pools()[j] by {
                    assert(self.pools()[j] == before[j]);
                }
            }
            i = i + 1;
        }
    }

    /// Empties the slot of the entity in every pool that has one for it.
    pub fn clear_entity_components(&mut self, index: EntityId)
        ensures
            final(self).registry() == old(self).registry(),
            final(self).pools().len() == old(self).pools().len(),
            forall|i: int|
                0 <= i < old(self).pools().len() ==> #[trigger] final(self).pools()[i] == cleared(
                    old(self).pools()[i],
                    index as int,
                ),
    {
        let mut i: usize = 0;
        while i < self.pools.len()
            invariant
                i <= self.pools.len(),
                self.registry() == old(self).registry(),
                self.pools().len() == old(self).pools().len(),
                forall|j: int|
                    0 <= j < i ==> #[trigger] self.pools()[j] == cleared(
                        old(self).pools()[j],
                        index as int,
                    ),
                forall|j: int|
                    i <= j < self.pools().len() ==> #[trigger] self.pools()[j] == old(
                        self,
                    ).pools()[j],
            decreases self.pools.len() - i,
        {
            let ghost before = self.pools();
            set_none_at(&mut self.pools[i], index as usize);
            proof {
                assert forall|j: int| 0 <= j < i + 1 implies #[trigger] self.pools()[j] == cleared(
                    old(self).pools()[j],
                    index as int,
                ) by {
                    if j < i {
                        assert(self.pools()[j] == before[j]);
                    } else {
                        assert(before[j] == old(self).pools()[j]);
                    }
                }
                assert forall|j: int|
                    i + 1 <= j < self.pools().len() implies #[trigger] self.pools()[j] == old(
                    self,
                ).pools()[j] by {
                    assert(self.pools()[j] == before[j]);
                }
            }
            i = i + 1;
        }
    }

    /// Gives the component type a pool of its own, without slots.
    fn register_component(&mut self, type_id: ComponentTypeId) -> (comp_id: ComponentId)
        requires
            old(self).wf(),
            !old(self).registry().contains_key(type_id),
        ensures
            final(self).wf(),
            comp_id == old(self).pools().len(),
            final(self).pools() == old(self).pools().push(Seq::<Option<V>>::empty()),
            final(self).registry() == old(self).registry().insert(type_id, comp_id),
    {
        // We'll never unregister components, so this is always reliable
        let comp_id = self.pools.len();
        let capacity: usize = if self.pools.len() > 0 {
            self.pools[0].len()
        } else {
            0
        };
        self.pools.push(Vec::with_capacity(capacity));
        self.registry.insert(type_id, comp_id);
        proof {
            assert(self.pools() =~= old(self).pools().push(Seq::<Option<V>>::empty()));
            assert forall|a: ComponentTypeId, b: ComponentTypeId|
                self.registry().contains_key(a) && self.registry().contains_key(b) && a
                    != b implies #[trigger] self.registry()[a] != #[trigger] self.registry()[b] by {
                if a != type_id {
                    assert(old(self).registry().contains_key(a));
                }
                if b != type_id {
                    assert(old(self).registry().contains_key(b));
                }
            }
        }
        comp_id
    }

    /// The component id of the type, which is registered if it was not.
    pub fn get_or_register_component_id(&mut self, type_id: ComponentTypeId) -> (comp_id:
        ComponentId)
        requires
            old(self).wf(),
        ensures
            final(self).wf(),
            old(self).registry().contains_key(type_id) ==> {
                &&& comp_id == old(self).registry()[type_id]
                &&& final(self).pools() == old(self).pools()
                &&& final(self).registry() == old(self).registry()
            },
            !old(self).registry().contains_key(type_id) ==> {
                &&& comp_id == old(self).pools().len()
                &&& final(self).pools() == old(self).pools().push(Seq::<Option<V>>::empty())
                &&& final(self).registry() == old(self).registry().insert(type_id, comp_id)
            },
    {
        match self.get_component_id(type_id) {
            Some(id) => id,
            None => self.register_component(type_id),
        }
    }

    pub fn get_component_id(&self, type_id: ComponentTypeId) -> (found: Option<ComponentId>)
        ensures
            found == (if self.registry().contains_key(type_id) {
                Some(self.registry()[type_id])
            } else {
                None
            }),
    {
        match self.registry.get(&type_id) {
            Some(id) => Some(*id),
            None => None,
        }
    }

    /// The pool of the component type, if it is registered.
    pub fn get_component_pool(&self, type_id: ComponentTypeId) -> (found: Option<&Vec<Option<V>>>)
        requires
            self.wf(),
        ensures
            self.registry().contains_key(type_id) == found.is_some(),
            found matches Some(pool) ==> pool@ == self.pools()[self.registry()[type_id] as int],
    {
        match self.get_component_id(type_id) {
            Some(comp_id) => Some(&self.pools[comp_id]),
            None => None,
        }
    }

    /// The component of type `type_id` of the entity, if it has one.
    pub fn get_entity_component(&self, entity_id: EntityId, type_id: ComponentTypeId) -> (found:
        Option<&V>)
        requires
            self.wf(),
        ensures
            found == (match self.component(entity_id, type_id) {
                Some(value) => Some(&value),
                None => None,
            }),
    {
        if let Some(comp_id) = self.get_component_id(type_id) {
            let pool = &self.pools[comp_id];
            if (entity_id as usize) < pool.len() {
                return pool[entity_id as usize].as_ref();
            }
        }
        None
    }

    /// The pool of the component type, to change, if the type is registered.
    pub fn get_component_pool_mut(&mut self, type_id: ComponentTypeId) -> (found: Option<
        &mut Vec<Option<V>>,
    >)
        requires
            old(self).wf(),
        ensures
            old(self).registry().contains_key(type_id) == found.is_some(),
            final(self).registry() == old(self).registry(),
            found matches Some(pool) ==> {
                &&& pool@ == old(self).pools()[old(self).registry()[type_id] as int]
                &&& final(self).pools() == old(self).pools().update(
                    old(self).registry()[type_id] as int,
                    final(pool)@,
                )
            },
            found is None ==> final(self).pools() == old(self).pools(),
    {
        match self.get_component_id(type_id) {
            Some(comp_id) => Some(&mut self.pools[comp_id]),
            None => None,
        }
    }

    /// The pools as they are once the component type has a pool.
    pub open spec fn pools_with(&self, type_id: ComponentTypeId) -> Seq<Seq<Option<V>>> {
        if self.registry().contains_key(type_id) {
            self.pools()
        } else {
            self.pools().push(Seq::<Option<V>>::empty())
        }
    }

    /// The registry as it is once the component type is registered.
    pub open spec fn registry_with(&self, type_id: ComponentTypeId) -> Map<
        ComponentTypeId,
        ComponentId,
    > {
        if self.registry().contains_key(type_id) {
            self.registry()
        } else {
            self.registry().insert(type_id, self.pools().len() as ComponentId)
        }
    }

    /// The component of type `type_id` of the entity, to change, if it has
    /// one. The type is registered if it was not.
    pub fn get_entity_component_mut(&mut self, entity_id: EntityId, type_id: ComponentTypeId)
        -> (found:
        Option<&mut V>)
        requires
            old(self).wf(),
        ensures
            final(self).registry() == old(self).registry_with(type_id),
            found.is_some() == old(self).component(entity_id, type_id).is_some(),
            found matches Some(value) ==> {
                &&& Some(*value) == old(self).component(entity_id, type_id)
                &&& final(self).pools() == old(self).pools().update(
                    old(self).registry()[type_id] as int,
                    old(self).pools()[old(self).registry()[type_id] as int].update(
                        entity_id as int,
                        Some(*final(value)),
                    ),
                )
            },
            found is None ==> final(self).pools() =~~= old(self).pools_with(type_id),
    {
        let comp_id = self.get_or_register_component_id(type_id);
        let ghost registered = self.pools();
        proof {
            assert(registered == old(self).pools_with(type_id));
            assert(self.registry().contains_key(type_id));
            assert(registered.len() == self.pools@.len());
            assert(registered[comp_id as int] == self.pools@[comp_id as int]@);
        }
        let pool = &mut self.pools[comp_id];
        if (entity_id as usize) < pool.len() {
            pool[entity_id as usize].as_mut()
        } else {
            None
        }
    }

    /// Gives the entity `component` as its component of type `type_id`. The
    /// type is registered if it was not, and its pool grows to hold the
    /// entity's slot and one more.
    pub fn set_entity_component(
        &mut self,
        entity_id: EntityId,
        type_id: ComponentTypeId,
        component: V,
    )
        requires
            old(self).wf(),
        ensures
            final(self).wf(),
            final(self).component(entity_id, type_id) == Some(component),
            final(self).registry() == (if old(self).registry().contains_key(type_id) {
                old(self).registry()
            } else {
                old(self).registry().insert(type_id, old(self).pools().len() as ComponentId)
            }),
            ({
                let comp_id = final(self).registry()[type_id] as int;
                let before = if old(self).registry().contains_key(type_id) {
                    old(self).pools()[comp_id]
                } else {
                    Seq::<Option<V>>::empty()
                };
                &&& final(self).pools().len() == comp_id + 1 || final(self).pools().len() == old(
                    self,
                ).pools().len()
                &&& final(self).pools()[comp_id] == padded(before, entity_id + 2).update(
                    entity_id as int,
                    Some(component),
                )
                &&& forall|i: int|
                    0 <= i < old(self).pools().len() && i != comp_id
                        ==> #[trigger] final(self).pools()[i] == old(self).pools()[i]
            }),
    {
        let comp_id = self.get_or_register_component_id(type_id);
        let ghost registered = self.pools();
        let ghost before = registered[comp_id as int];
        let comp_pool = &mut self.pools[comp_id];
        while (entity_id as u64) + 1 >= comp_pool.len() as u64
            invariant
                before.len() <= comp_pool@.len(),
                comp_pool@.len() <= entity_id + 2 || comp_pool@.len() == before.len(),
                comp_pool@ =~= padded(before, comp_pool@.len() as int),
            decreases entity_id + 2 - comp_pool@.len(),
        {
            push_none(comp_pool);
        }
        comp_pool[entity_id as usize] = Some(component);
        proof {
            assert(self.pools().len() == registered.len());
            assert(comp_pool@.len() >= entity_id + 2);
            assert(self.pools()[comp_id as int] =~= padded(before, entity_id + 2).update(
                entity_id as int,
                Some(component),
            ));
            assert forall|i: int|
                0 <= i < old(self).pools().len() && i != comp_id implies #[trigger] self.pools()[i]
                == old(self).pools()[i] by {
                assert(self.pools()[i] == registered[i]);
            }
            assert(self.registry()[type_id] == comp_id);
        }
    }
}

} // verus!
