use vstd::prelude::*;
use crate::archetype::{Archetype, ArchetypeId, ComponentTypeId};
use crate::archetype_view::ArchetypeView;
use crate::queries::error::FetchError;
use crate::world::World;

verus! {

/// One parameter of a query: a component type and the access asked for.
#[derive(Debug, PartialEq, Eq, Clone, Copy, Structural)]
pub enum QueryParameter {
    /// Shared read of the columns of a component type.
    Read(ComponentTypeId),
    /// Exclusive write of the columns of a component type.
    Write(ComponentTypeId),
}

impl QueryParameter {
    pub open spec fn component_type(self) -> ComponentTypeId {
        match self {
            QueryParameter::Read(type_id) => type_id,
            QueryParameter::Write(type_id) => type_id,
        }
    }

    pub open spec fn exclusive(self) -> bool {
        self is Write
    }

    /// Two parameters may not be served together: they name one component
    /// type, and one of them writes.
    pub open spec fn conflicts_with(self, other: Self) -> bool {
        self.component_type() == other.component_type() && (self.exclusive() || other.exclusive())
    }

    pub fn type_id(&self) -> (type_id: ComponentTypeId)
        ensures
            type_id == self.component_type(),
    {
        match self {
            QueryParameter::Read(type_id) => *type_id,
            QueryParameter::Write(type_id) => *type_id,
        }
    }

    pub fn is_exclusive(&self) -> (b: bool)
        ensures
            b == self.exclusive(),
    {
        match self {
            QueryParameter::Read(_) => false,
            QueryParameter::Write(_) => true,
        }
    }

    /// Whether the archetype has a column of the parameter's component type.
    pub fn matches_archetype<V>(&self, archetype: &Archetype<V>) -> (b: bool)
        requires
            archetype@.sorted(),
        ensures
            b == archetype@.has_type(self.component_type()),
    {
        archetype.has_component(self.type_id())
    }
}

/// What can be asked for in one query: parameters, in an order.
pub trait QueryParameters {
    /// The parameters, in their order.
    spec fn parameters(&self) -> Seq<QueryParameter>;

    /// The parameters as a list.
    fn list(&self) -> (list: Vec<QueryParameter>)
        ensures
            list@ == self.parameters(),
    ;
}

impl QueryParameters for Vec<QueryParameter> {
    open spec fn parameters(&self) -> Seq<QueryParameter> {
        self@
    }

    fn list(&self) -> (list: Vec<QueryParameter>) {
        let mut list: Vec<QueryParameter> = Vec::new();
        let mut k: usize = 0;
        while k < self.len()
            invariant
                k <= self.len(),
                list@ == self@.take(k as int),
            decreases self.len() - k,
        {
            list.push(self[k]);
            proof {
                assert(list@ =~= self@.take(k + 1));
            }
            k = k + 1;
        }
        proof {
            assert(self@.take(k as int) =~= self@);
        }
        list
    }
}

impl QueryParameters for (QueryParameter,) {
    open spec fn parameters(&self) -> Seq<QueryParameter> {
        seq![self.0]
    }

    fn list(&self) -> (list: Vec<QueryParameter>) {
        let mut list: Vec<QueryParameter> = Vec::new();
        list.push(self.0);
        proof {
            assert(list@ =~= seq![self.0]);
        }
        list
    }
}

impl QueryParameters for (QueryParameter, QueryParameter) {
    open spec fn parameters(&self) -> Seq<QueryParameter> {
        seq![self.0, self.1]
    }

    fn list(&self) -> (list: Vec<QueryParameter>) {
        let mut list: Vec<QueryParameter> = Vec::new();
        list.push(self.0);
        list.push(self.1);
        proof {
            assert(list@ =~= seq![self.0, self.1]);
        }
        list
    }
}

impl QueryParameters for (QueryParameter, QueryParameter, QueryParameter) {
    open spec fn parameters(&self) -> Seq<QueryParameter> {
        seq![self.0, self.1, self.2]
    }

    fn list(&self) -> (list: Vec<QueryParameter>) {
        let mut list: Vec<QueryParameter> = Vec::new();
        list.push(self.0);
        list.push(self.1);
        list.push(self.2);
        proof {
            assert(list@ =~= seq![self.0, self.1, self.2]);
        }
        list
    }
}

impl QueryParameters for (QueryParameter, QueryParameter, QueryParameter, QueryParameter) {
    open spec fn parameters(&self) -> Seq<QueryParameter> {
        seq![self.0, self.1, self.2, self.3]
    }

    fn list(&self) -> (list: Vec<QueryParameter>) {
        let mut list: Vec<QueryParameter> = Vec::new();
        list.push(self.0);
        list.push(self.1);
        list.push(self.2);
        list.push(self.3);
        proof {
            assert(list@ =~= seq![self.0, self.1, self.2, self.3]);
        }
        list
    }
}

/// Some two of the parameters conflict.
pub open spec fn conflicting(parameters: Seq<QueryParameter>) -> bool {
    exists|i: int, j: int|
        0 <= i < j < parameters.len() && (#[trigger] parameters[i]).conflicts_with(
            #[trigger] parameters[j],
        )
}

/// Some parameter asks for exclusive access.
pub open spec fn asks_to_write(parameters: Seq<QueryParameter>) -> bool {
    exists|k: int| 0 <= k < parameters.len() && (#[trigger] parameters[k]).exclusive()
}

/// The archetype has a column for every parameter.
pub open spec fn matches_parameters<V>(archetype: ArchetypeView<V>, parameters: Seq<QueryParameter>)
    -> bool {
    forall|k: int|
        0 <= k < parameters.len()
            ==> archetype.has_type((#[trigger] parameters[k]).component_type())
}

/// Whether some two of the parameters conflict.
pub fn has_conflict(parameters: &Vec<QueryParameter>) -> (b: bool)
    ensures
        b == conflicting(parameters@),
{
    let mut j: usize = 0;
    while j < parameters.len()
        invariant
            j <= parameters.len(),
            forall|a: int, b: int|
                0 <= a < b < j ==> !(#[trigger] parameters[a]).conflicts_with(
                    #[trigger] parameters[b],
                ),
        decreases parameters.len() - j,
    {
        let mut i: usize = 0;
        while i < j
            invariant
                i <= j < parameters.len(),
                forall|a: int|
                    0 <= a < i ==> !(#[trigger] parameters[a]).conflicts_with(
                        parameters[j as int],
                    ),
            decreases j - i,
        {
            let first = &parameters[i];
            let second = &parameters[j];
            if first.type_id() == second.type_id() && (first.is_exclusive()
                || second.is_exclusive()) {
                assert(parameters[i as int].conflicts_with(parameters[j as int]));
                return true;
            }
            i = i + 1;
        }
        j = j + 1;
    }
    false
}

/// Whether some parameter asks for exclusive access.
pub fn has_writer(parameters: &Vec<QueryParameter>) -> (b: bool)
    ensures
        b == asks_to_write(parameters@),
{
    let mut k: usize = 0;
    while k < parameters.len()
        invariant
            k <= parameters.len(),
            forall|j: int| 0 <= j < k ==> !(#[trigger] parameters[j]).exclusive(),
        decreases parameters.len() - k,
    {
        if parameters[k].is_exclusive() {
            return true;
        }
        k = k + 1;
    }
    false
}

/// Whether the archetype has a column for every parameter.
pub fn matches_all<V>(archetype: &Archetype<V>, parameters: &Vec<QueryParameter>) -> (b: bool)
    requires
        archetype@.sorted(),
    ensures
        b == matches_parameters(archetype@, parameters@),
{
    let mut k: usize = 0;
    while k < parameters.len()
        invariant
            k <= parameters.len(),
            archetype@.sorted(),
            forall|j: int|
                0 <= j < k ==> archetype@.has_type((#[trigger] parameters[j]).component_type()),
        decreases parameters.len() - k,
    {
        if !parameters[k].matches_archetype(archetype) {
            return false;
        }
        k = k + 1;
    }
    true
}

/// Fetches columns for reading.
pub struct QueryParameterFetchRead {}

impl QueryParameterFetchRead {
    /// The column of `type_id` in the archetype `archetype_id`, to read.
    pub fn fetch<'world_borrow, V>(
        world: &'world_borrow World<V>,
        archetype_id: ArchetypeId,
        type_id: ComponentTypeId,
    ) -> (result: Result<&'world_borrow Vec<V>, FetchError>)
        requires
            world.wf(),
        ensures
            (archetype_id as int) >= world.archetypes().len() ==> result matches Err(
                FetchError::ArchetypeMissing,
            ),
            (archetype_id as int) < world.archetypes().len() && !world.has_column(
                archetype_id,
                type_id,
            ) ==> result matches Err(FetchError::ComponentMissing),
            world.has_column(archetype_id, type_id) ==> result is Ok,
            result matches Ok(column) ==> column@ == world.column(archetype_id, type_id),
    {
        if archetype_id >= world.next_archetype_id() {
            return Err(FetchError::ArchetypeMissing);
        }
        assert(world.layout().archetypes[archetype_id as int].wf());
        match world.get_archetype(archetype_id).get_entity_component(type_id) {
            Ok(column) => Ok(column),
            Err(_) => Err(FetchError::ComponentMissing),
        }
    }
}

/// Fetches columns for writing.
pub struct QueryParameterFetchWrite {}

impl QueryParameterFetchWrite {
    /// The column of `type_id` in the archetype `archetype_id`, to write.
    /// The world is what the column is left as.
    pub fn fetch<'world_borrow, V>(
        world: &'world_borrow mut World<V>,
        archetype_id: ArchetypeId,
        type_id: ComponentTypeId,
    ) -> (result: Result<&'world_borrow mut [V], FetchError>)
        requires
            old(world).wf(),
        ensures
            (archetype_id as int) >= old(world).archetypes().len() ==> result matches Err(
                FetchError::ArchetypeMissing,
            ),
            (archetype_id as int) < old(world).archetypes().len() && !old(world).has_column(
                archetype_id,
                type_id,
            ) ==> result matches Err(FetchError::ComponentMissing),
            old(world).has_column(archetype_id, type_id) ==> result is Ok,
            result matches Ok(column) ==> {
                &&& column@ == old(world).column(archetype_id, type_id)
                &&& final(world).archetypes() == old(world).archetypes().update(
                    archetype_id as int,
                    old(world).archetypes()[archetype_id as int].with_column(
                        type_id,
                        final(column)@,
                    ),
                )
            },
            result is Err ==> final(world).archetypes() == old(world).archetypes(),
            final(world).entity_table() == old(world).entity_table(),
            final(world).bundle_cache() == old(world).bundle_cache(),
    {
        if archetype_id >= world.next_archetype_id() {
            return Err(FetchError::ArchetypeMissing);
        }
        assert(world.layout().archetypes[archetype_id as int].wf());
        if !world.get_archetype(archetype_id).has_component(type_id) {
            return Err(FetchError::ComponentMissing);
        }
        Ok(world.get_archetype_mut(archetype_id).get_component_set_mut(type_id).as_mut_slice())
    }
}

} // verus!
