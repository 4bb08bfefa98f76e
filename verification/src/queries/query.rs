use vstd::prelude::*;
use crate::archetype::{ArchetypeId, ComponentTypeId};
use crate::archetype_view::ArchetypeView;
use crate::entities::EntityId;
use crate::queries::error::FetchError;
use crate::queries::query_parameters::{
    asks_to_write, conflicting, has_conflict, has_writer, matches_all, matches_parameters,
    QueryParameter, QueryParameterFetchWrite, QueryParameters,
};
use crate::world::World;

verus! {

/// `ids` lists, in ascending order, exactly the archetypes that have a
/// column for every parameter.
pub open spec fn selects<V>(
    ids: Seq<ArchetypeId>,
    archetypes: Seq<ArchetypeView<V>>,
    parameters: Seq<QueryParameter>,
) -> bool {
    &&& forall|k: int|
        0 <= k < ids.len()
            ==> ((#[trigger] ids[k]) as int) < archetypes.len() && matches_parameters(
            archetypes[ids[k] as int],
            parameters,
        )
    &&& forall|j: int, k: int| 0 <= j < k < ids.len() ==> ids[j] < ids[k]
    &&& forall|a: int|
        0 <= a < archetypes.len() && matches_parameters(#[trigger] archetypes[a], parameters)
            ==> ids.contains(a as ArchetypeId)
}

/// The archetypes of the world that have a column for every parameter, in
/// ascending order.
pub fn matching_archetypes<V>(world: &World<V>, parameters: &Vec<QueryParameter>) -> (ids: Vec<
    ArchetypeId,
>)
    requires
        world.wf(),
    ensures
        selects(ids@, world.archetypes(), parameters@),
{
    let mut archetypes: Vec<ArchetypeId> = Vec::new();
    let count: usize = world.next_archetype_id();
    let mut a: usize = 0;
    while a < count
        invariant
            a <= count,
            count == world.archetypes().len(),
            world.wf(),
            forall|k: int|
                0 <= k < archetypes.len()
                    ==> ((#[trigger] archetypes[k]) as int) < a && matches_parameters(
                    world.archetypes()[archetypes[k] as int],
                    parameters@,
                ),
            forall|j: int, k: int| 0 <= j < k < archetypes.len() ==> archetypes[j] < archetypes[k],
            forall|b: int|
                0 <= b < a && matches_parameters(#[trigger] world.archetypes()[b], parameters@)
                    ==> archetypes@.contains(b as ArchetypeId),
        decreases count - a,
    {
        assert(world.layout().archetypes[a as int].wf());
        let ghost before = archetypes@;
        if matches_all(world.get_archetype(a), parameters) {
            archetypes.push(a);
            proof {
                assert(archetypes@[before.len() as int] == a);
                assert forall|b: int|
                    0 <= b < a + 1 && matches_parameters(
                        #[trigger] world.archetypes()[b],
                        parameters@,
                    ) implies archetypes@.contains(b as ArchetypeId) by {
                    if b < a {
                        let k = choose|k: int| 0 <= k < before.len()
                            && before[k] == b as ArchetypeId;
                        assert(archetypes@[k] == b as ArchetypeId);
                    }
                }
            }
        }
        a = a + 1;
    }
    archetypes
}

/// Archetypes that keep their component types keep matching, or not.
pub proof fn lemma_selects_kept<V>(
    ids: Seq<ArchetypeId>,
    before: Seq<ArchetypeView<V>>,
    after: Seq<ArchetypeView<V>>,
    parameters: Seq<QueryParameter>,
)
    requires
        selects(ids, before, parameters),
        before.len() == after.len(),
        forall|a: int|
            0 <= a < before.len() ==> (#[trigger] before[a]).type_ids() == after[a].type_ids(),
    ensures
        selects(ids, after, parameters),
{
    assert forall|a: int| 0 <= a < before.len() implies matches_parameters(before[a], parameters)
        == matches_parameters(#[trigger] after[a], parameters) by {
        assert(before[a].type_ids() == after[a].type_ids());
        assert forall|k: int| 0 <= k < parameters.len() implies before[a].has_type(
            (#[trigger] parameters[k]).component_type(),
        ) == after[a].has_type(parameters[k].component_type()) by {}
    }
    assert forall|k: int| 0 <= k < ids.len() implies ((#[trigger] ids[k]) as int) < after.len()
        && matches_parameters(after[ids[k] as int], parameters) by {
        assert(matches_parameters(before[ids[k] as int], parameters));
    }
    assert forall|a: int|
        0 <= a < after.len() && matches_parameters(
            #[trigger] after[a],
            parameters,
        ) implies ids.contains(a as ArchetypeId) by {
        assert(matches_parameters(before[a], parameters));
    }
}

/// No archetype matches where the list of the matching ones is empty.
pub proof fn lemma_none_selected<V>(
    ids: Seq<ArchetypeId>,
    archetypes: Seq<ArchetypeView<V>>,
    parameters: Seq<QueryParameter>,
)
    requires
        selects(ids, archetypes, parameters),
        ids.len() == 0,
    ensures
        forall|a: int|
            0 <= a < archetypes.len() ==> !matches_parameters(#[trigger] archetypes[a], parameters),
{
    assert forall|a: int| 0 <= a < archetypes.len() implies !matches_parameters(
        #[trigger] archetypes[a],
        parameters,
    ) by {
        if matches_parameters(archetypes[a], parameters) {
            assert(ids.contains(a as ArchetypeId));
        }
    }
}

/// What a query hands out for one matching archetype: the entities of its
/// rows and, for each parameter, the column that serves it.
pub struct QueryFetch<'world_borrow, V> {
    pub archetype_id: ArchetypeId,
    pub entities: &'world_borrow Vec<EntityId>,
    pub columns: Vec<&'world_borrow Vec<V>>,
}

/// The answer to a shared query: the archetypes that have all requested
/// component types, and their columns to read for as long as the answer
/// lives. Every parameter is served by a shared view of its column; any
/// number of such answers may live side by side, and the world cannot be
/// changed while one does.
pub struct Query<'world_borrow, V> {
    world: &'world_borrow World<V>,
    parameters: Vec<QueryParameter>,
    archetypes: Vec<ArchetypeId>,
}

impl<'world_borrow, V> Query<'world_borrow, V> {
    /// The world that was asked.
    pub closed spec fn world(&self) -> World<V> {
        *self.world
    }

    /// What was asked for.
    pub closed spec fn parameters(&self) -> Seq<QueryParameter> {
        self.parameters@
    }

    /// The matching archetypes, in ascending order.
    pub closed spec fn archetype_ids(&self) -> Seq<ArchetypeId> {
        self.archetypes@
    }

    /// The world is well formed, every parameter asks to read, and the
    /// archetypes listed are the ones that match.
    pub open spec fn wf(&self) -> bool {
        &&& self.world().wf()
        &&& !asks_to_write(self.parameters())
        &&& selects(self.archetype_ids(), self.world().archetypes(), self.parameters())
    }

    /// Number of matching archetypes.
    pub fn len(&self) -> (n: usize)
        ensures
            n == self.archetype_ids().len(),
    {
        self.archetypes.len()
    }

    /// Id of the matching archetype number `chunk`.
    pub fn archetype_id(&self, chunk: usize) -> (id: ArchetypeId)
        requires
            chunk < self.archetype_ids().len(),
        ensures
            id == self.archetype_ids()[chunk as int],
    {
        self.archetypes[chunk]
    }

    /// The entities and the columns of the matching archetype number
    /// `chunk`: one column for each parameter, in the order of the
    /// parameters.
    pub fn fetch(&self, chunk: usize) -> (fetched: QueryFetch<'world_borrow, V>)
        requires
            self.wf(),
            chunk < self.archetype_ids().len(),
        ensures
            fetched.archetype_id == self.archetype_ids()[chunk as int],
            fetched.entities@ == self.world().archetypes()[fetched.archetype_id as int].entities,
            fetched.columns@.len() == self.parameters().len(),
            forall|k: int|
                0 <= k < self.parameters().len() ==> (#[trigger] fetched.columns@[k])@
                    == self.world().archetypes()[fetched.archetype_id as int].column(
                    self.parameters()[k].component_type(),
                ),
    {
        let ghost found = self.world().archetypes()[self.archetype_ids()[chunk as int] as int];
        let mut columns: Vec<&'world_borrow Vec<V>> = Vec::new();
        let mut k: usize = 0;
        while k < self.parameters.len()
            invariant
                self.wf(),
                chunk < self.archetype_ids().len(),
                found == self.world().archetypes()[self.archetype_ids()[chunk as int] as int],
                k <= self.parameters().len(),
                columns@.len() == k,
                forall|j: int|
                    0 <= j < k ==> (#[trigger] columns@[j])@ == found.column(
                        self.parameters()[j].component_type(),
                    ),
            decreases self.parameters.len() - k,
        {
            columns.push(self.column(chunk, k));
            k = k + 1;
        }
        QueryFetch { archetype_id: self.archetypes[chunk], entities: self.entities(chunk), columns }
    }

    /// The entities of the matching archetype number `chunk`, by row.
    pub fn entities(&self, chunk: usize) -> (entities: &'world_borrow Vec<EntityId>)
        requires
            self.wf(),
            chunk < self.archetype_ids().len(),
        ensures
            entities@
                == self.world().archetypes()[self.archetype_ids()[chunk as int] as int].entities,
    {
        let world: &'world_borrow World<V> = self.world;
        &world.get_archetype(self.archetypes[chunk]).entities
    }

    /// The column that serves parameter number `parameter` in the matching
    /// archetype number `chunk`, by row.
    pub fn column(&self, chunk: usize, parameter: usize) -> (column: &'world_borrow Vec<V>)
        requires
            self.wf(),
            chunk < self.archetype_ids().len(),
            parameter < self.parameters().len(),
        ensures
            column@ == self.world().archetypes()[self.archetype_ids()[chunk as int] as int].column(
                self.parameters()[parameter as int].component_type(),
            ),
    {
        let world: &'world_borrow World<V> = self.world;
        let id: ArchetypeId = self.archetypes[chunk];
        let type_id: ComponentTypeId = self.parameters[parameter].type_id();
        proof {
            assert(world.layout().archetypes[id as int].wf());
        }
        let archetype = world.get_archetype(id);
        let at: usize = archetype.find_column(type_id).unwrap();
        proof {
            archetype@.lemma_has_type(type_id);
        }
        &archetype.components[at].data
    }
}

/// Answers a shared query: every archetype of the world that has all
/// requested component types, with its columns to read. `None` where no
/// archetype has them all. A parameter that asks to write is refused: no
/// exclusive access is to be had from a world that is only borrowed.
pub fn query<'world_borrow, V, Q: QueryParameters>(
    world: &'world_borrow World<V>,
    parameters: &Q,
) -> (result: Result<Option<Query<'world_borrow, V>>, FetchError>)
    requires
        world.wf(),
    ensures
        asks_to_write(parameters.parameters()) ==> result matches Err(
            FetchError::ConflictingAccess,
        ),
        !asks_to_write(parameters.parameters()) ==> result is Ok,
        result matches Ok(Some(found)) ==> {
            &&& found.wf()
            &&& found.world() == *world
            &&& found.parameters() == parameters.parameters()
            &&& found.archetype_ids().len() > 0
        },
        result matches Ok(None) ==> forall|a: int|
            0 <= a < world.archetypes().len() ==> !matches_parameters(
                #[trigger] world.archetypes()[a],
                parameters.parameters(),
            ),
{
    let asked = parameters.list();
    if has_writer(&asked) {
        return Err(FetchError::ConflictingAccess);
    }
    let archetypes = matching_archetypes(world, &asked);
    if archetypes.len() == 0 {
        proof {
            lemma_none_selected(archetypes@, world.archetypes(), asked@);
        }
        return Ok(None);
    }
    Ok(Some(Query { world, parameters: asked, archetypes }))
}

/// What an exclusive query asked for and which archetypes match it.
pub struct QueryMatches {
    parameters: Vec<QueryParameter>,
    archetypes: Vec<ArchetypeId>,
}

impl QueryMatches {
    /// What was asked for.
    pub closed spec fn parameters(&self) -> Seq<QueryParameter> {
        self.parameters@
    }

    /// The matching archetypes, in ascending order.
    pub closed spec fn archetype_ids(&self) -> Seq<ArchetypeId> {
        self.archetypes@
    }

    /// Number of matching archetypes.
    pub fn len(&self) -> (n: usize)
        ensures
            n == self.archetype_ids().len(),
    {
        self.archetypes.len()
    }

    /// Id of the matching archetype number `chunk`.
    pub fn archetype_id(&self, chunk: usize) -> (id: ArchetypeId)
        requires
            chunk < self.archetype_ids().len(),
        ensures
            id == self.archetype_ids()[chunk as int],
    {
        self.archetypes[chunk]
    }

    /// The parameter number `parameter`.
    pub fn parameter(&self, parameter: usize) -> (asked: QueryParameter)
        requires
            parameter < self.parameters().len(),
        ensures
            asked == self.parameters()[parameter as int],
    {
        self.parameters[parameter]
    }
}

/// The answer to an exclusive query: the archetypes that have all
/// requested component types, and the world itself, held exclusively for
/// as long as the answer lives. A parameter that asks to read is served by
/// a shared view of its column, one that asks to write by an exclusive
/// view. While the answer lives no other query can be made of the world.
pub struct QueryMut<'world_borrow, V> {
    pub world: &'world_borrow mut World<V>,
    pub matches: QueryMatches,
}

impl<'world_borrow, V> QueryMut<'world_borrow, V> {
    /// The world, as it is now.
    pub open spec fn held(&self) -> World<V> {
        *self.world
    }

    /// The world is well formed, no two parameters conflict, and the
    /// archetypes listed are the ones that match.
    pub open spec fn wf(&self) -> bool {
        &&& self.held().wf()
        &&& !conflicting(self.matches.parameters())
        &&& selects(
            self.matches.archetype_ids(),
            self.held().archetypes(),
            self.matches.parameters(),
        )
    }

    /// The archetype that is number `chunk` among the matching ones.
    pub open spec fn matched(&self, chunk: int) -> ArchetypeId {
        self.matches.archetype_ids()[chunk]
    }

    /// The component type of the parameter number `parameter`.
    pub open spec fn asked_type(&self, parameter: int) -> ComponentTypeId {
        self.matches.parameters()[parameter].component_type()
    }

    /// Number of matching archetypes.
    pub fn len(&self) -> (n: usize)
        ensures
            n == self.matches.archetype_ids().len(),
    {
        self.matches.len()
    }

    /// Id of the matching archetype number `chunk`.
    pub fn archetype_id(&self, chunk: usize) -> (id: ArchetypeId)
        requires
            chunk < self.matches.archetype_ids().len(),
        ensures
            id == self.matched(chunk as int),
    {
        self.matches.archetype_id(chunk)
    }

    /// The entities of the matching archetype number `chunk`, by row.
    pub fn entities(&self, chunk: usize) -> (entities: &Vec<EntityId>)
        requires
            self.wf(),
            chunk < self.matches.archetype_ids().len(),
        ensures
            entities@ == self.held().archetypes()[self.matched(chunk as int) as int].entities,
    {
        &self.world.get_archetype(self.matches.archetype_id(chunk)).entities
    }

    /// The column that serves parameter number `parameter` in the matching
    /// archetype number `chunk`, to read. Every parameter may be read.
    pub fn column(&self, chunk: usize, parameter: usize) -> (column: &Vec<V>)
        requires
            self.wf(),
            chunk < self.matches.archetype_ids().len(),
            parameter < self.matches.parameters().len(),
        ensures
            column@ == self.held().column(
                self.matched(chunk as int),
                self.asked_type(parameter as int),
            ),
    {
        let id: ArchetypeId = self.matches.archetype_id(chunk);
        let type_id: ComponentTypeId = self.matches.parameter(parameter).type_id();
        proof {
            assert(self.world.layout().archetypes[id as int].wf());
        }
        let archetype = self.world.get_archetype(id);
        let at: usize = archetype.find_column(type_id).unwrap();
        proof {
            archetype@.lemma_has_type(type_id);
        }
        &archetype.components[at].data
    }

    /// The column that serves parameter number `parameter` in the matching
    /// archetype number `chunk`, to write. Only a parameter that asked to
    /// write is given it. The world is what the column is left as; it is
    /// well formed where the column keeps its length.
    pub fn column_mut(&mut self, chunk: usize, parameter: usize) -> (result: Result<
        &mut [V],
        FetchError,
    >)
        requires
            old(self).wf(),
            chunk < old(self).matches.archetype_ids().len(),
            parameter < old(self).matches.parameters().len(),
        ensures
            *final(final(self).world) == *final(old(self).world),
            final(self).matches == old(self).matches,
            final(self).held().entity_table() == old(self).held().entity_table(),
            final(self).held().bundle_cache() == old(self).held().bundle_cache(),
            !old(self).matches.parameters()[parameter as int].exclusive() ==> {
                &&& result matches Err(FetchError::ConflictingAccess)
                &&& final(self).held().archetypes() == old(self).held().archetypes()
            },
            old(self).matches.parameters()[parameter as int].exclusive() ==> result is Ok,
            result matches Ok(column) ==> {
                let a = old(self).matched(chunk as int);
                let type_id = old(self).asked_type(parameter as int);
                &&& column@ == old(self).held().column(a, type_id)
                &&& final(self).held().archetypes() == old(self).held().archetypes().update(
                    a as int,
                    old(self).held().archetypes()[a as int].with_column(type_id, final(column)@),
                )
                &&& final(column)@.len() == column@.len() ==> final(self).wf()
            },
    {
        let asked = self.matches.parameter(parameter);
        if !asked.is_exclusive() {
            return Err(FetchError::ConflictingAccess);
        }
        let id: ArchetypeId = self.matches.archetype_id(chunk);
        let type_id: ComponentTypeId = asked.type_id();
        proof {
            let start = old(self).held();
            let found = start.archetypes()[id as int];
            let ids = old(self).matches.archetype_ids();
            let parameters = old(self).matches.parameters();
            assert(start.layout().archetypes[id as int].wf());
            assert(found.has_type(parameters[parameter as int].component_type()));
            found.lemma_has_type(type_id);
            assert(found.column(type_id).len() == found.entities.len());
            assert forall|after: World<V>, values: Seq<V>|
                values.len() == found.entities.len() && after.entity_table()
                    == start.entity_table() && after.bundle_cache() == start.bundle_cache()
                    && #[trigger] after.archetypes() == start.archetypes().update(
                    id as int,
                    #[trigger] found.with_column(type_id, values),
                ) implies after.wf() && selects(ids, after.archetypes(), parameters) by {
                start.lemma_written(&after, id, type_id, values);
                lemma_selects_kept(ids, start.archetypes(), after.archetypes(), parameters);
            }
        }
        QueryParameterFetchWrite::fetch(self.world, id, type_id)
    }
}

/// Answers an exclusive query: every archetype of the world that has all
/// requested component types, with the world held exclusively. `None`
/// where no archetype has them all. Parameters that conflict are refused.
pub fn query_mut<'world_borrow, V, Q: QueryParameters>(
    world: &'world_borrow mut World<V>,
    parameters: &Q,
) -> (result: Result<Option<QueryMut<'world_borrow, V>>, FetchError>)
    requires
        old(world).wf(),
    ensures
        conflicting(parameters.parameters()) ==> result matches Err(FetchError::ConflictingAccess),
        !conflicting(parameters.parameters()) ==> result is Ok,
        result matches Ok(Some(found)) ==> {
            &&& found.wf()
            &&& found.held() == *old(world)
            &&& *final(found.world) == *final(world)
            &&& found.matches.parameters() == parameters.parameters()
            &&& found.matches.archetype_ids().len() > 0
        },
        result matches Ok(None) ==> forall|a: int|
            0 <= a < old(world).archetypes().len() ==> !matches_parameters(
                #[trigger] old(world).archetypes()[a],
                parameters.parameters(),
            ),
        !(result matches Ok(Some(_))) ==> *final(world) == *old(world),
{
    let asked = parameters.list();
    if has_conflict(&asked) {
        return Err(FetchError::ConflictingAccess);
    }
    let archetypes = matching_archetypes(world, &asked);
    if archetypes.len() == 0 {
        proof {
            lemma_none_selected(archetypes@, world.archetypes(), asked@);
        }
        return Ok(None);
    }
    Ok(Some(QueryMut { world, matches: QueryMatches { parameters: asked, archetypes } }))
}

} // verus!
