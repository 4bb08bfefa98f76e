use vstd::prelude::*;
use crate::archetype::ComponentTypeId;
use crate::archetype_view::ArchetypeView;
use crate::entities::{Entity, EntityEntry, EntityId, EntityLocation};

verus! {

/// The storage of a world as plain data: the entity table and the
/// archetypes. The invariant that ties the two together is stated here, and
/// so is what each step of a row move does to it.
#[verifier::ext_equal]
pub struct Layout<V> {
    pub entries: Seq<EntityEntry>,
    pub archetypes: Seq<ArchetypeView<V>>,
}

impl<V> Layout<V> {
    /// Slot `i` exists and is live.
    pub open spec fn slot_live(self, i: int) -> bool {
        0 <= i < self.entries.len() && self.entries[i].is_live
    }

    /// The handle names a live slot in its current generation.
    pub open spec fn live(self, entity: Entity) -> bool {
        self.slot_live(entity.index as int) && self.entries[entity.index as int].generation
            == entity.generation
    }

    /// The handle names a slot whose generation has moved past it.
    pub open spec fn stale(self, entity: Entity) -> bool {
        (entity.index as int) < self.entries.len() && entity.generation
            < self.entries[entity.index as int].generation
    }

    /// `(a, r)` is a row of archetype `a`.
    pub open spec fn in_rows(self, a: int, r: int) -> bool {
        0 <= a < self.archetypes.len() && 0 <= r < self.archetypes[a].entities.len()
    }

    /// The location recorded for slot `i` is a row that belongs to `i`.
    pub open spec fn located(self, i: int) -> bool {
        let a = self.entries[i].location.archetype_id as int;
        let r = self.entries[i].location.index_in_archetype as int;
        self.in_rows(a, r) && self.archetypes[a].entities[r] == i
    }

    /// The entity of row `(a, r)` is live and its recorded location is that
    /// row.
    pub open spec fn row_owned(self, a: int, r: int) -> bool {
        let i = self.archetypes[a].entities[r] as int;
        &&& self.slot_live(i)
        &&& self.entries[i].location.archetype_id == a
        &&& self.entries[i].location.index_in_archetype == r
    }

    /// Every archetype is well formed.
    pub open spec fn archetypes_wf(self) -> bool {
        forall|a: int| 0 <= a < self.archetypes.len() ==> (#[trigger] self.archetypes[a]).wf()
    }

    /// Every live entity has a row, and every row has its live entity.
    pub open spec fn consistent(self) -> bool {
        &&& self.entries.len() <= u32::MAX
        &&& self.archetypes_wf()
        &&& forall|i: int| #[trigger] self.slot_live(i) ==> self.located(i)
        &&& forall|a: int, r: int| #[trigger] self.in_rows(a, r) ==> self.row_owned(a, r)
    }

    /// As `consistent`, but for the live slot `x`, which has no row.
    pub open spec fn pending(self, x: int) -> bool {
        &&& self.entries.len() <= u32::MAX
        &&& self.archetypes_wf()
        &&& self.slot_live(x)
        &&& forall|i: int| #[trigger] self.slot_live(i) && i != x ==> self.located(i)
        &&& forall|a: int, r: int| #[trigger]
            self.in_rows(a, r) ==> self.row_owned(a, r) && self.archetypes[a].entities[r] != x
    }

    /// The components of the entity in slot `i`, by component type.
    pub open spec fn components(self, i: int) -> Map<ComponentTypeId, V> {
        let location = self.entries[i].location;
        self.archetypes[location.archetype_id as int].row(location.index_in_archetype as int)
    }

    /// The live entities, each with its components.
    pub open spec fn view(self) -> Map<Entity, Map<ComponentTypeId, V>> {
        Map::new(
            |entity: Entity| self.live(entity),
            |entity: Entity| self.components(entity.index as int),
        )
    }

    /// The same slots are live, in the same generations, in both layouts.
    pub open spec fn same_handles(self, other: Self) -> bool {
        &&& self.entries.len() == other.entries.len()
        &&& forall|i: int|
            0 <= i < self.entries.len() ==> (#[trigger] self.entries[i]).is_live
                == other.entries[i].is_live && self.entries[i].generation
                == other.entries[i].generation
    }

    /// Both layouts have the same archetypes as far as component types go.
    pub open spec fn same_schemas(self, other: Self) -> bool {
        &&& self.archetypes.len() == other.archetypes.len()
        &&& forall|a: int|
            0 <= a < self.archetypes.len() ==> (#[trigger] self.archetypes[a]).type_ids()
                == other.archetypes[a].type_ids()
    }

    /// `other` has the archetypes of this layout and at most one more, and
    /// each one but `a` and `b` is what it is here.
    pub open spec fn same_archetypes_except(self, other: Self, a: int, b: int) -> bool {
        &&& self.archetypes.len() <= other.archetypes.len() <= self.archetypes.len() + 1
        &&& forall|i: int|
            0 <= i < self.archetypes.len() && i != a && i != b ==> #[trigger] other.archetypes[i]
                == self.archetypes[i]
    }

    /// In `other`, slot `x` has a new last row in the archetype at
    /// `location`, with `values` in it. Either the archetype is one of
    /// this layout, the row is added to its rows and `other` has no
    /// archetype more; or it is the one archetype that `other` has more,
    /// and the row is its only one.
    pub open spec fn row_added(
        self,
        other: Self,
        x: int,
        location: EntityLocation,
        values: Map<ComponentTypeId, V>,
    ) -> bool {
        let d = location.archetype_id as int;
        &&& 0 <= d < other.archetypes.len()
        &&& d < self.archetypes.len() ==> {
            &&& other.archetypes.len() == self.archetypes.len()
            &&& other.archetypes[d] == self.archetypes[d].with_row(x as EntityId, values)
            &&& location.index_in_archetype == self.archetypes[d].entities.len()
        }
        &&& d >= self.archetypes.len() ==> {
            &&& d == self.archetypes.len()
            &&& other.archetypes.len() == self.archetypes.len() + 1
            &&& other.archetypes[d].entities == seq![x as EntityId]
            &&& other.archetypes[d].row(0) == values
            &&& location.index_in_archetype == 0
        }
    }

    /// Every live slot but `x` has the same components in both layouts.
    pub open spec fn same_components_except(self, other: Self, x: int) -> bool {
        forall|i: int| #[trigger]
            self.slot_live(i) && i != x ==> other.components(i) == self.components(i)
    }

    /// The layout after the row of slot `x` has left its archetype: the last
    /// row of that archetype takes its place, and the entity of that row is
    /// told so. The entry of `x` itself stays as it is.
    pub open spec fn evict(self, x: int) -> Self {
        let location = self.entries[x].location;
        let a = location.archetype_id as int;
        let r = location.index_in_archetype as int;
        let last = self.archetypes[a].entities.len() - 1;
        let moved = self.archetypes[a].entities[last] as int;
        Layout {
            entries: if r == last {
                self.entries
            } else {
                self.entries.update(moved, self.entries[moved].with_location(location))
            },
            archetypes: self.archetypes.update(a, self.archetypes[a].without_row(r)),
        }
    }

    /// The layout after slot `x` has got a new last row at `location`, with
    /// `values` in it.
    pub open spec fn place(
        self,
        x: int,
        location: EntityLocation,
        values: Map<ComponentTypeId, V>,
    ) -> Self {
        let d = location.archetype_id as int;
        Layout {
            entries: self.entries.update(x, self.entries[x].with_location(location)),
            archetypes: self.archetypes.update(
                d,
                self.archetypes[d].with_row(x as EntityId, values),
            ),
        }
    }

    /// The layout with one more archetype at the end.
    pub open spec fn with_archetype(self, archetype: ArchetypeView<V>) -> Self {
        Layout { entries: self.entries, archetypes: self.archetypes.push(archetype) }
    }

    /// The layout with one value of the row of slot `x` overwritten.
    pub open spec fn overwrite(self, x: int, type_id: ComponentTypeId, value: V) -> Self {
        let location = self.entries[x].location;
        let a = location.archetype_id as int;
        let r = location.index_in_archetype as int;
        Layout {
            entries: self.entries,
            archetypes: self.archetypes.update(
                a,
                self.archetypes[a].with_column(
                    type_id,
                    self.archetypes[a].column(type_id).update(r, value),
                ),
            ),
        }
    }

    /// The layout with another entity table.
    pub open spec fn with_entries(self, entries: Seq<EntityEntry>) -> Self {
        Layout { entries, archetypes: self.archetypes }
    }

    /// `entries` differs from this layout's table at slot `x` at most, which
    /// may be a new last slot.
    pub open spec fn entries_agree_except(self, entries: Seq<EntityEntry>, x: int) -> bool {
        &&& 0 <= x < entries.len()
        &&& self.entries.len() <= entries.len() <= self.entries.len() + 1
        &&& entries.len() == self.entries.len() + 1 ==> x == self.entries.len()
        &&& forall|i: int|
            0 <= i < self.entries.len() && i != x ==> #[trigger] entries[i] == self.entries[i]
    }

    /// Apart from slot `x`, the same slots are live in both layouts, in
    /// the same generations.
    pub open spec fn same_handles_except(self, other: Self, x: int) -> bool {
        forall|i: int|
            i != x ==> (#[trigger] self.slot_live(i) <==> other.slot_live(i)) && (self.slot_live(i)
                ==> self.entries[i].generation == other.entries[i].generation)
    }

    /// No slot has gone, and no generation has gone back.
    pub open spec fn generations_kept(self, other: Self) -> bool {
        &&& self.entries.len() <= other.entries.len()
        &&& forall|i: int|
            0 <= i < self.entries.len() ==> (#[trigger] self.entries[i]).generation
                <= other.entries[i].generation
    }

    /// A new live entity adds itself to the view and changes nothing else.
    pub proof fn lemma_view_inserted(
        self,
        other: Self,
        entity: Entity,
        values: Map<ComponentTypeId, V>,
    )
        requires
            !self.slot_live(entity.index as int),
            other.live(entity),
            self.same_handles_except(other, entity.index as int),
            self.same_components_except(other, entity.index as int),
            other.components(entity.index as int) == values,
        ensures
            !self.view().contains_key(entity),
            other.view() == self.view().insert(entity, values),
    {
        let x = entity.index as int;
        assert forall|e: Entity| other.view().contains_key(e) <==> self.view().insert(
            entity,
            values,
        ).contains_key(e) by {
            if e.index as int != x {
                assert(self.slot_live(e.index as int) <==> other.slot_live(e.index as int));
            }
        }
        assert forall|e: Entity| other.view().contains_key(e) implies #[trigger] other.view()[e]
            == self.view().insert(entity, values)[e] by {
            if e.index as int != x {
                assert(self.slot_live(e.index as int) <==> other.slot_live(e.index as int));
            }
        }
        assert(other.view() =~= self.view().insert(entity, values));
    }

    /// New components for a live entity change its entry in the view and
    /// nothing else.
    pub proof fn lemma_view_updated(
        self,
        other: Self,
        entity: Entity,
        values: Map<ComponentTypeId, V>,
    )
        requires
            self.live(entity),
            self.same_handles(other),
            self.same_components_except(other, entity.index as int),
            other.components(entity.index as int) == values,
        ensures
            other.view() == self.view().insert(entity, values),
    {
        let x = entity.index as int;
        assert(self.entries[x].is_live == other.entries[x].is_live);
        assert forall|e: Entity| other.view().contains_key(e) <==> self.view().insert(
            entity,
            values,
        ).contains_key(e) by {
            if 0 <= (e.index as int) < self.entries.len() {
                assert(self.entries[e.index as int].is_live
                    == other.entries[e.index as int].is_live);
            }
        }
        assert forall|e: Entity| other.view().contains_key(e) implies #[trigger] other.view()[e]
            == self.view().insert(entity, values)[e] by {
            assert(self.entries[e.index as int].is_live == other.entries[e.index as int].is_live);
            if e.index as int != x {
                assert(self.slot_live(e.index as int));
            }
        }
        assert(other.view() =~= self.view().insert(entity, values));
    }

    /// An entity whose slot is no longer live leaves the view, and nothing
    /// else changes.
    pub proof fn lemma_view_removed(self, other: Self, entity: Entity)
        requires
            self.live(entity),
            !other.slot_live(entity.index as int),
            self.same_handles_except(other, entity.index as int),
            self.same_components_except(other, entity.index as int),
        ensures
            other.view() == self.view().remove(entity),
    {
        let x = entity.index as int;
        assert forall|e: Entity| other.view().contains_key(e) <==> self.view().remove(
            entity,
        ).contains_key(e) by {
            if e.index as int != x {
                assert(self.slot_live(e.index as int) <==> other.slot_live(e.index as int));
            }
        }
        assert forall|e: Entity| other.view().contains_key(e) implies #[trigger] other.view()[e]
            == self.view().remove(entity)[e] by {
            if e.index as int != x {
                assert(self.slot_live(e.index as int) <==> other.slot_live(e.index as int));
            }
        }
        assert(other.view() =~= self.view().remove(entity));
    }

    /// A stale handle is not live.
    pub proof fn lemma_stale_not_live(self, entity: Entity)
        requires
            self.stale(entity),
        ensures
            !self.live(entity),
            !self.view().contains_key(entity),
    {
    }

    /// A stale handle stays stale as long as no generation goes back.
    pub proof fn lemma_stale_kept(self, other: Self, entity: Entity)
        requires
            self.stale(entity),
            self.generations_kept(other),
        ensures
            other.stale(entity),
    {
        assert(self.entries[entity.index as int].generation
            <= other.entries[entity.index as int].generation);
    }

    /// A slot that comes to life has no row yet, and nothing else changed.
    pub proof fn lemma_revive(self, entries: Seq<EntityEntry>, x: int)
        requires
            self.consistent(),
            self.entries_agree_except(entries, x),
            !self.slot_live(x),
            entries[x].is_live,
            entries.len() <= u32::MAX,
        ensures
            self.with_entries(entries).pending(x),
            self.same_components_except(self.with_entries(entries), x),
    {
        let after = self.with_entries(entries);
        assert forall|i: int| #[trigger] after.slot_live(i) && i != x implies after.located(i) by {
            assert(self.slot_live(i));
        }
        assert forall|a: int, r: int| #[trigger] after.in_rows(a, r) implies after.row_owned(a, r)
            && after.archetypes[a].entities[r] != x by {
            assert(self.in_rows(a, r));
        }
    }

    /// Once the slot without a row is no longer live, the layout is
    /// consistent.
    pub proof fn lemma_retire(self, entries: Seq<EntityEntry>, x: int)
        requires
            self.pending(x),
            self.entries_agree_except(entries, x),
            entries.len() == self.entries.len(),
            !entries[x].is_live,
        ensures
            self.with_entries(entries).consistent(),
            self.same_components_except(self.with_entries(entries), x),
    {
        let after = self.with_entries(entries);
        assert forall|i: int| #[trigger] after.slot_live(i) implies after.located(i) by {
            assert(self.slot_live(i));
        }
        assert forall|a: int, r: int| #[trigger] after.in_rows(a, r) implies after.row_owned(
            a,
            r,
        ) by {
            assert(self.in_rows(a, r));
        }
    }

    /// A new archetype without entities changes nothing for the entities.
    pub proof fn lemma_with_archetype(self, archetype: ArchetypeView<V>)
        requires
            archetype.wf(),
            archetype.entities.len() == 0,
        ensures
            self.consistent() ==> self.with_archetype(archetype).consistent(),
            forall|x: int| self.pending(x) ==> self.with_archetype(archetype).pending(x),
            forall|i: int| #[trigger]
                self.located(i) ==> self.with_archetype(archetype).components(i)
                    == self.components(i),
    {
        let after = self.with_archetype(archetype);
        if self.consistent() {
            assert forall|i: int| #[trigger] after.slot_live(i) implies after.located(i) by {
                assert(self.slot_live(i));
            }
            assert forall|a: int, r: int| #[trigger] after.in_rows(a, r) implies after.row_owned(
                a,
                r,
            ) by {
                assert(self.in_rows(a, r));
            }
        }
        assert forall|x: int| self.pending(x) implies after.pending(x) by {
            assert forall|i: int| #[trigger] after.slot_live(i) && i != x implies after.located(
                i,
            ) by {
                assert(self.slot_live(i));
            }
            assert forall|a: int, r: int| #[trigger] after.in_rows(a, r) implies after.row_owned(
                a,
                r,
            ) && after.archetypes[a].entities[r] != x by {
                assert(self.in_rows(a, r));
            }
        }
    }

    /// Taking the row of a live slot out leaves that slot without a row and
    /// every other entity with the components it had.
    pub proof fn lemma_evict(self, x: int)
        requires
            self.consistent(),
            self.slot_live(x),
        ensures
            self.evict(x).pending(x),
            self.evict(x).entries[x] == self.entries[x],
            self.same_handles(self.evict(x)),
            self.same_schemas(self.evict(x)),
            self.same_components_except(self.evict(x), x),
    {
        let after = self.evict(x);
        let location = self.entries[x].location;
        let a = location.archetype_id as int;
        let r = location.index_in_archetype as int;
        let archetype = self.archetypes[a];
        let last = archetype.entities.len() - 1;
        let moved = archetype.entities[last] as int;
        assert(self.located(x));
        assert(archetype.wf());
        archetype.lemma_without_row(r);
        assert(self.in_rows(a, last));
        assert(self.row_owned(a, last));
        assert(self.in_rows(a, r));
        if r != last {
            assert(moved != x);
        }
        assert forall|b: int|
            0 <= b < after.archetypes.len() implies (#[trigger] after.archetypes[b]).wf()
            by {
            assert(self.archetypes[b].wf());
        }
        assert forall|i: int| #[trigger] after.slot_live(i) && i != x implies after.located(i)
            && after.components(i) == self.components(i) by {
            assert(self.slot_live(i));
            assert(self.located(i));
            let at = self.entries[i].location;
            assert(self.in_rows(at.archetype_id as int, at.index_in_archetype as int));
            if r != last && i == moved {
                assert(after.archetypes[a].row(r) == archetype.row(last));
            } else if at.archetype_id as int == a {
                let k = at.index_in_archetype as int;
                assert(k != r);
                assert(k != last);
                assert(after.archetypes[a].row(k) == archetype.row(k));
            }
        }
        assert forall|b: int, k: int| #[trigger] after.in_rows(b, k) implies after.row_owned(b, k)
            && after.archetypes[b].entities[k] != x by {
            if b == a {
                if k == r {
                    assert(self.in_rows(a, last));
                } else {
                    assert(self.in_rows(a, k));
                    assert(self.row_owned(a, k));
                }
            } else {
                assert(self.in_rows(b, k));
                assert(self.row_owned(b, k));
            }
        }
        assert forall|b: int|
            0 <= b < self.archetypes.len() implies (#[trigger] self.archetypes[b]).type_ids()
            == after.archetypes[b].type_ids() by {}
    }

    /// Giving the slot without a row a new last row makes the layout
    /// consistent; the slot has the values of that row, and every other
    /// entity the components it had.
    pub proof fn lemma_place(
        self,
        x: int,
        location: EntityLocation,
        values: Map<ComponentTypeId, V>,
    )
        requires
            self.pending(x),
            (location.archetype_id as int) < self.archetypes.len(),
            location.index_in_archetype
                == self.archetypes[location.archetype_id as int].entities.len(),
            forall|t: ComponentTypeId|
                values.contains_key(t) <==> self.archetypes[location.archetype_id as int].has_type(
                    t,
                ),
        ensures
            self.place(x, location, values).consistent(),
            self.place(x, location, values).components(x) == values,
            self.same_handles(self.place(x, location, values)),
            self.same_schemas(self.place(x, location, values)),
            self.same_components_except(self.place(x, location, values), x),
    {
        let after = self.place(x, location, values);
        let d = location.archetype_id as int;
        let n = location.index_in_archetype as int;
        let archetype = self.archetypes[d];
        assert(archetype.wf());
        archetype.lemma_with_row(x as EntityId, values);
        assert(after.archetypes[d].entities[n] == x);
        assert forall|b: int|
            0 <= b < after.archetypes.len() implies (#[trigger] after.archetypes[b]).wf()
            by {
            assert(self.archetypes[b].wf());
        }
        assert forall|i: int| #[trigger] after.slot_live(i) implies after.located(i) by {
            if i != x {
                assert(self.slot_live(i));
                assert(self.located(i));
            }
        }
        assert forall|i: int| #[trigger] self.slot_live(i) && i != x implies after.components(i)
            == self.components(i) by {
            assert(self.located(i));
            let at = self.entries[i].location;
            if at.archetype_id as int == d {
                assert(after.archetypes[d].row(at.index_in_archetype as int) == archetype.row(
                    at.index_in_archetype as int,
                ));
            }
        }
        assert forall|b: int, k: int| #[trigger] after.in_rows(b, k) implies after.row_owned(
            b,
            k,
        ) by {
            if b == d && k == n {
            } else {
                assert(self.in_rows(b, k));
                assert(self.row_owned(b, k));
            }
        }
        assert forall|b: int|
            0 <= b < self.archetypes.len() implies (#[trigger] self.archetypes[b]).type_ids()
            == after.archetypes[b].type_ids() by {}
    }

    /// The layout after the row of slot `x` has moved to a new last row at
    /// `location`, where it holds `values`.
    pub open spec fn relocate(
        self,
        x: int,
        location: EntityLocation,
        values: Map<ComponentTypeId, V>,
    ) -> Self {
        self.evict(x).place(x, location, values)
    }

    /// Moving the row of a live entity to another archetype keeps the
    /// layout consistent; the entity has the values of its new row, and
    /// every other entity the components it had.
    pub proof fn lemma_relocate(
        self,
        x: int,
        location: EntityLocation,
        values: Map<ComponentTypeId, V>,
    )
        requires
            self.consistent(),
            self.slot_live(x),
            (location.archetype_id as int) < self.archetypes.len(),
            location.archetype_id != self.entries[x].location.archetype_id,
            location.index_in_archetype
                == self.archetypes[location.archetype_id as int].entities.len(),
            forall|t: ComponentTypeId|
                values.contains_key(t) <==> self.archetypes[location.archetype_id as int].has_type(
                    t,
                ),
        ensures
            self.relocate(x, location, values).consistent(),
            self.relocate(x, location, values).components(x) == values,
            self.same_handles(self.relocate(x, location, values)),
            self.same_schemas(self.relocate(x, location, values)),
            self.same_components_except(self.relocate(x, location, values), x),
            self.generations_kept(self.relocate(x, location, values)),
    {
        let evicted = self.evict(x);
        let after = self.relocate(x, location, values);
        self.lemma_evict(x);
        assert(self.located(x));
        evicted.lemma_place(x, location, values);
        assert forall|i: int|
            0 <= i < self.entries.len() implies (#[trigger] self.entries[i]).is_live
            == after.entries[i].is_live && self.entries[i].generation
            == after.entries[i].generation by {
            assert(evicted.entries[i].is_live == self.entries[i].is_live);
        }
        assert forall|a: int|
            0 <= a < self.archetypes.len() implies (#[trigger] self.archetypes[a]).type_ids()
            == after.archetypes[a].type_ids() by {
            assert(evicted.archetypes[a].type_ids() == self.archetypes[a].type_ids());
        }
        assert forall|i: int| #[trigger] self.slot_live(i) && i != x implies after.components(i)
            == self.components(i) by {
            assert(evicted.entries[i].is_live == self.entries[i].is_live);
            assert(evicted.slot_live(i));
        }
    }

    /// The layout with the values of one column of archetype `a` replaced.
    pub open spec fn rewrite(self, a: int, type_id: ComponentTypeId, values: Seq<V>) -> Self {
        Layout {
            entries: self.entries,
            archetypes: self.archetypes.update(a, self.archetypes[a].with_column(type_id, values)),
        }
    }

    /// Replacing the values of one column by as many others keeps the
    /// layout consistent. The entities of that archetype have their new
    /// value at that type; nothing else changes.
    pub proof fn lemma_rewrite(self, a: int, type_id: ComponentTypeId, values: Seq<V>)
        requires
            self.consistent(),
            0 <= a < self.archetypes.len(),
            self.archetypes[a].has_type(type_id),
            values.len() == self.archetypes[a].entities.len(),
        ensures
            self.rewrite(a, type_id, values).consistent(),
            self.same_schemas(self.rewrite(a, type_id, values)),
            forall|i: int| #[trigger]
                self.slot_live(i)
                    ==> self.rewrite(a, type_id, values).components(i)
                        == (if self.entries[i].location.archetype_id
                    == a {
                    self.components(i).insert(
                        type_id,
                        values[self.entries[i].location.index_in_archetype as int],
                    )
                } else {
                    self.components(i)
                }),
    {
        let after = self.rewrite(a, type_id, values);
        let archetype = self.archetypes[a];
        assert(archetype.wf());
        archetype.lemma_with_column(type_id, values);
        assert forall|b: int|
            0 <= b < after.archetypes.len() implies (#[trigger] after.archetypes[b]).wf()
            by {
            assert(self.archetypes[b].wf());
        }
        assert forall|i: int| #[trigger] after.slot_live(i) implies after.located(i) by {
            assert(self.slot_live(i));
            assert(self.located(i));
        }
        assert forall|i: int|
            #[trigger] self.slot_live(i)
                implies after.components(i) == (if self.entries[i].location.archetype_id
            == a {
            self.components(i).insert(
                type_id,
                values[self.entries[i].location.index_in_archetype as int],
            )
        } else {
            self.components(i)
        }) by {
            assert(self.located(i));
            let at = self.entries[i].location;
            if at.archetype_id as int == a {
                assert(after.archetypes[a].row(at.index_in_archetype as int) == archetype.row(
                    at.index_in_archetype as int,
                ).insert(type_id, values[at.index_in_archetype as int]));
            }
        }
        assert forall|b: int, k: int| #[trigger] after.in_rows(b, k) implies after.row_owned(
            b,
            k,
        ) by {
            assert(self.in_rows(b, k));
            assert(self.row_owned(b, k));
        }
        assert forall|b: int|
            0 <= b < self.archetypes.len() implies (#[trigger] self.archetypes[b]).type_ids()
            == after.archetypes[b].type_ids() by {}
    }

    /// Overwriting a value of a live entity keeps the layout consistent and
    /// changes that one component only.
    pub proof fn lemma_overwrite(self, x: int, type_id: ComponentTypeId, value: V)
        requires
            self.consistent(),
            self.slot_live(x),
            self.components(x).contains_key(type_id),
        ensures
            self.overwrite(x, type_id, value).consistent(),
            self.overwrite(x, type_id, value).components(x) == self.components(x).insert(
                type_id,
                value,
            ),
            self.same_schemas(self.overwrite(x, type_id, value)),
            self.same_components_except(self.overwrite(x, type_id, value), x),
    {
        let after = self.overwrite(x, type_id, value);
        let location = self.entries[x].location;
        let a = location.archetype_id as int;
        let r = location.index_in_archetype as int;
        let archetype = self.archetypes[a];
        assert(self.located(x));
        assert(archetype.wf());
        archetype.lemma_with_value(type_id, r, value);
        assert forall|b: int|
            0 <= b < after.archetypes.len() implies (#[trigger] after.archetypes[b]).wf()
            by {
            assert(self.archetypes[b].wf());
        }
        assert forall|i: int| #[trigger] after.slot_live(i) implies after.located(i) by {
            assert(self.slot_live(i));
            assert(self.located(i));
        }
        assert forall|i: int| #[trigger] self.slot_live(i) && i != x implies after.components(i)
            == self.components(i) by {
            assert(self.located(i));
            let at = self.entries[i].location;
            if at.archetype_id as int == a {
                assert(at.index_in_archetype as int != r);
                assert(after.archetypes[a].row(at.index_in_archetype as int) == archetype.row(
                    at.index_in_archetype as int,
                ));
            }
        }
        assert forall|b: int, k: int| #[trigger] after.in_rows(b, k) implies after.row_owned(
            b,
            k,
        ) by {
            assert(self.in_rows(b, k));
            assert(self.row_owned(b, k));
        }
        assert forall|b: int|
            0 <= b < self.archetypes.len() implies (#[trigger] self.archetypes[b]).type_ids()
            == after.archetypes[b].type_ids() by {}
    }
}

} // verus!
