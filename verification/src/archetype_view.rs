use vstd::prelude::*;
use crate::archetype::ComponentTypeId;
use crate::entities::EntityId;
use crate::helpers::{strictly_sorted, swap_removed};

verus! {

/// What a column is: a component type and the values of that type, by row.
#[verifier::ext_equal]
pub struct ColumnView<V> {
    pub type_id: ComponentTypeId,
    pub values: Seq<V>,
}

/// What an archetype is: its columns, in storage order, and the entity that
/// owns each row.
#[verifier::ext_equal]
pub struct ArchetypeView<V> {
    pub columns: Seq<ColumnView<V>>,
    pub entities: Seq<EntityId>,
}

impl<V> ArchetypeView<V> {
    /// The component types, in storage order.
    pub open spec fn type_ids(self) -> Seq<ComponentTypeId> {
        Seq::new(self.columns.len(), |i: int| self.columns[i].type_id)
    }

    pub open spec fn has_type(self, type_id: ComponentTypeId) -> bool {
        self.type_ids().contains(type_id)
    }

    /// The archetype's component types are exactly those of the set.
    pub open spec fn has_exactly(self, types: Set<ComponentTypeId>) -> bool {
        forall|type_id: ComponentTypeId| self.has_type(type_id) <==> types.contains(type_id)
    }

    /// Position of the column of `type_id`.
    pub open spec fn index_of(self, type_id: ComponentTypeId) -> int {
        self.type_ids().index_of(type_id)
    }

    /// The values of the column of `type_id`, by row.
    pub open spec fn column(self, type_id: ComponentTypeId) -> Seq<V> {
        self.columns[self.index_of(type_id)].values
    }

    /// Columns are stored by ascending component type, each type once.
    pub open spec fn sorted(self) -> bool {
        strictly_sorted(self.type_ids())
    }

    /// Every column has one value per entity.
    pub open spec fn aligned(self) -> bool {
        forall|i: int|
            0 <= i < self.columns.len() ==> (#[trigger] self.columns[i]).values.len()
                == self.entities.len()
    }

    pub open spec fn wf(self) -> bool {
        self.sorted() && self.aligned()
    }

    /// The components stored in one row, by component type.
    pub open spec fn row(self, row: int) -> Map<ComponentTypeId, V> {
        Map::new(
            |type_id: ComponentTypeId| self.has_type(type_id),
            |type_id: ComponentTypeId| self.column(type_id)[row],
        )
    }

    /// The archetype with the values of one column replaced.
    pub open spec fn with_column(self, type_id: ComponentTypeId, values: Seq<V>) -> Self {
        ArchetypeView {
            columns: self.columns.update(self.index_of(type_id), ColumnView { type_id, values }),
            entities: self.entities,
        }
    }

    /// The archetype with another entity list and the same columns.
    pub open spec fn with_entities(self, entities: Seq<EntityId>) -> Self {
        ArchetypeView { columns: self.columns, entities }
    }

    /// The archetype after the removal of row `row` from every column and
    /// from the entity list: the last row takes its place.
    pub open spec fn without_row(self, row: int) -> Self {
        ArchetypeView {
            columns: Seq::new(
                self.columns.len(),
                |i: int|
                    ColumnView {
                        type_id: self.columns[i].type_id,
                        values: swap_removed(self.columns[i].values, row),
                    },
            ),
            entities: swap_removed(self.entities, row),
        }
    }

    /// The archetype with one more row at the end: it belongs to
    /// `entity_id` and holds, in each column, the value that `values` has
    /// for the column's component type.
    pub open spec fn with_row(self, entity_id: EntityId, values: Map<ComponentTypeId, V>) -> Self {
        ArchetypeView {
            columns: Seq::new(
                self.columns.len(),
                |i: int|
                    ColumnView {
                        type_id: self.columns[i].type_id,
                        values: self.columns[i].values.push(values[self.columns[i].type_id]),
                    },
            ),
            entities: self.entities.push(entity_id),
        }
    }

    /// The archetype after the values of row `row` have left the columns of
    /// the listed component types: in each of these the last value takes
    /// the place of the one that left.
    pub open spec fn migrated_from(self, types: Seq<ComponentTypeId>, row: int) -> Self {
        ArchetypeView {
            columns: Seq::new(
                self.columns.len(),
                |i: int|
                    if types.contains(self.columns[i].type_id) {
                        ColumnView {
                            type_id: self.columns[i].type_id,
                            values: swap_removed(self.columns[i].values, row),
                        }
                    } else {
                        self.columns[i]
                    },
            ),
            entities: self.entities,
        }
    }

    /// The archetype after the columns of the listed component types have
    /// each got, at their end, the value that `source` holds in row `row`.
    pub open spec fn migrated_into(
        self,
        types: Seq<ComponentTypeId>,
        source: Self,
        row: int,
    ) -> Self {
        ArchetypeView {
            columns: Seq::new(
                self.columns.len(),
                |i: int|
                    if types.contains(self.columns[i].type_id) {
                        ColumnView {
                            type_id: self.columns[i].type_id,
                            values: self.columns[i].values.push(
                                source.column(self.columns[i].type_id)[row],
                            ),
                        }
                    } else {
                        self.columns[i]
                    },
            ),
            entities: self.entities,
        }
    }

    /// The archetype after the columns of the listed component types have
    /// each got, at their end, the value that `values` has for them.
    pub open spec fn filled(
        self,
        types: Seq<ComponentTypeId>,
        values: Map<ComponentTypeId, V>,
    ) -> Self {
        ArchetypeView {
            columns: Seq::new(
                self.columns.len(),
                |i: int|
                    if types.contains(self.columns[i].type_id) {
                        ColumnView {
                            type_id: self.columns[i].type_id,
                            values: self.columns[i].values.push(values[self.columns[i].type_id]),
                        }
                    } else {
                        self.columns[i]
                    },
            ),
            entities: self.entities,
        }
    }

    /// The archetype with the same columns, all of them empty, and without
    /// entities.
    pub open spec fn emptied(self) -> Self {
        ArchetypeView {
            columns: Seq::new(
                self.columns.len(),
                |i: int| ColumnView { type_id: self.columns[i].type_id, values: Seq::<V>::empty() },
            ),
            entities: Seq::<EntityId>::empty(),
        }
    }

    /// In a sorted archetype a component type has one position.
    pub proof fn lemma_index_of(self, i: int)
        requires
            self.sorted(),
            0 <= i < self.columns.len(),
        ensures
            self.has_type(self.columns[i].type_id),
            self.index_of(self.columns[i].type_id) == i,
    {
        let t = self.columns[i].type_id;
        assert(self.type_ids()[i] == t);
        let k = self.index_of(t);
        assert(0 <= k < self.type_ids().len() && self.type_ids()[k] == t);
        if k < i {
            assert(self.type_ids()[k] < self.type_ids()[i]);
        } else if i < k {
            assert(self.type_ids()[i] < self.type_ids()[k]);
        }
    }

    /// A component type that the archetype has is found at its position.
    pub proof fn lemma_has_type(self, type_id: ComponentTypeId)
        requires
            self.has_type(type_id),
        ensures
            0 <= self.index_of(type_id) < self.columns.len(),
            self.columns[self.index_of(type_id)].type_id == type_id,
    {
        let k = self.index_of(type_id);
        assert(0 <= k < self.type_ids().len() && self.type_ids()[k] == type_id);
    }

    /// Two archetypes with the same component types find each type at the
    /// same position.
    pub proof fn lemma_same_types(self, other: Self)
        requires
            self.type_ids() == other.type_ids(),
        ensures
            self.columns.len() == other.columns.len(),
            self.sorted() == other.sorted(),
            forall|t: ComponentTypeId| self.has_type(t) == other.has_type(t),
            forall|t: ComponentTypeId| self.index_of(t) == other.index_of(t),
            forall|i: int|
                0 <= i < self.columns.len() ==> (#[trigger] self.columns[i]).type_id
                    == other.columns[i].type_id,
    {
        assert(self.type_ids().len() == self.columns.len());
        assert(other.type_ids().len() == other.columns.len());
        assert forall|i: int|
            0 <= i < self.columns.len() implies (#[trigger] self.columns[i]).type_id
            == other.columns[i].type_id by {
            assert(self.type_ids()[i] == self.columns[i].type_id);
            assert(other.type_ids()[i] == other.columns[i].type_id);
        }
    }

    /// Removing a row keeps the archetype well formed and its component
    /// types; the row that was last is found at `row`, every other row
    /// where it was.
    pub proof fn lemma_without_row(self, row: int)
        requires
            self.wf(),
            0 <= row < self.entities.len(),
        ensures
            self.without_row(row).wf(),
            self.without_row(row).type_ids() == self.type_ids(),
            self.without_row(row).entities.len() == self.entities.len() - 1,
            forall|k: int|
                0 <= k < self.entities.len() - 1 ==> #[trigger] self.without_row(row).row(k)
                    == self.row(
                    if k == row {
                        self.entities.len() - 1
                    } else {
                        k
                    },
                ),
    {
        let after = self.without_row(row);
        assert(after.type_ids() =~= self.type_ids());
        self.lemma_same_types(after);
        assert forall|i: int|
            0 <= i < after.columns.len() implies (#[trigger] after.columns[i]).values.len()
            == after.entities.len() by {
            assert(self.columns[i].values.len() == self.entities.len());
        }
        assert forall|k: int| 0 <= k < self.entities.len() - 1 implies #[trigger] after.row(k)
            == self.row(
            if k == row {
                self.entities.len() - 1
            } else {
                k
            },
        ) by {
            let from = if k == row {
                self.entities.len() - 1
            } else {
                k
            };
            assert forall|t: ComponentTypeId| after.has_type(t) implies after.column(t)[k]
                == self.column(t)[from] by {
                self.lemma_has_type(t);
                let i = self.index_of(t);
                assert(self.columns[i].values.len() == self.entities.len());
            }
            assert(after.row(k) =~= self.row(from));
        }
    }

    /// Appending a row keeps the archetype well formed and its component
    /// types, leaves the rows before it as they were, and the new row
    /// holds `values` where these cover exactly the archetype's types.
    pub proof fn lemma_with_row(self, entity_id: EntityId, values: Map<ComponentTypeId, V>)
        requires
            self.wf(),
        ensures
            self.with_row(entity_id, values).wf(),
            self.with_row(entity_id, values).type_ids() == self.type_ids(),
            self.with_row(entity_id, values).entities.len() == self.entities.len() + 1,
            forall|k: int|
                0 <= k < self.entities.len() ==> #[trigger] self.with_row(entity_id, values).row(k)
                    == self.row(k),
            (forall|t: ComponentTypeId| values.contains_key(t) <==> self.has_type(t))
                ==> self.with_row(
                entity_id,
                values,
            ).row(self.entities.len() as int) == values,
    {
        let after = self.with_row(entity_id, values);
        assert(after.type_ids() =~= self.type_ids());
        self.lemma_same_types(after);
        assert forall|i: int|
            0 <= i < after.columns.len() implies (#[trigger] after.columns[i]).values.len()
            == after.entities.len() by {
            assert(self.columns[i].values.len() == self.entities.len());
        }
        assert forall|k: int| 0 <= k < self.entities.len() implies #[trigger] after.row(k)
            == self.row(k) by {
            assert forall|t: ComponentTypeId| after.has_type(t) implies after.column(t)[k]
                == self.column(t)[k] by {
                self.lemma_has_type(t);
                let i = self.index_of(t);
                assert(self.columns[i].values.len() == self.entities.len());
            }
            assert(after.row(k) =~= self.row(k));
        }
        if forall|t: ComponentTypeId| values.contains_key(t) <==> self.has_type(t) {
            let n = self.entities.len() as int;
            assert forall|t: ComponentTypeId| after.has_type(t) implies after.column(t)[n]
                == values[t] by {
                self.lemma_has_type(t);
                let i = self.index_of(t);
                assert(self.columns[i].values.len() == self.entities.len());
            }
            assert(after.row(n) =~= values);
        }
    }

    /// Replacing the values of one column by as many others keeps the
    /// archetype well formed and its component types; each row then holds
    /// its new value at that type and what it held at the others.
    pub proof fn lemma_with_column(self, type_id: ComponentTypeId, values: Seq<V>)
        requires
            self.wf(),
            self.has_type(type_id),
            values.len() == self.entities.len(),
        ensures
            self.with_column(type_id, values).wf(),
            self.with_column(type_id, values).type_ids() == self.type_ids(),
            self.with_column(type_id, values).entities == self.entities,
            forall|k: int|
                0 <= k < self.entities.len() ==> #[trigger] self.with_column(type_id, values).row(
                    k,
                ) == self.row(k).insert(type_id, values[k]),
    {
        let after = self.with_column(type_id, values);
        self.lemma_has_type(type_id);
        let at = self.index_of(type_id);
        assert(after.type_ids() =~= self.type_ids());
        self.lemma_same_types(after);
        assert forall|i: int|
            0 <= i < after.columns.len() implies (#[trigger] after.columns[i]).values.len()
            == after.entities.len() by {
            assert(self.columns[i].values.len() == self.entities.len());
        }
        assert forall|k: int| 0 <= k < self.entities.len() implies #[trigger] after.row(k)
            == self.row(k).insert(type_id, values[k]) by {
            assert forall|t: ComponentTypeId| after.has_type(t) implies after.column(t)[k] == (if t
                == type_id {
                values[k]
            } else {
                self.column(t)[k]
            }) by {
                self.lemma_has_type(t);
                let i = self.index_of(t);
                if i == at {
                    assert(t == type_id);
                }
            }
            assert(after.row(k) =~= self.row(k).insert(type_id, values[k]));
        }
    }

    /// Overwriting one value keeps the archetype well formed and its
    /// component types, changes that row at that type only, and leaves the
    /// other rows as they were.
    pub proof fn lemma_with_value(self, type_id: ComponentTypeId, row: int, value: V)
        requires
            self.wf(),
            self.has_type(type_id),
            0 <= row < self.entities.len(),
        ensures
            self.with_column(type_id, self.column(type_id).update(row, value)).wf(),
            self.with_column(type_id, self.column(type_id).update(row, value)).type_ids()
                == self.type_ids(),
            self.with_column(type_id, self.column(type_id).update(row, value)).entities
                == self.entities,
            self.with_column(type_id, self.column(type_id).update(row, value)).row(row)
                == self.row(row).insert(type_id, value),
            forall|k: int|
                0 <= k < self.entities.len() && k != row ==> #[trigger] self.with_column(
                    type_id,
                    self.column(type_id).update(row, value),
                ).row(k) == self.row(k),
    {
        let after = self.with_column(type_id, self.column(type_id).update(row, value));
        self.lemma_has_type(type_id);
        let at = self.index_of(type_id);
        assert(after.type_ids() =~= self.type_ids());
        self.lemma_same_types(after);
        assert(self.columns[at].values.len() == self.entities.len());
        assert forall|i: int|
            0 <= i < after.columns.len() implies (#[trigger] after.columns[i]).values.len()
            == after.entities.len() by {
            assert(self.columns[i].values.len() == self.entities.len());
        }
        assert forall|k: int| 0 <= k < self.entities.len() implies #[trigger] after.row(k) == (if k
            == row {
            self.row(k).insert(type_id, value)
        } else {
            self.row(k)
        }) by {
            assert forall|t: ComponentTypeId| after.has_type(t) implies after.column(t)[k] == (if k
                == row && t == type_id {
                value
            } else {
                self.column(t)[k]
            }) by {
                self.lemma_has_type(t);
                let i = self.index_of(t);
                if i == at {
                    assert(t == type_id);
                }
            }
            if k == row {
                assert(after.row(k) =~= self.row(k).insert(type_id, value));
            } else {
                assert(after.row(k) =~= self.row(k));
            }
        }
    }

    /// When the values of a row have left every column and its entity has
    /// left the entity list, the row is removed.
    pub proof fn lemma_moved_out(self, types: Seq<ComponentTypeId>, row: int)
        requires
            self.wf(),
            0 <= row < self.entities.len(),
            forall|u: ComponentTypeId| self.has_type(u) ==> types.contains(u),
        ensures
            self.migrated_from(types, row).with_entities(swap_removed(self.entities, row))
                == self.without_row(row),
    {
        let after = self.migrated_from(types, row).with_entities(
            swap_removed(self.entities, row),
        );
        assert forall|i: int| 0 <= i < self.columns.len() implies after.columns[i]
            == self.without_row(row).columns[i] by {
            self.lemma_index_of(i);
        }
        assert(after =~= self.without_row(row));
    }

    /// As `lemma_moved_out`, where the values of one component type were
    /// not moved but dropped.
    pub proof fn lemma_moved_out_but_one(
        self,
        types: Seq<ComponentTypeId>,
        row: int,
        type_id: ComponentTypeId,
    )
        requires
            self.wf(),
            0 <= row < self.entities.len(),
            self.has_type(type_id),
            !types.contains(type_id),
            forall|u: ComponentTypeId| self.has_type(u) && u != type_id ==> types.contains(u),
        ensures
            self.migrated_from(types, row).has_type(type_id),
            self.migrated_from(types, row).sorted(),
            self.migrated_from(types, row).column(type_id) == self.column(type_id),
            self.migrated_from(types, row).with_column(
                type_id,
                swap_removed(self.column(type_id), row),
            ).with_entities(swap_removed(self.entities, row)) == self.without_row(row),
    {
        let moved = self.migrated_from(types, row);
        assert(moved.type_ids() =~= self.type_ids());
        self.lemma_same_types(moved);
        self.lemma_has_type(type_id);
        let at = self.index_of(type_id);
        let after = moved.with_column(
            type_id,
            swap_removed(self.column(type_id), row),
        ).with_entities(swap_removed(self.entities, row));
        assert forall|i: int| 0 <= i < self.columns.len() implies after.columns[i]
            == self.without_row(row).columns[i] by {
            self.lemma_index_of(i);
        }
        assert(after =~= self.without_row(row));
    }

    /// When the entity of a new row has been appended and every column has
    /// got its value, the new row is complete.
    pub proof fn lemma_filled(
        self,
        types: Seq<ComponentTypeId>,
        entity_id: EntityId,
        values: Map<ComponentTypeId, V>,
    )
        requires
            forall|u: ComponentTypeId| self.has_type(u) ==> types.contains(u),
        ensures
            self.with_entities(self.entities.push(entity_id)).filled(types, values)
                == self.with_row(entity_id, values),
    {
        let after = self.with_entities(self.entities.push(entity_id)).filled(types, values);
        assert forall|i: int| 0 <= i < self.columns.len() implies after.columns[i]
            == self.with_row(entity_id, values).columns[i] by {
            assert(self.type_ids()[i] == self.columns[i].type_id);
        }
        assert(after =~= self.with_row(entity_id, values));
    }

    /// When the entity of a new row has been appended, the columns that
    /// the source shares have got the source's values and the column of
    /// one more component type has got `value`, the new row is complete.
    pub proof fn lemma_moved_in_with(
        self,
        source: Self,
        types: Seq<ComponentTypeId>,
        row: int,
        entity_id: EntityId,
        type_id: ComponentTypeId,
        value: V,
    )
        requires
            self.wf(),
            self.has_type(type_id),
            !source.has_type(type_id),
            forall|u: ComponentTypeId| source.has_type(u) <==> types.contains(u),
            forall|u: ComponentTypeId| self.has_type(u) <==> source.has_type(u) || u == type_id,
        ensures
            ({
                let filled = self.with_entities(self.entities.push(entity_id)).migrated_into(
                    types,
                    source,
                    row,
                );
                &&& filled.sorted()
                &&& filled.has_type(type_id)
                &&& filled.with_column(type_id, filled.column(type_id).push(value))
                    == self.with_row(
                    entity_id,
                    source.row(row).insert(type_id, value),
                )
            }),
            forall|u: ComponentTypeId|
                source.row(row).insert(type_id, value).contains_key(u) <==> self.has_type(u),
    {
        let filled = self.with_entities(self.entities.push(entity_id)).migrated_into(
            types,
            source,
            row,
        );
        assert(filled.type_ids() =~= self.type_ids());
        self.lemma_same_types(filled);
        self.lemma_has_type(type_id);
        let after = filled.with_column(type_id, filled.column(type_id).push(value));
        let values = source.row(row).insert(type_id, value);
        assert forall|i: int| 0 <= i < self.columns.len() implies after.columns[i]
            == self.with_row(entity_id, values).columns[i] by {
            self.lemma_index_of(i);
        }
        assert(after =~= self.with_row(entity_id, values));
    }

    /// When the entity of a new row has been appended and every column has
    /// got the source's value, the new row is complete: it holds the
    /// source's row without the component type that this archetype lacks.
    pub proof fn lemma_moved_in_without(
        self,
        source: Self,
        types: Seq<ComponentTypeId>,
        row: int,
        entity_id: EntityId,
        type_id: ComponentTypeId,
    )
        requires
            self.wf(),
            source.has_type(type_id),
            forall|u: ComponentTypeId| self.has_type(u) <==> types.contains(u),
            forall|u: ComponentTypeId| self.has_type(u) <==> source.has_type(u) && u != type_id,
        ensures
            self.with_entities(self.entities.push(entity_id)).migrated_into(types, source, row)
                == self.with_row(entity_id, source.row(row).remove(type_id)),
            forall|u: ComponentTypeId|
                source.row(row).remove(type_id).contains_key(u) <==> self.has_type(u),
    {
        let after = self.with_entities(self.entities.push(entity_id)).migrated_into(
            types,
            source,
            row,
        );
        let values = source.row(row).remove(type_id);
        assert forall|i: int| 0 <= i < self.columns.len() implies after.columns[i]
            == self.with_row(entity_id, values).columns[i] by {
            self.lemma_index_of(i);
        }
        assert(after =~= self.with_row(entity_id, values));
    }
}

} // verus!
