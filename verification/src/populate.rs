//! Filling a world: components, tables, archetypes, entities and values.
use vstd::prelude::*;
use crate::ids::{ArchetypeComponentId, ArchetypeId, ComponentId, Entity, EntityLocation, TableId};
use crate::world::{
    component_set, has_component_at, Archetype, ArchetypeComponent, ComponentCell, ComponentKey,
    EntityMeta, Table, World,
};

verus! {

/// The entries of an archetype with these components, whose accesses are counted from `first`.
pub open spec fn numbered(components: Seq<ComponentId>, first: int) -> Seq<ArchetypeComponent> {
    Seq::new(
        components.len(),
        |k: int|
            ArchetypeComponent {
                component: components[k],
                archetype_component: ArchetypeComponentId((first + k) as usize),
            },
    )
}

impl<C: 'static> World<C> {
    /// What is later than a later world is later too.
    pub proof fn later_than_transitive(&self, middle: World<C>, earliest: World<C>)
        requires
            self.later_than(middle),
            middle.later_than(earliest),
        ensures
            self.later_than(earliest),
    {
        assert forall|a: int| 0 <= a < earliest.archetypes@.len() implies (
        #[trigger] self.archetypes@[a]).same_shape(earliest.archetypes@[a]) by {
            assert(middle.archetypes@[a].same_shape(earliest.archetypes@[a]));
        }
    }

    /// A world stays well formed while it gets more components, tables without rows, archetypes
    /// without entities and indices without an entity, and while its values and ticks are replaced.
    proof fn extension_keeps_wf(&self, before: World<C>)
        requires
            before.wf(),
            before.components@.is_prefix_of(self.components@),
            self.components@.no_duplicates(),
            before.tables@.is_prefix_of(self.tables@),
            forall|t: int|
                before.tables@.len() <= t < self.tables@.len() ==> (
                #[trigger] self.tables@[t]).entities@.len() == 0,
            before.archetypes@.is_prefix_of(self.archetypes@),
            forall|a: int|
                before.archetypes@.len() <= a < self.archetypes@.len()
                    ==> #[trigger] self.archetype_shape_wf(a)
                    && self.archetypes@[a].entities@.len() == 0,
            before.archetype_component_count <= self.archetype_component_count,
            before.entities@.is_prefix_of(self.entities@),
            self.entities@.len() <= u32::MAX + 1,
            forall|i: int|
                before.entities@.len() <= i < self.entities@.len() ==> (
                #[trigger] self.entities@[i]).location is None,
            self.values@.len() == self.entities@.len(),
            self.changed@.len() == self.entities@.len(),
            forall|i: int|
                0 <= i < before.entities@.len() ==> (#[trigger] self.values@[i])@.len()
                    == before.values@[i]@.len(),
            forall|i: int|
                0 <= i < before.entities@.len() ==> (#[trigger] self.changed@[i])@.len()
                    == before.changed@[i]@.len(),
        ensures
            self.wf(),
    {
        assert forall|a: int| 0 <= a < self.archetypes@.len() implies
            #[trigger] self.archetype_shape_wf(a) by {
            if a < before.archetypes@.len() {
                assert(before.archetype_shape_wf(a));
                let archetype = self.archetypes@[a];
                let table = self.tables@[archetype.table_id.0 as int];
                assert forall|k: int| 0 <= k < archetype.components@.len() implies self.entry_wf(
                    #[trigger] archetype.components@[k],
                ) by {
                    assert(before.entry_wf(archetype.components@[k]));
                }
                assert forall|c: ComponentId| #[trigger]
                    table.components@.contains(c) <==> archetype.component_set().contains(c)
                        && !self.components@[c.0 as int].sparse by {
                    assert(before.table_fits_archetype(table, archetype));
                    if archetype.component_set().contains(c) {
                        let k = choose|k: int| has_component_at(archetype.components@, c, k);
                        assert(before.entry_wf(archetype.components@[k]));
                    }
                }
            }
        }
        assert forall|a: int, k: int|
            0 <= a < self.archetypes@.len() && 0 <= k < self.archetypes@[a].entities@.len()
            implies #[trigger] self.archetype_row_wf(a, k) by {
            assert(self.archetype_shape_wf(a));
            assert(before.archetype_shape_wf(a));
            assert(before.archetype_row_wf(a, k));
        }
        assert forall|i: int| 0 <= i < self.entities@.len() implies #[trigger] self.entity_wf(i) by {
            if i < before.entities@.len() {
                assert(before.entity_wf(i));
            }
        }
        assert forall|t: int, r: int|
            0 <= t < self.tables@.len() && 0 <= r < self.tables@[t].entities@.len()
            implies #[trigger] self.table_row_wf(t, r) by {
            assert(before.table_row_wf(t, r));
            assert(before.entity_wf(before.tables@[t].entities@[r].id as int));
        }
    }

    /// Looks a component up in the registry, and adds it if it is not there.
    pub fn init_component(&mut self, key: ComponentKey) -> (component: ComponentId)
        requires
            old(self).wf(),
        ensures
            final(self).wf(),
            final(self).later_than(*old(self)),
            final(self).same_but_components(*old(self)),
            final(self).components@ == if old(self).components@.contains(key) {
                old(self).components@
            } else {
                old(self).components@.push(key)
            },
            component.0 < final(self).components@.len(),
            final(self).components@[component.0 as int] == key,
    {
        let mut i: usize = 0;
        while i < self.components.len()
            invariant
                *self == *old(self),
                i <= self.components@.len(),
                forall|j: int| 0 <= j < i ==> self.components@[j] != key,
                self.wf(),
            decreases self.components@.len() - i,
        {
            if self.components[i] == key {
                return ComponentId(i);
            }
            i = i + 1;
        }
        self.components.push(key);
        proof {
            self.extension_keeps_wf(*old(self));
        }
        ComponentId(i)
    }

    /// Adds a table without rows for some of the components.
    pub fn add_table(&mut self, components: Vec<ComponentId>) -> (id: TableId)
        requires
            old(self).wf(),
        ensures
            final(self).wf(),
            final(self).later_than(*old(self)),
            final(self).id == old(self).id,
            final(self).components == old(self).components,
            final(self).archetypes == old(self).archetypes,
            final(self).entities == old(self).entities,
            final(self).values == old(self).values,
            final(self).changed == old(self).changed,
            final(self).archetype_component_count == old(self).archetype_component_count,
            final(self).last_change_tick == old(self).last_change_tick,
            final(self).change_tick == old(self).change_tick,
            id.0 == old(self).tables@.len(),
            final(self).tables@.len() == old(self).tables@.len() + 1,
            final(self).tables@.take(id.0 as int) == old(self).tables@,
            final(self).tables@[id.0 as int].components@ == components@,
            final(self).tables@[id.0 as int].entities@.len() == 0,
    {
        let id = TableId(self.tables.len());
        self.tables.push(Table { components, entities: Vec::new() });
        proof {
            assert(self.tables@.take(id.0 as int) =~= old(self).tables@);
            self.extension_keeps_wf(*old(self));
        }
        id
    }

    /// Adds an archetype without entities for some components, none of them twice.
    ///
    /// Its table must be one for just those of the components that are not sparse.
    pub fn add_archetype(&mut self, components: Vec<ComponentId>, table_id: TableId) -> (id:
        ArchetypeId)
        requires
            old(self).wf(),
            components@.no_duplicates(),
            forall|k: int|
                0 <= k < components@.len() ==> (#[trigger] components@[k]).0
                    < old(self).components@.len(),
            table_id.0 < old(self).tables@.len(),
            forall|c: ComponentId| #[trigger]
                old(self).tables@[table_id.0 as int].components@.contains(c)
                    <==> components@.contains(c) && !old(self).components@[c.0 as int].sparse,
            old(self).archetype_component_count + components@.len() <= usize::MAX,
        ensures
            final(self).wf(),
            final(self).later_than(*old(self)),
            final(self).id == old(self).id,
            final(self).components == old(self).components,
            final(self).tables == old(self).tables,
            final(self).entities == old(self).entities,
            final(self).values == old(self).values,
            final(self).changed == old(self).changed,
            final(self).last_change_tick == old(self).last_change_tick,
            final(self).change_tick == old(self).change_tick,
            final(self).archetype_component_count == old(self).archetype_component_count
                + components@.len(),
            id.0 == old(self).archetypes@.len(),
            final(self).archetypes@.len() == old(self).archetypes@.len() + 1,
            final(self).archetypes@.take(id.0 as int) == old(self).archetypes@,
            final(self).archetypes@[id.0 as int].id == id,
            final(self).archetypes@[id.0 as int].table_id == table_id,
            final(self).archetypes@[id.0 as int].components@ == numbered(
                components@,
                old(self).archetype_component_count as int,
            ),
            final(self).archetypes@[id.0 as int].components@.len() == components@.len(),
            forall|k: int|
                0 <= k < components@.len() ==> #[trigger] final(self).archetypes@[id.0 as int].components@[k]
                    == (ArchetypeComponent {
                    component: components@[k],
                    archetype_component: ArchetypeComponentId(
                        (old(self).archetype_component_count + k) as usize,
                    ),
                }),
            final(self).archetypes@[id.0 as int].entities@.len() == 0,
    {
        let first = self.archetype_component_count;
        let mut entries: Vec<ArchetypeComponent> = Vec::new();
        let mut k: usize = 0;
        while k < components.len()
            invariant
                k <= components@.len(),
                first + components@.len() <= usize::MAX,
                entries@ == numbered(components@, first as int).take(k as int),
            decreases components@.len() - k,
        {
            entries.push(
                ArchetypeComponent {
                    component: components[k],
                    archetype_component: ArchetypeComponentId(first + k),
                },
            );
            k = k + 1;
            assert(entries@ =~= numbered(components@, first as int).take(k as int));
        }
        assert(entries@ =~= numbered(components@, first as int));
        let id = ArchetypeId(self.archetypes.len());
        self.archetype_component_count = first + components.len();
        self.archetypes.push(
            Archetype { id, table_id, components: entries, entities: Vec::new(), rows: Vec::new() },
        );
        proof {
            let n = id.0 as int;
            assert(self.archetypes@.take(n) =~= old(self).archetypes@);
            let archetype = self.archetypes@[n];
            assert forall|k: int| 0 <= k < archetype.components@.len() implies self.entry_wf(
                #[trigger] archetype.components@[k],
            ) by {
                assert(components@[k].0 < old(self).components@.len());
            }
            assert forall|c: ComponentId| archetype.component_set().contains(c)
                <==> components@.contains(c) by {
                if components@.contains(c) {
                    let k = choose|k: int| 0 <= k < components@.len() && components@[k] == c;
                    assert(has_component_at(archetype.components@, c, k));
                }
            }
            assert(self.table_fits_archetype(self.tables@[table_id.0 as int], archetype));
            assert(self.archetype_shape_wf(n));
            self.extension_keeps_wf(*old(self));
        }
        id
    }

    /// Adds an entity to an archetype, with a value for each of its components. They count as
    /// written now.
    pub fn spawn(&mut self, archetype_id: ArchetypeId, values: Vec<C>) -> (entity: Entity)
        requires
            old(self).wf(),
            archetype_id.0 < old(self).archetypes@.len(),
            values@.len() == old(self).archetypes@[archetype_id.0 as int].components@.len(),
            old(self).entities@.len() <= u32::MAX,
        ensures
            final(self).wf(),
            final(self).later_than(*old(self)),
            final(self).id == old(self).id,
            final(self).components == old(self).components,
            final(self).archetype_component_count == old(self).archetype_component_count,
            final(self).last_change_tick == old(self).last_change_tick,
            final(self).change_tick == old(self).change_tick,
            entity.id == old(self).entities@.len(),
            entity.generation == 0,
            final(self).entities@ == old(self).entities@.push(
                EntityMeta {
                    generation: 0,
                    location: Some(
                        EntityLocation {
                            archetype_id,
                            index: old(self).archetypes@[archetype_id.0 as int].entities@.len() as usize,
                        },
                    ),
                },
            ),
            final(self).values@ == old(self).values@.push(values),
            final(self).changed@.len() == old(self).changed@.len() + 1,
            final(self).changed@.drop_last() == old(self).changed@,
            final(self).changed@.last()@ == Seq::new(values@.len(), |k: int| old(self).change_tick),
            final(self).locate(entity) == Some(
                EntityLocation {
                    archetype_id,
                    index: old(self).archetypes@[archetype_id.0 as int].entities@.len() as usize,
                },
            ),
            forall|k: int|
                0 <= k < values@.len() ==> final(self).value(
                    ComponentCell {
                        entity,
                        component: (
                        #[trigger] old(self).archetypes@[archetype_id.0 as int].components@[k]).component,
                    },
                ) == values@[k],
            forall|cell: ComponentCell| #[trigger]
                old(self).has(cell) ==> final(self).has(cell) && final(self).value(cell)
                    == old(self).value(cell) && final(self).changed_tick(cell) == old(
                    self,
                ).changed_tick(cell),
            ({
                let a = archetype_id.0 as int;
                let t = old(self).archetypes@[a].table_id.0 as int;
                &&& final(self).archetypes@.len() == old(self).archetypes@.len()
                &&& final(self).archetypes@[a].same_shape(old(self).archetypes@[a])
                &&& final(self).archetypes@[a].entities@ == old(self).archetypes@[a].entities@.push(
                    entity,
                )
                &&& final(self).archetypes@[a].rows@ == old(self).archetypes@[a].rows@.push(
                    old(self).tables@[t].entities@.len() as usize,
                )
                &&& forall|b: int|
                    0 <= b < old(self).archetypes@.len() && b != a
                        ==> #[trigger] final(self).archetypes@[b] == old(self).archetypes@[b]
                &&& final(self).tables@.len() == old(self).tables@.len()
                &&& final(self).tables@[t].components@ == old(self).tables@[t].components@
                &&& final(self).tables@[t].entities@ == old(self).tables@[t].entities@.push(entity)
                &&& forall|b: int|
                    0 <= b < old(self).tables@.len() && b != t
                        ==> #[trigger] final(self).tables@[b] == old(self).tables@[b]
            }),
    {
        let a = archetype_id.0;
        assert(self.archetype_shape_wf(a as int));
        let t = self.archetypes[a].table_id.0;
        let entity = Entity { id: self.entities.len() as u32, generation: 0 };
        let index = self.archetypes[a].entities.len();
        let row = self.tables[t].entities.len();
        self.entities.push(
            EntityMeta { generation: 0, location: Some(EntityLocation { archetype_id, index }) },
        );
        let mut ticks: Vec<u32> = Vec::new();
        let ghost now = Seq::new(values@.len(), |k: int| old(self).change_tick);
        while ticks.len() < values.len()
            invariant
                ticks@.len() <= values@.len(),
                now.len() == values@.len(),
                now == Seq::new(values@.len(), |k: int| old(self).change_tick),
                self.change_tick == old(self).change_tick,
                ticks@ == now.take(ticks@.len() as int),
            decreases values@.len() - ticks@.len(),
        {
            ticks.push(self.change_tick);
            assert(ticks@ =~= now.take(ticks@.len() as int));
        }
        assert(ticks@ =~= now);
        self.values.push(values);
        self.changed.push(ticks);
        assert(self.changed@.drop_last() =~= old(self).changed@);
        self.archetypes[a].entities.push(entity);
        self.archetypes[a].rows.push(row);
        self.tables[t].entities.push(entity);
        proof {
            self.spawn_keeps_wf(*old(self), a as int, entity, values, ticks);
            let location = EntityLocation { archetype_id, index };
            assert(self.locate(entity) == Some(location));
            assert forall|k: int| 0 <= k < values@.len() implies self.value(
                ComponentCell {
                    entity,
                    component: (#[trigger] old(self).archetypes@[a as int].components@[k]).component,
                },
            ) == values@[k] by {
                self.cell_is_of_its_entry(entity, location, k);
            }
            assert forall|cell: ComponentCell| #[trigger] old(self).has(cell) implies self.has(cell)
                && self.value(cell) == old(self).value(cell) && self.changed_tick(cell) == old(
                self,
            ).changed_tick(cell) by {
                assert(old(self).entity_wf(cell.entity.id as int));
                assert(self.changed@[cell.entity.id as int] == self.changed@.drop_last()[cell.entity.id as int]);
            }
        }
        entity
    }

    /// Gives away an index for an entity that is still to come. Until then it does not exist.
    pub fn reserve_entity(&mut self) -> (entity: Entity)
        requires
            old(self).wf(),
            old(self).entities@.len() <= u32::MAX,
        ensures
            final(self).wf(),
            final(self).later_than(*old(self)),
            final(self).id == old(self).id,
            final(self).components == old(self).components,
            final(self).archetypes == old(self).archetypes,
            final(self).tables == old(self).tables,
            final(self).archetype_component_count == old(self).archetype_component_count,
            final(self).last_change_tick == old(self).last_change_tick,
            final(self).change_tick == old(self).change_tick,
            entity.id == old(self).entities@.len(),
            entity.generation == 0,
            final(self).entities@ == old(self).entities@.push(
                EntityMeta { generation: 0, location: None },
            ),
            final(self).locate(entity) is None,
            old(self).values@.is_prefix_of(final(self).values@),
            old(self).changed@.is_prefix_of(final(self).changed@),
    {
        let entity = Entity { id: self.entities.len() as u32, generation: 0 };
        self.entities.push(EntityMeta { generation: 0, location: None });
        self.values.push(Vec::new());
        self.changed.push(Vec::new());
        proof {
            self.extension_keeps_wf(*old(self));
        }
        entity
    }

    proof fn spawn_keeps_wf(
        &self,
        before: World<C>,
        a: int,
        entity: Entity,
        values: Vec<C>,
        ticks: Vec<u32>,
    )
        requires
            before.wf(),
            0 <= a < before.archetypes@.len(),
            before.entities@.len() <= u32::MAX,
            entity == (Entity { id: before.entities@.len() as u32, generation: 0 }),
            values@.len() == before.archetypes@[a].components@.len(),
            self.components == before.components,
            self.archetype_component_count == before.archetype_component_count,
            ticks@.len() == values@.len(),
            self.values@ == before.values@.push(values),
            self.changed@ == before.changed@.push(ticks),
            self.entities@ == before.entities@.push(
                EntityMeta {
                    generation: 0,
                    location: Some(
                        EntityLocation {
                            archetype_id: ArchetypeId(a as usize),
                            index: before.archetypes@[a].entities@.len() as usize,
                        },
                    ),
                },
            ),
            self.archetypes@.len() == before.archetypes@.len(),
            self.archetypes@[a].same_shape(before.archetypes@[a]),
            self.archetypes@[a].entities@ == before.archetypes@[a].entities@.push(entity),
            ({
                let t = before.archetypes@[a].table_id.0 as int;
                &&& self.archetypes@[a].rows@ == before.archetypes@[a].rows@.push(
                    before.tables@[t].entities@.len() as usize,
                )
                &&& forall|b: int|
                    0 <= b < before.archetypes@.len() && b != a ==> #[trigger] self.archetypes@[b]
                        == before.archetypes@[b]
                &&& self.tables@.len() == before.tables@.len()
                &&& self.tables@[t].components@ == before.tables@[t].components@
                &&& self.tables@[t].entities@ == before.tables@[t].entities@.push(entity)
                &&& forall|b: int|
                    0 <= b < before.tables@.len() && b != t ==> #[trigger] self.tables@[b]
                        == before.tables@[b]
            }),
        ensures
            self.wf(),
    {
        assert(before.archetype_shape_wf(a));
        let t = before.archetypes@[a].table_id.0 as int;
        assert(before.archetypes.len() <= usize::MAX);
        assert(before.archetypes@[a].entities.len() <= usize::MAX);
        assert(before.tables@[t].entities.len() <= usize::MAX);
        assert forall|b: int| 0 <= b < self.archetypes@.len() implies
            #[trigger] self.archetype_shape_wf(b) by {
            assert(before.archetype_shape_wf(b));
            let archetype = self.archetypes@[b];
            let table = self.tables@[archetype.table_id.0 as int];
            assert(archetype.components@ == before.archetypes@[b].components@);
            assert forall|k: int| 0 <= k < archetype.components@.len() implies self.entry_wf(
                #[trigger] archetype.components@[k],
            ) by {
                assert(before.entry_wf(before.archetypes@[b].components@[k]));
            }
            assert(table.components@ == before.tables@[archetype.table_id.0 as int].components@);
            assert forall|c: ComponentId| #[trigger]
                table.components@.contains(c) <==> archetype.component_set().contains(c)
                    && !self.components@[c.0 as int].sparse by {
                assert(before.tables@[archetype.table_id.0 as int].components@.contains(c)
                    <==> before.archetypes@[b].component_set().contains(c)
                    && !before.components@[c.0 as int].sparse);
            }
        }
        assert forall|b: int, k: int|
            0 <= b < self.archetypes@.len() && 0 <= k < self.archetypes@[b].entities@.len()
            implies #[trigger] self.archetype_row_wf(b, k) by {
            assert(before.archetype_shape_wf(b));
            if b != a || k < before.archetypes@[a].entities@.len() {
                assert(before.archetype_row_wf(b, k));
            }
        }
        assert forall|i: int| 0 <= i < self.entities@.len() implies #[trigger] self.entity_wf(i) by {
            if i < before.entities@.len() {
                assert(before.entity_wf(i));
            }
        }
        assert forall|u: int, r: int|
            0 <= u < self.tables@.len() && 0 <= r < self.tables@[u].entities@.len()
            implies #[trigger] self.table_row_wf(u, r) by {
            if u != t || r < before.tables@[t].entities@.len() {
                assert(before.table_row_wf(u, r));
                let e = before.tables@[u].entities@[r];
                assert(before.entity_wf(e.id as int));
                let location = before.entities@[e.id as int].location->0;
                assert(before.archetype_shape_wf(location.archetype_id.0 as int));
            }
        }
    }

    /// The tick at which a component of an entity was last written.
    pub fn read_changed(&self, cell: ComponentCell) -> (tick: u32)
        requires
            self.wf(),
            self.has(cell),
        ensures
            tick == self.changed_tick(cell),
            forall|k: int|
                0 <= k < self.archetypes@[self.locate(cell.entity)->0.archetype_id.0 as int].components@.len()
                    && (#[trigger] self.archetypes@[self.locate(cell.entity)->0.archetype_id.0 as int].components@[k]).component
                    == cell.component ==> tick == self.changed@[cell.entity.id as int]@[k],
    {
        let i = cell.entity.id as usize;
        assert(self.entity_wf(i as int));
        let a = self.entities[i].location.unwrap().archetype_id.0;
        assert(self.archetype_shape_wf(a as int));
        let k = self.archetypes[a].position(cell.component).unwrap();
        self.changed[i][k]
    }

    /// Begins a new span of change: what was written so far counts as old.
    pub fn clear_trackers(&mut self)
        requires
            old(self).wf(),
        ensures
            final(self).wf(),
            final(self).later_than(*old(self)),
            *final(self) == (World {
                last_change_tick: old(self).change_tick,
                change_tick: old(self).change_tick.wrapping_add(1),
                ..*old(self)
            }),
    {
        self.last_change_tick = self.change_tick;
        self.change_tick = self.change_tick.wrapping_add(1);
        proof {
            self.extension_keeps_wf(*old(self));
        }
    }

    /// The value of a component of an entity.
    pub fn read(&self, cell: ComponentCell) -> (value: &C)
        requires
            self.wf(),
            self.has(cell),
        ensures
            *value == self.value(cell),
            forall|k: int|
                0 <= k < self.archetypes@[self.locate(cell.entity)->0.archetype_id.0 as int].components@.len()
                    && (#[trigger] self.archetypes@[self.locate(cell.entity)->0.archetype_id.0 as int].components@[k]).component
                    == cell.component ==> *value == self.values@[cell.entity.id as int]@[k],
    {
        let i = cell.entity.id as usize;
        assert(self.entity_wf(i as int));
        let a = self.entities[i].location.unwrap().archetype_id.0;
        assert(self.archetype_shape_wf(a as int));
        let k = self.archetypes[a].position(cell.component).unwrap();
        &self.values[i][k]
    }

    /// This world is `before` after one value was replaced and the tick noted: everything else is
    /// the same.
    pub open spec fn written(&self, before: World<C>, cell: ComponentCell, value: C) -> bool {
        &&& self.same_but_values(before)
        &&& self.values@.len() == before.values@.len()
        &&& self.value(cell) == value
        &&& self.changed_tick(cell) == before.change_tick
        &&& forall|other: ComponentCell|
            before.has(other) && other != cell ==> #[trigger] self.value(other) == before.value(
                other,
            )
        &&& forall|other: ComponentCell|
            before.has(other) && other != cell ==> #[trigger] self.changed_tick(other)
                == before.changed_tick(other)
    }

    /// Replaces the value of a component of an entity, and notes the current tick for it.
    pub fn write(&mut self, cell: ComponentCell, value: C)
        requires
            old(self).wf(),
            old(self).has(cell),
        ensures
            final(self).wf(),
            final(self).later_than(*old(self)),
            final(self).written(*old(self), cell, value),
            forall|k: int|
                0 <= k < old(self).archetypes@[old(self).locate(cell.entity)->0.archetype_id.0 as int].components@.len()
                    && (#[trigger] old(self).archetypes@[old(self).locate(cell.entity)->0.archetype_id.0 as int].components@[k]).component
                    == cell.component ==> final(self).values@[cell.entity.id as int]@
                    == old(self).values@[cell.entity.id as int]@.update(k, value)
                    && final(self).changed@[cell.entity.id as int]@
                    == old(self).changed@[cell.entity.id as int]@.update(k, old(self).change_tick),
            forall|i: int|
                0 <= i < old(self).values@.len() && i != cell.entity.id ==> #[trigger] final(self).values@[i]
                    == old(self).values@[i],
            forall|i: int|
                0 <= i < old(self).changed@.len() && i != cell.entity.id ==> #[trigger] final(self).changed@[i]
                    == old(self).changed@[i],
    {
        let i = cell.entity.id as usize;
        assert(self.entity_wf(i as int));
        let a = self.entities[i].location.unwrap().archetype_id.0;
        assert(self.archetype_shape_wf(a as int));
        let k = self.archetypes[a].position(cell.component).unwrap();
        self.values[i][k] = value;
        self.changed[i][k] = self.change_tick;
        proof {
            assert forall|other: ComponentCell| old(self).has(other) && other != cell implies
                #[trigger] self.value(other) == old(self).value(other)
                && #[trigger] self.changed_tick(other) == old(self).changed_tick(other) by {
                assert(old(self).entity_wf(other.entity.id as int));
                let b = old(self).entities@[other.entity.id as int].location->0.archetype_id.0 as int;
                let k = self.cell_position(other);
                assert(has_component_at(self.archetypes@[b].components@, other.component, k));
                assert(has_component_at(self.archetypes@[a as int].components@, cell.component,
                    self.cell_position(cell)));
            }
            self.extension_keeps_wf(*old(self));
        }
    }
}

} // verus!
