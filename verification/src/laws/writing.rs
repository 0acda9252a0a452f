//! Items to write to: they never meet, and what is written through them is read back.
use vstd::prelude::*;
use crate::error::QueryEntityError;
use crate::fetch::{Fetch, WorldQuery};
use crate::ids::Entity;
use crate::queries::{ReadFetch, Write, WriteFetch};
use crate::state::QueryState;
use crate::world::{ComponentCell, World};

verus! {

impl<C: 'static, const TAG: u64, const SPARSE: bool, F: WorldQuery<C>> QueryState<
    C,
    Write<TAG, SPARSE>,
    F,
> {
    /// The cells that are given for several entities, none of them asked for twice, are of those
    /// entities, and no two of them are the same.
    pub proof fn cells_are_apart<'w>(
        &self,
        world: World<C>,
        entities: Seq<Entity>,
        last_change_tick: u32,
        change_tick: u32,
        cells: Seq<ComponentCell>,
        i: int,
        j: int,
    )
        requires
            world.wf(),
            self.valid_for(world),
            self.looks_up_unique::<WriteFetch<'w, C, TAG, SPARSE>>(
                world,
                entities,
                last_change_tick,
                change_tick,
                Ok(cells),
            ),
            0 <= i < j < entities.len(),
        ensures
            cells[i].entity == entities[i],
            cells[j].entity == entities[j],
            world.has(cells[i]),
            world.has(cells[j]),
            cells[i] != cells[j],
    {
        self.unique_items_are_apart::<WriteFetch<'w, C, TAG, SPARSE>>(
            world,
            entities,
            last_change_tick,
            change_tick,
            cells,
            i,
            j,
        );
        self.cell_of_entity(world, entities[i], last_change_tick, change_tick, cells[i]);
        self.cell_of_entity(world, entities[j], last_change_tick, change_tick, cells[j]);
    }

    /// The cell that is given for an entity is one of that entity, and holds a value.
    pub proof fn cell_of_entity<'w>(
        &self,
        world: World<C>,
        entity: Entity,
        last_change_tick: u32,
        change_tick: u32,
        cell: ComponentCell,
    )
        requires
            world.wf(),
            self.valid_for(world),
            self.lookup::<WriteFetch<'w, C, TAG, SPARSE>>(
                world,
                entity,
                last_change_tick,
                change_tick,
            ) == Ok::<ComponentCell, QueryEntityError>(cell),
        ensures
            cell == (ComponentCell { entity, component: self.fetch_state.component }),
            world.has(cell),
    {
        assert(world.entity_wf(entity.id as int));
        let id = world.locate(entity)->0.archetype_id;
        let i = choose|i: int|
            0 <= i < self.matched_archetype_ids@.len() && self.matched_archetype_ids@[i] == id;
        assert(self.matched().archetypes[i] == id);
    }

    /// What is written through the item of an entity is what the query then reads of it, and what it
    /// reads of any other entity stays the same, as long as the filter treats the rows of the two as
    /// before.
    pub proof fn written_is_read_back<'w>(
        &self,
        before: World<C>,
        after: World<C>,
        entity: Entity,
        other: Entity,
        last_change_tick: u32,
        change_tick: u32,
        cell: ComponentCell,
        value: C,
    )
        requires
            before.wf(),
            self.valid_for(before),
            self.lookup::<WriteFetch<'w, C, TAG, SPARSE>>(
                before,
                entity,
                last_change_tick,
                change_tick,
            ) == Ok::<ComponentCell, QueryEntityError>(cell),
            after.written(before, cell, value),
            other != entity,
            <F::Fetch<'w> as Fetch<'w, C>>::passes(
                self.filter_context(after, last_change_tick, change_tick),
                before.row_of(entity),
            ),
            before.locate(other) is Some ==> <F::Fetch<'w> as Fetch<'w, C>>::passes(
                self.filter_context(after, last_change_tick, change_tick),
                before.row_of(other),
            ) == <F::Fetch<'w> as Fetch<'w, C>>::passes(
                self.filter_context(before, last_change_tick, change_tick),
                before.row_of(other),
            ),
        ensures
            self.lookup::<ReadFetch<'w, C, TAG, SPARSE, true>>(
                after,
                entity,
                last_change_tick,
                change_tick,
            ) == Ok::<&C, QueryEntityError>(&value),
            self.lookup::<ReadFetch<'w, C, TAG, SPARSE, true>>(
                after,
                other,
                last_change_tick,
                change_tick,
            ) == self.lookup::<ReadFetch<'w, C, TAG, SPARSE, true>>(
                before,
                other,
                last_change_tick,
                change_tick,
            ),
    {
        self.cell_of_entity(before, entity, last_change_tick, change_tick, cell);
        assert(before.entity_wf(entity.id as int));
        let found = self.lookup::<WriteFetch<'w, C, TAG, SPARSE>>(
            before,
            other,
            last_change_tick,
            change_tick,
        );
        if let Ok(other_cell) = found {
            assert(before.entity_wf(other.id as int));
            self.cell_of_entity(before, other, last_change_tick, change_tick, other_cell);
            assert(after.value(other_cell) == before.value(other_cell));
        }
    }
}

} // verus!
