//! What a run that changes values leaves behind.
use vstd::prelude::*;
use crate::changed::ChangedFetch;
use crate::fetch::{pointed_at, Context, Fetch, Place, Slot, WorldQuery};
use crate::laws::batches::edits_in;
use crate::queries::{component_at_slot, ComponentState, PresenceFetch, UnitFetch, Write};
use crate::state::QueryState;
use crate::world::{ComponentCell, World};

verus! {

/// The value after an edit: the new one, if there is one.
pub open spec fn edited_value<C>(value: C, edit: Option<C>) -> C {
    match edit {
        Some(new) => new,
        None => value,
    }
}

/// The tick of the last write after an edit: the current one, if there is a new value.
pub open spec fn edited_tick<C>(tick: u32, change_tick: u32, edit: Option<C>) -> u32 {
    match edit {
        Some(_) => change_tick,
        None => tick,
    }
}

impl<C: 'static> World<C> {
    /// A cell has the same value as in the other world, and was last written at the same tick.
    pub open spec fn same_cell(&self, other: World<C>, cell: ComponentCell) -> bool {
        self.value(cell) == other.value(cell) && self.changed_tick(cell) == other.changed_tick(cell)
    }

    /// A cell is as in the world `before` after the edit.
    pub open spec fn cell_edited(
        &self,
        before: World<C>,
        cell: ComponentCell,
        edit: Option<C>,
    ) -> bool {
        &&& self.value(cell) == edited_value(before.value(cell), edit)
        &&& self.changed_tick(cell) == edited_tick(
            before.changed_tick(cell),
            before.change_tick,
            edit,
        )
    }
}

impl<C: 'static, const TAG: u64, const SPARSE: bool, F: WorldQuery<C>> QueryState<
    C,
    Write<TAG, SPARSE>,
    F,
> {
    /// The cell that the query gives for a row.
    pub open spec fn cell_at(&self, world: World<C>, slot: Slot) -> ComponentCell {
        ComponentCell { entity: world.entity_at(slot), component: self.fetch_state.component }
    }

    /// Each row has the component, and no two are of the same entity.
    pub open spec fn rows_for_edits(
        &self,
        world: World<C>,
        edits: Seq<(Slot, Option<C>)>,
    ) -> bool {
        &&& forall|i: int|
            0 <= i < edits.len() ==> world.has(self.cell_at(world, (#[trigger] edits[i]).0))
        &&& forall|i: int, j: int|
            0 <= i < j < edits.len() ==> world.entity_at((#[trigger] edits[i]).0)
                != world.entity_at((#[trigger] edits[j]).0)
    }

    proof fn first_edits(
        &self,
        before: World<C>,
        edits: Seq<(Slot, Option<C>)>,
        worlds: Seq<World<C>>,
        t: int,
    )
        requires
            self.apply_trace(edits, worlds),
            worlds[0] == before,
            self.rows_for_edits(before, edits),
            0 <= t <= edits.len(),
        ensures
            worlds[t].same_but_values(before),
            forall|k: int|
                0 <= k < t ==> worlds[t].cell_edited(
                    before,
                    self.cell_at(before, (#[trigger] edits[k]).0),
                    edits[k].1,
                ),
            forall|cell: ComponentCell|
                before.has(cell) && (forall|k: int|
                    0 <= k < t ==> cell != self.cell_at(before, (#[trigger] edits[k]).0))
                    ==> #[trigger] worlds[t].same_cell(before, cell),
        decreases t,
    {
        if t > 0 {
            self.first_edits(before, edits, worlds, t - 1);
            let last = edits[t - 1];
            let was = worlds[t - 1];
            let now = worlds[t];
            let cell = self.cell_at(before, last.0);
            assert(self.cell_at(was, last.0) == cell);
            assert(before.has(cell) && was.has(cell));
            assert forall|k: int| 0 <= k < t - 1 implies cell != self.cell_at(
                before,
                (#[trigger] edits[k]).0,
            ) by {
                assert(before.entity_at(edits[k].0) != before.entity_at(edits[t - 1].0));
            }
            assert(was.same_cell(before, cell));
            assert forall|k: int| 0 <= k < t implies now.cell_edited(
                before,
                self.cell_at(before, (#[trigger] edits[k]).0),
                edits[k].1,
            ) by {
                if k < t - 1 {
                    let earlier = self.cell_at(before, edits[k].0);
                    assert(was.has(earlier));
                    assert(was.cell_edited(before, earlier, edits[k].1));
                    assert(now.value(earlier) == was.value(earlier));
                    assert(now.changed_tick(earlier) == was.changed_tick(earlier));
                }
            }
            assert forall|other: ComponentCell|
                before.has(other) && (forall|k: int|
                    0 <= k < t ==> other != self.cell_at(before, (#[trigger] edits[k]).0))
                implies #[trigger] now.same_cell(before, other) by {
                assert(other != self.cell_at(before, edits[t - 1].0));
                assert(was.has(other));
                assert(was.same_cell(before, other));
                assert(now.value(other) == was.value(other));
                assert(now.changed_tick(other) == was.changed_tick(other));
            }
        }
    }

    /// An edit with a new value puts it into the component of the row's entity and notes the current
    /// tick; one without leaves both as they were.
    pub proof fn edit_is_made_or_not(
        &self,
        before: World<C>,
        slot: Slot,
        edit: Option<C>,
        after: World<C>,
    )
        ensures
            ({
                let entity = match slot.place {
                    Place::Table(table) => before.tables@[table.0 as int].entities@[slot.row as int],
                    Place::Archetype(archetype) => {
                        before.archetypes@[archetype.0 as int].entities@[slot.row as int]
                    },
                };
                let cell = ComponentCell { entity, component: self.fetch_state.component };
                &&& self.cell_at(before, slot) == cell
                &&& after.same_cell(before, cell) <==> after.value(cell) == before.value(cell)
                    && after.changed_tick(cell) == before.changed_tick(cell)
                &&& match edit {
                    Some(new) => after.cell_edited(before, cell, edit) <==> after.value(cell) == new
                        && after.changed_tick(cell) == before.change_tick,
                    None => after.cell_edited(before, cell, edit) <==> after.value(cell)
                        == before.value(cell) && after.changed_tick(cell) == before.changed_tick(
                        cell,
                    ),
                }
            }),
    {
    }

    /// Edits at rows of different entities all take hold, and leave every other component as it was,
    /// its value and the tick at which it was last written.
    pub proof fn edits_take_hold(
        &self,
        before: World<C>,
        edits: Seq<(Slot, Option<C>)>,
        after: World<C>,
    )
        requires
            self.applied(before, edits, after),
            self.rows_for_edits(before, edits),
        ensures
            after.same_but_values(before),
            forall|k: int|
                0 <= k < edits.len() ==> after.cell_edited(
                    before,
                    self.cell_at(before, (#[trigger] edits[k]).0),
                    edits[k].1,
                ),
            forall|cell: ComponentCell|
                before.has(cell) && (forall|k: int|
                    0 <= k < edits.len() ==> cell != self.cell_at(
                        before,
                        (#[trigger] edits[k]).0,
                    )) ==> #[trigger] after.same_cell(before, cell),
    {
        let worlds = choose|worlds: Seq<World<C>>| #[trigger]
            self.apply_trace(edits, worlds) && worlds[0] == before && worlds.last() == after;
        self.first_edits(before, edits, worlds, edits.len() as int);
    }

    /// A row that the query goes through has the component.
    proof fn row_has_cell(&self, world: World<C>, dense: bool, i: int)
        requires
            world.wf(),
            self.valid_for(world),
            dense ==> !SPARSE,
            0 <= i < world.slots_in(self.places(dense)).len(),
        ensures
            world.has(self.cell_at(world, world.slots_in(self.places(dense))[i])),
    {
        let slot = world.slots_in(self.places(dense))[i];
        self.slot_fits(world, dense, i);
        component_at_slot(
            Context { state: self.fetch_state, world, last_change_tick: 0, change_tick: 0 },
            slot.place,
            slot.row,
        );
    }
}

impl<C: 'static, const TAG: u64, const SPARSE: bool, F: WorldQuery<C>> QueryState<
    C,
    Write<TAG, SPARSE>,
    F,
> {
    /// Edits at rows that the query goes through, none of them twice, all take hold: the rows have
    /// the component, and no two are of the same entity.
    pub proof fn rows_take_edits(&self, world: World<C>, edits: Seq<(Slot, Option<C>)>)
        requires
            world.wf(),
            self.valid_for(world),
            forall|i: int|
                0 <= i < edits.len() ==> world.slots_in(self.places(Self::dense())).contains(
                    (#[trigger] edits[i]).0,
                ),
            forall|i: int, j: int|
                0 <= i < j < edits.len() ==> (#[trigger] edits[i]).0 != (#[trigger] edits[j]).0,
        ensures
            self.rows_for_edits(world, edits),
    {
        let slots = world.slots_in(self.places(Self::dense()));
        assert forall|i: int| 0 <= i < edits.len() implies world.has(
            self.cell_at(world, (#[trigger] edits[i]).0),
        ) by {
            let k = choose|k: int| 0 <= k < slots.len() && slots[k] == edits[i].0;
            self.row_has_cell(world, Self::dense(), k);
        }
        assert forall|i: int, j: int| 0 <= i < j < edits.len() implies world.entity_at(
            (#[trigger] edits[i]).0,
        ) != world.entity_at((#[trigger] edits[j]).0) by {
            let k = choose|k: int| 0 <= k < slots.len() && slots[k] == edits[i].0;
            let l = choose|l: int| 0 <= l < slots.len() && slots[l] == edits[j].0;
            if k < l {
                self.rows_are_apart(world, Self::dense(), k, l);
            } else {
                self.rows_are_apart(world, Self::dense(), l, k);
            }
        }
    }
}

impl<C: 'static, Q: WorldQuery<C>, F: WorldQuery<C>> QueryState<C, Q, F> {
    /// The edits that a run has made, row by row: one where the filter let the row through by then.
    proof fn edits_made<'w, S, FN>(
        &self,
        func: FN,
        slots: Seq<Slot>,
        last_change_tick: u32,
        change_tick: u32,
        trace: Seq<(S, World<C>)>,
    ) -> (edits: Seq<Option<Q::Edit>>) where
        FN: for<'b> Fn(
            S,
            <Q::Fetch<'b> as Fetch<'b, C>>::Item,
            <Q::ReadOnlyFetch<'b> as Fetch<'b, C>>::Item,
        ) -> (S, Q::Edit),

        requires
            self.run_trace(func, slots, last_change_tick, change_tick, trace),
        ensures
            edits.len() == slots.len(),
            forall|i: int|
                0 <= i < slots.len() ==> match #[trigger] edits[i] {
                    Some(edit) => {
                        &&& self.lets_through(
                            trace[i].1,
                            slots[i],
                            last_change_tick,
                            change_tick,
                        )
                        &&& self.row_edited(
                            func,
                            slots[i],
                            last_change_tick,
                            change_tick,
                            trace[i],
                            edit,
                            trace[i + 1],
                        )
                    },
                    None => {
                        &&& !self.lets_through(
                            trace[i].1,
                            slots[i],
                            last_change_tick,
                            change_tick,
                        )
                        &&& trace[i + 1] == trace[i]
                    },
                },
    {
        let edits = Seq::new(
            slots.len(),
            |i: int|
                if self.lets_through(trace[i].1, slots[i], last_change_tick, change_tick) {
                    Some(
                        choose|edit: Q::Edit| #[trigger]
                            self.row_edited(
                                func,
                                slots[i],
                                last_change_tick,
                                change_tick,
                                trace[i],
                                edit,
                                trace[i + 1],
                            ),
                    )
                } else {
                    None
                },
        );
        assert forall|i: int| 0 <= i < slots.len() implies match #[trigger] edits[i] {
            Some(edit) => {
                &&& self.lets_through(trace[i].1, slots[i], last_change_tick, change_tick)
                &&& self.row_edited(
                    func,
                    slots[i],
                    last_change_tick,
                    change_tick,
                    trace[i],
                    edit,
                    trace[i + 1],
                )
            },
            None => {
                &&& !self.lets_through(trace[i].1, slots[i], last_change_tick, change_tick)
                &&& trace[i + 1] == trace[i]
            },
        } by {
            assert(self.row_runs(
                func,
                slots[i],
                last_change_tick,
                change_tick,
                trace[i],
                trace[i + 1],
            ));
        }
        edits
    }
}

/// Between two worlds of the same layout, the components of the entity at a row are the same.
pub open spec fn same_row<C: 'static>(before: World<C>, now: World<C>, slot: Slot) -> bool {
    forall|cell: ComponentCell|
        before.has(cell) && cell.entity == before.entity_at(slot) ==> #[trigger] now.same_cell(
            before,
            cell,
        )
}

/// Where the components of a row are the same in two worlds of the same layout, the filter says the
/// same of it.
pub open spec fn row_decides<'w, C: 'static, FF: Fetch<'w, C>>(
    context: Context<FF::State, C>,
    now: World<C>,
    slot: Slot,
) -> bool {
    pointed_at(context, Some(slot.place), slot.row) && (slot.place is Table ==> FF::dense())
        && now.same_but_values(context.world) && same_row(context.world, now, slot)
        ==> FF::passes(Context { world: now, ..context }, slot) == FF::passes(context, slot)
}

/// The filter goes by the components of each row alone.
pub open spec fn filters_by_row<'w, C: 'static, FF: Fetch<'w, C>>() -> bool {
    forall|context: Context<FF::State, C>, now: World<C>, slot: Slot| #[trigger]
        row_decides::<C, FF>(context, now, slot)
}

/// The filter that lets everything through goes by row.
pub proof fn unit_filters_by_row<'w, C: 'static>()
    ensures
        filters_by_row::<C, UnitFetch<'w, C>>(),
{
}

/// The filters on presence go by row.
pub proof fn presence_filters_by_row<
    'w,
    C: 'static,
    const TAG: u64,
    const SPARSE: bool,
    const PRESENT: bool,
>()
    ensures
        filters_by_row::<C, PresenceFetch<'w, C, TAG, SPARSE, PRESENT>>(),
{
}

/// The filter on what was written goes by row.
pub proof fn changed_filters_by_row<'w, C: 'static, const TAG: u64, const SPARSE: bool>()
    ensures
        filters_by_row::<C, ChangedFetch<'w, C, TAG, SPARSE>>(),
{
    assert forall|
        context: Context<ComponentState<TAG, SPARSE, false>, C>,
        now: World<C>,
        slot: Slot,
    | #[trigger]
        row_decides::<C, ChangedFetch<'w, C, TAG, SPARSE>>(context, now, slot) by {
        if pointed_at(context, Some(slot.place), slot.row) && (slot.place is Table ==> !SPARSE)
            && now.same_but_values(context.world) && same_row(context.world, now, slot) {
            component_at_slot(context, slot.place, slot.row);
            let cell = ComponentCell {
                entity: context.world.entity_at(slot),
                component: context.state.component,
            };
            assert(now.same_cell(context.world, cell));
            assert(now.entity_at(slot) == context.world.entity_at(slot));
        }
    }
}

impl<C: 'static, const TAG: u64, const SPARSE: bool, F: WorldQuery<C>> QueryState<
    C,
    Write<TAG, SPARSE>,
    F,
> {
    /// A run over the rows of the query is as good as a list of edits, one for each row, that were
    /// asked for in the starting world.
    ///
    /// Gives the values that were handed on from row to row, and the edits.
    proof fn run_as_edits<
        'w,
        S,
        FN: for<'b> Fn(S, ComponentCell, &'b C) -> (S, Option<C>),
    >(
        &self,
        func: FN,
        last_change_tick: u32,
        change_tick: u32,
        start: S,
        before: World<C>,
        end: S,
        after: World<C>,
    ) -> (made: (Seq<S>, Seq<(Slot, Option<C>)>))
        requires
            before.wf(),
            self.valid_for(before),
            filters_by_row::<C, F::Fetch<'w>>(),
            self.runs(
                func,
                before.slots_in(self.places(Self::dense())),
                last_change_tick,
                change_tick,
                (start, before),
                (end, after),
            ),
        ensures
            ({
                let slots = before.slots_in(self.places(Self::dense()));
                &&& made.0.len() == slots.len() + 1
                &&& made.1.len() == slots.len()
                &&& self.applied(before, made.1, after)
                &&& self.rows_for_edits(before, made.1)
                &&& forall|i: int|
                    0 <= i < slots.len() ==> {
                        let cell = self.cell_at(before, slots[i]);
                        &&& (#[trigger] made.1[i]).0 == slots[i]
                        &&& if self.lets_through(
                            before,
                            slots[i],
                            last_change_tick,
                            change_tick,
                        ) {
                            call_ensures(
                                func,
                                (made.0[i], cell, &before.value(cell)),
                                (made.0[i + 1], made.1[i].1),
                            )
                        } else {
                            made.1[i].1 is None
                        }
                    }
            }),
    {
        let slots = before.slots_in(self.places(Self::dense()));
        let trace = choose|trace: Seq<(S, World<C>)>| #[trigger]
            self.run_trace(func, slots, last_change_tick, change_tick, trace) && trace[0] == (
                start,
                before,
            ) && trace.last() == (end, after);
        let asked = self.edits_made(func, slots, last_change_tick, change_tick, trace);
        let edits = Seq::new(
            slots.len(),
            |i: int|
                (
                    slots[i],
                    match asked[i] {
                        Some(edit) => edit,
                        None => None,
                    },
                ),
        );
        let worlds = trace.map_values(|t: (S, World<C>)| t.1);
        let values = trace.map_values(|t: (S, World<C>)| t.0);
        assert forall|i: int| 0 <= i < edits.len() implies <Write<TAG, SPARSE> as WorldQuery<
            C,
        >>::edited(
            worlds[i],
            self.fetch_state,
            (#[trigger] edits[i]).0,
            edits[i].1,
            worlds[i + 1],
        ) by {
            match asked[i] {
                Some(edit) => {},
                None => {},
            }
        }
        assert(self.apply_trace(edits, worlds));
        assert(self.applied(before, edits, after));
        assert forall|k: int| 0 <= k < edits.len() implies before.has(
            self.cell_at(before, (#[trigger] edits[k]).0),
        ) by {
            self.row_has_cell(before, Self::dense(), k);
        }
        assert forall|k: int, l: int| 0 <= k < l < edits.len() implies before.entity_at(
            (#[trigger] edits[k]).0,
        ) != before.entity_at((#[trigger] edits[l]).0) by {
            self.rows_are_apart(before, Self::dense(), k, l);
        }
        assert forall|i: int| 0 <= i < slots.len() implies {
            let cell = self.cell_at(before, slots[i]);
            &&& (#[trigger] edits[i]).0 == slots[i]
            &&& if self.lets_through(before, slots[i], last_change_tick, change_tick) {
                call_ensures(
                    func,
                    (values[i], cell, &before.value(cell)),
                    (values[i + 1], edits[i].1),
                )
            } else {
                edits[i].1 is None
            }
        } by {
            let slot = slots[i];
            let now = worlds[i];
            let cell = self.cell_at(before, slot);
            self.first_edits(before, edits, worlds, i);
            assert(same_row(before, now, slot)) by {
                assert forall|other: ComponentCell|
                    before.has(other) && other.entity == before.entity_at(slot)
                    implies #[trigger] now.same_cell(before, other) by {
                    assert forall|k: int| 0 <= k < i implies other != self.cell_at(
                        before,
                        (#[trigger] edits[k]).0,
                    ) by {
                        assert(before.entity_at(edits[k].0) != before.entity_at(edits[i].0));
                    }
                }
            }
            self.slot_fits(before, Self::dense(), i);
            assert(row_decides::<C, F::Fetch<'w>>(
                self.filter_context(before, last_change_tick, change_tick),
                now,
                slot,
            ));
            assert(self.lets_through(now, slot, last_change_tick, change_tick)
                == self.lets_through(before, slot, last_change_tick, change_tick));
            assert(before.has(self.cell_at(before, edits[i].0)));
            assert(now.same_cell(before, cell));
            match asked[i] {
                Some(edit) => {
                    assert(self.row_edited(
                        func,
                        slot,
                        last_change_tick,
                        change_tick,
                        trace[i],
                        edit,
                        trace[i + 1],
                    ));
                },
                None => {},
            }
        }
        (values, edits)
    }

    /// A run over all results calls the function on each with the value that it had before the run,
    /// and leaves there what the call asked for. Which rows are results is decided before the run.
    ///
    /// Gives the value that was handed to the call for row `i`, the value that it gave, and the edit.
    pub proof fn each_is_edited_once<
        'w,
        S,
        FN: for<'b> Fn(S, ComponentCell, &'b C) -> (S, Option<C>),
    >(
        &self,
        func: FN,
        last_change_tick: u32,
        change_tick: u32,
        start: S,
        before: World<C>,
        end: S,
        after: World<C>,
        i: int,
    ) -> (made: (S, S, Option<C>))
        requires
            before.wf(),
            self.valid_for(before),
            filters_by_row::<C, F::Fetch<'w>>(),
            self.runs(
                func,
                before.slots_in(self.places(Self::dense())),
                last_change_tick,
                change_tick,
                (start, before),
                (end, after),
            ),
            0 <= i < before.slots_in(self.places(Self::dense())).len(),
            self.lets_through(
                before,
                before.slots_in(self.places(Self::dense()))[i],
                last_change_tick,
                change_tick,
            ),
        ensures
            ({
                let cell = self.cell_at(before, before.slots_in(self.places(Self::dense()))[i]);
                &&& call_ensures(func, (made.0, cell, &before.value(cell)), (made.1, made.2))
                &&& after.cell_edited(before, cell, made.2)
            }),
    {
        let (values, edits) = self.run_as_edits::<S, FN>(
            func,
            last_change_tick,
            change_tick,
            start,
            before,
            end,
            after,
        );
        self.edits_take_hold(before, edits, after);
        assert(edits[i].0 == before.slots_in(self.places(Self::dense()))[i]);
        (values[i], values[i + 1], edits[i].1)
    }

    /// A run over all results leaves every component but theirs as it was.
    pub proof fn run_leaves_the_rest<
        'w,
        S,
        FN: for<'b> Fn(S, ComponentCell, &'b C) -> (S, Option<C>),
    >(
        &self,
        func: FN,
        last_change_tick: u32,
        change_tick: u32,
        start: S,
        before: World<C>,
        end: S,
        after: World<C>,
        cell: ComponentCell,
    )
        requires
            before.wf(),
            self.valid_for(before),
            filters_by_row::<C, F::Fetch<'w>>(),
            self.runs(
                func,
                before.slots_in(self.places(Self::dense())),
                last_change_tick,
                change_tick,
                (start, before),
                (end, after),
            ),
            before.has(cell),
            forall|i: int|
                0 <= i < before.slots_in(self.places(Self::dense())).len() && self.lets_through(
                    before,
                    before.slots_in(self.places(Self::dense()))[i],
                    last_change_tick,
                    change_tick,
                ) ==> cell != self.cell_at(
                    before,
                    #[trigger] before.slots_in(self.places(Self::dense()))[i],
                ),
        ensures
            after.same_cell(before, cell),
    {
        let slots = before.slots_in(self.places(Self::dense()));
        let (values, edits) = self.run_as_edits::<S, FN>(
            func,
            last_change_tick,
            change_tick,
            start,
            before,
            end,
            after,
        );
        self.edits_take_hold(before, edits, after);
        if exists|i: int|
            0 <= i < edits.len() && cell == self.cell_at(before, (#[trigger] edits[i]).0) {
            let i = choose|i: int|
                0 <= i < edits.len() && cell == self.cell_at(before, (#[trigger] edits[i]).0);
            assert(edits[i].0 == slots[i]);
            assert(after.cell_edited(before, cell, edits[i].1));
        }
    }

    /// Running the batches of a query, all in the same world, and then making the edits that they
    /// asked for, gives each result what the function asked for it there, and leaves every other
    /// component as it was.
    pub proof fn batches_edit_each_once<
        'w,
        S,
        FN: for<'b> Fn(S, ComponentCell, &'b C) -> (S, Option<C>),
    >(
        &self,
        func: FN,
        last_change_tick: u32,
        change_tick: u32,
        batch_size: int,
        starts: Seq<S>,
        ends: Seq<S>,
        asked: Seq<Seq<(Slot, Option<C>)>>,
        before: World<C>,
        after: World<C>,
    )
        requires
            before.wf(),
            self.valid_for(before),
            batch_size > 0 || self.rowless(before, Self::dense()),
            self.batches_ask(
                func,
                last_change_tick,
                change_tick,
                before,
                before.batches_in(self.places(Self::dense()), batch_size),
                starts,
                ends,
                asked,
            ),
            self.applied(before, edits_in(asked), after),
        ensures
            ({
                let rows = self.rows(before, last_change_tick, change_tick, Self::dense());
                let edits = edits_in(asked);
                &&& edits.len() == rows.len()
                &&& after.same_but_values(before)
                &&& forall|i: int|
                    0 <= i < rows.len() ==> {
                        &&& (#[trigger] edits[i]).0 == rows[i]
                        &&& self.asked_at(func, last_change_tick, change_tick, before, edits[i])
                        &&& after.cell_edited(before, self.cell_at(before, rows[i]), edits[i].1)
                    }
                &&& forall|cell: ComponentCell|
                    before.has(cell) && (forall|i: int|
                        0 <= i < rows.len() ==> cell != self.cell_at(before, #[trigger] rows[i]))
                        ==> #[trigger] after.same_cell(before, cell)
            }),
    {
        let dense = Self::dense();
        let rows = self.rows(before, last_change_tick, change_tick, dense);
        let slots = before.slots_in(self.places(dense));
        let edits = edits_in(asked);
        self.batches_ask_for_each_row(
            func,
            last_change_tick,
            change_tick,
            before,
            batch_size,
            dense,
            starts,
            ends,
            asked,
        );
        self.rows_are(before, last_change_tick, change_tick, dense);
        self.slots_are(before, dense);
        assert forall|i: int| 0 <= i < edits.len() implies slots.contains(
            (#[trigger] edits[i]).0,
        ) by {
            assert(rows.contains(rows[i]));
        }
        assert forall|i: int, j: int| 0 <= i < j < edits.len() implies (#[trigger] edits[i]).0 != (
        #[trigger] edits[j]).0 by {
            assert(rows[i] != rows[j]);
        }
        self.rows_take_edits(before, edits);
        self.edits_take_hold(before, edits, after);
        assert forall|cell: ComponentCell|
            before.has(cell) && (forall|i: int|
                0 <= i < rows.len() ==> cell != self.cell_at(before, #[trigger] rows[i]))
            implies #[trigger] after.same_cell(before, cell) by {
            assert forall|k: int| 0 <= k < edits.len() implies cell != self.cell_at(
                before,
                (#[trigger] edits[k]).0,
            ) by {
                assert(cell != self.cell_at(before, rows[k]));
            }
        }
    }
}

} // verus!
