//! Running a function that changes what it is run on.
//!
//! The function takes the value so far, an item to write to, and what is to be read there now. It
//! gives the next value, and what is to be changed. The change is made before the next row is
//! looked at.
use vstd::prelude::*;
use crate::fetch::{table_matched_by, Fetch, FetchState, Place, Slot, WorldQuery};
use crate::ids::Entity;
use crate::state::{archetype_fits, QueryState};
use crate::world::World;

verus! {

impl<C: 'static, Q: WorldQuery<C>, F: WorldQuery<C>> QueryState<C, Q, F> {
    /// The filter lets the row through, in the given world.
    pub open spec fn lets_through<'w>(
        &self,
        world: World<C>,
        slot: Slot,
        last_change_tick: u32,
        change_tick: u32,
    ) -> bool {
        <F::Fetch<'w> as Fetch<'w, C>>::passes(
            self.filter_context(world, last_change_tick, change_tick),
            slot,
        )
    }

    /// What a function is called with for a row, in the given world.
    pub open spec fn call_at<'w, S>(
        &self,
        s: S,
        world: World<C>,
        slot: Slot,
        last_change_tick: u32,
        change_tick: u32,
    ) -> (S, <Q::Fetch<'w> as Fetch<'w, C>>::Item, <Q::ReadOnlyFetch<'w> as Fetch<'w, C>>::Item) {
        let context = self.fetch_context(world, last_change_tick, change_tick);
        (
            s,
            <Q::Fetch<'w> as Fetch<'w, C>>::item(context, slot),
            <Q::ReadOnlyFetch<'w> as Fetch<'w, C>>::item(context, slot),
        )
    }

    /// Calling `func` for a row can ask for the edit, and the edit was made.
    pub open spec fn row_edited<'w, S, FN>(
        &self,
        func: FN,
        slot: Slot,
        last_change_tick: u32,
        change_tick: u32,
        before: (S, World<C>),
        edit: Q::Edit,
        after: (S, World<C>),
    ) -> bool where
        FN: for<'b> Fn(
            S,
            <Q::Fetch<'b> as Fetch<'b, C>>::Item,
            <Q::ReadOnlyFetch<'b> as Fetch<'b, C>>::Item,
        ) -> (S, Q::Edit),
     {
        &&& call_ensures(
            func,
            self.call_at(before.0, before.1, slot, last_change_tick, change_tick),
            (after.0, edit),
        )
        &&& Q::edited(before.1, self.fetch_state, slot, edit, after.1)
    }

    /// What one row can make of a value and the world: if the filter lets the row through, `func` is
    /// called and its edit is made.
    pub open spec fn row_runs<'w, S, FN>(
        &self,
        func: FN,
        slot: Slot,
        last_change_tick: u32,
        change_tick: u32,
        before: (S, World<C>),
        after: (S, World<C>),
    ) -> bool where
        FN: for<'b> Fn(
            S,
            <Q::Fetch<'b> as Fetch<'b, C>>::Item,
            <Q::ReadOnlyFetch<'b> as Fetch<'b, C>>::Item,
        ) -> (S, Q::Edit),
     {
        if self.lets_through(before.1, slot, last_change_tick, change_tick) {
            exists|edit: Q::Edit| #[trigger]
                self.row_edited(func, slot, last_change_tick, change_tick, before, edit, after)
        } else {
            after == before
        }
    }

    /// The values and worlds that running `func` on the rows in turn can go through.
    pub open spec fn run_trace<'w, S, FN>(
        &self,
        func: FN,
        slots: Seq<Slot>,
        last_change_tick: u32,
        change_tick: u32,
        trace: Seq<(S, World<C>)>,
    ) -> bool where
        FN: for<'b> Fn(
            S,
            <Q::Fetch<'b> as Fetch<'b, C>>::Item,
            <Q::ReadOnlyFetch<'b> as Fetch<'b, C>>::Item,
        ) -> (S, Q::Edit),
     {
        &&& trace.len() == slots.len() + 1
        &&& forall|i: int|
            0 <= i < slots.len() ==> self.row_runs(
                func,
                #[trigger] slots[i],
                last_change_tick,
                change_tick,
                trace[i],
                trace[i + 1],
            )
    }

    /// Starting from a value and a world, running `func` on the rows in turn can lead to `end`.
    pub open spec fn runs<'w, S, FN>(
        &self,
        func: FN,
        slots: Seq<Slot>,
        last_change_tick: u32,
        change_tick: u32,
        start: (S, World<C>),
        end: (S, World<C>),
    ) -> bool where
        FN: for<'b> Fn(
            S,
            <Q::Fetch<'b> as Fetch<'b, C>>::Item,
            <Q::ReadOnlyFetch<'b> as Fetch<'b, C>>::Item,
        ) -> (S, Q::Edit),
     {
        exists|trace: Seq<(S, World<C>)>| #[trigger]
            self.run_trace(func, slots, last_change_tick, change_tick, trace) && trace[0] == start
                && trace.last() == end
    }

    /// Starting from a value and a world, `func` can be called for each of the rows that the filter
    /// lets through by then, with each value and in each world that the rows before can have led to.
    pub open spec fn runnable<'w, S, FN>(
        &self,
        func: FN,
        slots: Seq<Slot>,
        last_change_tick: u32,
        change_tick: u32,
        start: (S, World<C>),
    ) -> bool where
        FN: for<'b> Fn(
            S,
            <Q::Fetch<'b> as Fetch<'b, C>>::Item,
            <Q::ReadOnlyFetch<'b> as Fetch<'b, C>>::Item,
        ) -> (S, Q::Edit),
     {
        forall|i: int, s: S, now: World<C>|
            0 <= i < slots.len() && now.wf() && now.same_but_values(start.1) && self.runs(
                func,
                slots.take(i),
                last_change_tick,
                change_tick,
                start,
                (s, now),
            ) && self.lets_through(now, slots[i], last_change_tick, change_tick)
                ==> #[trigger] call_requires(
                func,
                self.call_at(s, now, slots[i], last_change_tick, change_tick),
            )
    }

    pub proof fn runs_none<'w, S, FN>(
        &self,
        func: FN,
        last_change_tick: u32,
        change_tick: u32,
        start: (S, World<C>),
    ) where
        FN: for<'b> Fn(
            S,
            <Q::Fetch<'b> as Fetch<'b, C>>::Item,
            <Q::ReadOnlyFetch<'b> as Fetch<'b, C>>::Item,
        ) -> (S, Q::Edit),

        ensures
            self.runs(func, Seq::empty(), last_change_tick, change_tick, start, start),
    {
        assert(self.run_trace(func, Seq::empty(), last_change_tick, change_tick, seq![start]));
    }

    pub proof fn runs_push<'w, S, FN>(
        &self,
        func: FN,
        slots: Seq<Slot>,
        slot: Slot,
        last_change_tick: u32,
        change_tick: u32,
        start: (S, World<C>),
        middle: (S, World<C>),
        end: (S, World<C>),
    ) where
        FN: for<'b> Fn(
            S,
            <Q::Fetch<'b> as Fetch<'b, C>>::Item,
            <Q::ReadOnlyFetch<'b> as Fetch<'b, C>>::Item,
        ) -> (S, Q::Edit),

        requires
            self.runs(func, slots, last_change_tick, change_tick, start, middle),
            self.row_runs(func, slot, last_change_tick, change_tick, middle, end),
        ensures
            self.runs(func, slots.push(slot), last_change_tick, change_tick, start, end),
    {
        let trace = choose|trace: Seq<(S, World<C>)>| #[trigger]
            self.run_trace(func, slots, last_change_tick, change_tick, trace) && trace[0] == start
                && trace.last() == middle;
        let longer = trace.push(end);
        assert forall|i: int| 0 <= i < slots.push(slot).len() implies self.row_runs(
            func,
            #[trigger] slots.push(slot)[i],
            last_change_tick,
            change_tick,
            longer[i],
            longer[i + 1],
        ) by {
            if i < slots.len() {
                assert(self.row_runs(
                    func,
                    slots[i],
                    last_change_tick,
                    change_tick,
                    trace[i],
                    trace[i + 1],
                ));
            }
        }
        assert(self.run_trace(func, slots.push(slot), last_change_tick, change_tick, longer));
    }

    /// Calls `func` for a row, if the filter lets the row through.
    pub(crate) fn visit_row<'w, S, FN>(
        &self,
        world: &'w World<C>,
        slot: Slot,
        value: S,
        func: &FN,
        last_change_tick: u32,
        change_tick: u32,
    ) -> (visited: (S, Option<Q::Edit>)) where
        FN: for<'b> Fn(
            S,
            <Q::Fetch<'b> as Fetch<'b, C>>::Item,
            <Q::ReadOnlyFetch<'b> as Fetch<'b, C>>::Item,
        ) -> (S, Q::Edit),

        requires
            world.wf(),
            self.ready(*world),
            self.place_fits(*world, slot.place),
            world.has_slot(slot),
            slot.place is Table ==> Self::dense(),
            self.lets_through(*world, slot, last_change_tick, change_tick) ==> call_requires(
                *func,
                self.call_at(value, *world, slot, last_change_tick, change_tick),
            ),
        ensures
            match visited.1 {
                Some(edit) => {
                    &&& self.lets_through(*world, slot, last_change_tick, change_tick)
                    &&& call_ensures(
                        *func,
                        self.call_at(value, *world, slot, last_change_tick, change_tick),
                        (visited.0, edit),
                    )
                },
                None => {
                    &&& !self.lets_through(*world, slot, last_change_tick, change_tick)
                    &&& visited.0 == value
                },
            },
    {
        let mut fetch = <Q::Fetch<'w> as Fetch<'w, C>>::init(
            world,
            &self.fetch_state,
            last_change_tick,
            change_tick,
        );
        let mut filter = <F::Fetch<'w> as Fetch<'w, C>>::init(
            world,
            &self.filter_state,
            last_change_tick,
            change_tick,
        );
        self.point_at::<Q::Fetch<'w>, F::Fetch<'w>>(&mut fetch, &mut filter, slot.place);
        let passes = match slot.place {
            Place::Table(_) => filter.table_filter_fetch(slot.row),
            Place::Archetype(_) => filter.archetype_filter_fetch(slot.row),
        };
        if !passes {
            return (value, None);
        }
        proof {
            Q::read_only_is_as_dense();
        }
        let mut reader = <Q::ReadOnlyFetch<'w> as Fetch<'w, C>>::init(
            world,
            &self.fetch_state,
            last_change_tick,
            change_tick,
        );
        self.point_at::<Q::ReadOnlyFetch<'w>, F::Fetch<'w>>(&mut reader, &mut filter, slot.place);
        let (item, read) = match slot.place {
            Place::Table(_) => (fetch.table_fetch(slot.row), reader.table_fetch(slot.row)),
            Place::Archetype(_) => {
                (fetch.archetype_fetch(slot.row), reader.archetype_fetch(slot.row))
            },
        };
        let (next, edit) = func(value, item, read);
        (next, Some(edit))
    }

    /// Runs `func` on a row, and makes its edit.
    pub(crate) fn run_row<S, FN>(
        &self,
        world: &mut World<C>,
        slot: Slot,
        value: S,
        func: &FN,
        last_change_tick: u32,
        change_tick: u32,
    ) -> (next: S) where
        FN: for<'b> Fn(
            S,
            <Q::Fetch<'b> as Fetch<'b, C>>::Item,
            <Q::ReadOnlyFetch<'b> as Fetch<'b, C>>::Item,
        ) -> (S, Q::Edit),

        requires
            old(world).wf(),
            self.ready(*old(world)),
            self.place_fits(*old(world), slot.place),
            old(world).has_slot(slot),
            slot.place is Table ==> Self::dense(),
            self.lets_through(*old(world), slot, last_change_tick, change_tick) ==> call_requires(
                *func,
                self.call_at(value, *old(world), slot, last_change_tick, change_tick),
            ),
        ensures
            final(world).wf(),
            final(world).same_but_values(*old(world)),
            self.row_runs(
                *func,
                slot,
                last_change_tick,
                change_tick,
                (value, *old(world)),
                (next, *final(world)),
            ),
    {
        let (next, edit) = self.visit_row(
            world,
            slot,
            value,
            func,
            last_change_tick,
            change_tick,
        );
        if let Some(edit) = edit {
            Q::apply(world, &self.fetch_state, slot, edit);
            assert(self.row_edited(
                *func,
                slot,
                last_change_tick,
                change_tick,
                (value, *old(world)),
                edit,
                (next, *world),
            ));
        }
        next
    }

    /// Other values leave a query as it is, and the rows that it goes through.
    pub proof fn values_keep_query(&self, before: World<C>, after: World<C>)
        requires
            after.same_but_values(before),
        ensures
            after.later_than(before),
            self.ready(before) ==> self.ready(after),
            self.valid_for(before) ==> self.valid_for(after),
            forall|place: Place| #[trigger]
                self.place_fits(before, place) ==> self.place_fits(after, place),
    {
        if self.ready(before) {
            self.fetch_state.ready_persists(before, after);
            self.filter_state.ready_persists(before, after);
        }
        if self.valid_for(before) {
            let matched = self.matched();
            assert forall|j: int| 0 <= j < matched.tables.len() implies matched.table_owned(
                after,
                #[trigger] matched.tables[j],
            ) by {
                let table = matched.tables[j];
                assert(matched.table_owned(before, table));
                let i = choose|i: int| #[trigger] matched.table_owned_by(before, table, i);
                assert(matched.table_owned_by(after, table, i));
            }
            assert forall|i: int| 0 <= i < matched.archetypes.len() implies archetype_fits(
                self.fetch_state,
                self.filter_state,
                after,
                #[trigger] matched.archetypes[i],
            ) by {
                assert(archetype_fits(
                    self.fetch_state,
                    self.filter_state,
                    before,
                    matched.archetypes[i],
                ));
            }
        }
        assert forall|place: Place| #[trigger] self.place_fits(before, place) implies self.place_fits(
            after,
            place,
        ) by {
            if let Place::Table(table) = place {
                let a = choose|a: int| table_matched_by(self.fetch_state, before, table, a);
                assert(table_matched_by(self.fetch_state, after, table, a));
                let b = choose|b: int| table_matched_by(self.filter_state, before, table, b);
                assert(table_matched_by(self.filter_state, after, table, b));
            }
        }
    }

    /// Runs `func` on the rows of the query in turn.
    fn run_rows<S, FN>(
        &self,
        world: &mut World<C>,
        start: S,
        func: &FN,
        last_change_tick: u32,
        change_tick: u32,
    ) -> (end: S) where
        FN: for<'b> Fn(
            S,
            <Q::Fetch<'b> as Fetch<'b, C>>::Item,
            <Q::ReadOnlyFetch<'b> as Fetch<'b, C>>::Item,
        ) -> (S, Q::Edit),

        requires
            old(world).wf(),
            self.valid_for(*old(world)),
            self.runnable(
                *func,
                old(world).slots_in(self.places(Self::dense())),
                last_change_tick,
                change_tick,
                (start, *old(world)),
            ),
        ensures
            final(world).wf(),
            final(world).same_but_values(*old(world)),
            self.valid_for(*final(world)),
            self.runs(
                *func,
                old(world).slots_in(self.places(Self::dense())),
                last_change_tick,
                change_tick,
                (start, *old(world)),
                (end, *final(world)),
            ),
    {
        let dense = <Q::Fetch<'static> as Fetch<'static, C>>::is_dense() && <F::Fetch<
            'static,
        > as Fetch<'static, C>>::is_dense();
        let count = if dense {
            self.matched_table_ids.len()
        } else {
            self.matched_archetype_ids.len()
        };
        let ghost first = *world;
        let ghost places = self.places(dense);
        let ghost all = first.slots_in(places);
        let mut value = start;
        let mut i: usize = 0;
        proof {
            self.runs_none(*func, last_change_tick, change_tick, (start, first));
            assert(first.slots_in(places.take(0)) =~= Seq::empty());
        }
        while i < count
            invariant
                i <= count,
                count == places.len(),
                dense == Self::dense(),
                places == self.places(dense),
                first.wf(),
                self.valid_for(first),
                all == first.slots_in(places),
                self.runnable(*func, all, last_change_tick, change_tick, (start, first)),
                world.wf(),
                world.same_but_values(first),
                self.runs(
                    *func,
                    first.slots_in(places.take(i as int)),
                    last_change_tick,
                    change_tick,
                    (start, first),
                    (value, *world),
                ),
            decreases count - i,
        {
            let place = if dense {
                Place::Table(self.matched_table_ids[i])
            } else {
                Place::Archetype(self.matched_archetype_ids[i])
            };
            let ghost before = first.slots_in(places.take(i as int));
            let ghost slots = first.slots_at(place);
            proof {
                assert(place == places[i as int]);
                self.places_fit(first, dense, i as int);
                first.slots_in_next(places, i as int);
                first.slots_in_prefix(places, i + 1);
                assert(before + slots.take(0) =~= before);
            }
            let len = match place {
                Place::Table(table) => world.tables[table.index()].len(),
                Place::Archetype(archetype) => world.archetypes[archetype.index()].len(),
            };
            let mut row: usize = 0;
            while row < len
                invariant
                    row <= len,
                    len == slots.len(),
                    slots == first.slots_at(place),
                    len == first.entities_at(place).len(),
                    self.place_fits(first, place),
                    place is Table ==> Self::dense(),
                    first.wf(),
                    self.valid_for(first),
                    (before + slots).is_prefix_of(all),
                    self.runnable(*func, all, last_change_tick, change_tick, (start, first)),
                    world.wf(),
                    world.same_but_values(first),
                    self.runs(
                        *func,
                        before + slots.take(row as int),
                        last_change_tick,
                        change_tick,
                        (start, first),
                        (value, *world),
                    ),
                decreases len - row,
            {
                let slot = Slot { place, row };
                let ghost middle = (value, *world);
                proof {
                    self.values_keep_query(first, *world);
                    assert((before + slots)[before.len() + row] == slot);
                    assert(all[before.len() + row] == slot);
                    assert(all.take(before.len() + row) =~= before + slots.take(row as int));
                    assert(self.lets_through(*world, slot, last_change_tick, change_tick)
                        ==> call_requires(
                        *func,
                        self.call_at(
                            value,
                            *world,
                            all[before.len() + row],
                            last_change_tick,
                            change_tick,
                        ),
                    ));
                }
                value = self.run_row(world, slot, value, func, last_change_tick, change_tick);
                proof {
                    self.runs_push(
                        *func,
                        before + slots.take(row as int),
                        slot,
                        last_change_tick,
                        change_tick,
                        (start, first),
                        middle,
                        (value, *world),
                    );
                    assert((before + slots.take(row as int)).push(slot) =~= before + slots.take(
                        row + 1,
                    ));
                }
                row = row + 1;
            }
            assert(slots.take(len as int) =~= slots);
            i = i + 1;
        }
        proof {
            assert(places.take(count as int) =~= places);
            self.values_keep_query(first, *world);
        }
        value
    }

    /// Runs `func` on each query result for the given world, in order, and makes the edits that it
    /// asks for.
    pub fn for_each_mut<S, FN>(&mut self, world: &mut World<C>, start: S, func: FN) -> (end: S) where
        FN: for<'b> Fn(
            S,
            <Q::Fetch<'b> as Fetch<'b, C>>::Item,
            <Q::ReadOnlyFetch<'b> as Fetch<'b, C>>::Item,
        ) -> (S, Q::Edit),

        requires
            old(world).wf(),
            old(self).valid_for(*old(world)),
            forall|updated: QueryState<C, Q, F>| #[trigger]
                updated.updated_from(*old(self), *old(world)) ==> updated.runnable(
                    func,
                    old(world).slots_in(updated.places(Self::dense())),
                    old(world).last_change_tick,
                    old(world).change_tick,
                    (start, *old(world)),
                ),
        ensures
            final(world).wf(),
            final(world).same_but_values(*old(world)),
            final(self).updated_from(*old(self), *old(world)),
            final(self).valid_for(*final(world)),
            final(self).runs(
                func,
                old(world).slots_in(final(self).places(Self::dense())),
                old(world).last_change_tick,
                old(world).change_tick,
                (start, *old(world)),
                (end, *final(world)),
            ),
    {
        self.update_archetypes(world);
        let last_change_tick = world.last_change_tick();
        let change_tick = world.read_change_tick();
        self.run_rows(world, start, &func, last_change_tick, change_tick)
    }

    /// The entity exists and its archetype is matched.
    pub open spec fn asked(&self, world: World<C>, entity: Entity) -> bool {
        world.locate(entity) is Some && self.matched_archetype_ids@.contains(
            world.locate(entity)->0.archetype_id,
        )
    }

    /// The rows of those entities in a list that exist and whose archetypes are matched.
    pub open spec fn asked_rows(&self, world: World<C>, entities: Seq<Entity>) -> Seq<Slot> {
        entities.filter(|entity: Entity| self.asked(world, entity)).map_values(
            |entity: Entity| world.row_of(entity),
        )
    }

    pub proof fn asked_rows_push(&self, world: World<C>, entities: Seq<Entity>, entity: Entity)
        ensures
            self.asked_rows(world, entities.push(entity)) == if self.asked(world, entity) {
                self.asked_rows(world, entities).push(world.row_of(entity))
            } else {
                self.asked_rows(world, entities)
            },
    {
        reveal(Seq::filter);
        assert(entities.push(entity).drop_last() =~= entities);
        if self.asked(world, entity) {
            assert(self.asked_rows(world, entities.push(entity)) =~= self.asked_rows(
                world,
                entities,
            ).push(world.row_of(entity)));
        }
    }

    proof fn asked_rows_prefix(&self, world: World<C>, entities: Seq<Entity>, i: int)
        requires
            0 <= i <= entities.len(),
        ensures
            self.asked_rows(world, entities.take(i)).is_prefix_of(
                self.asked_rows(world, entities),
            ),
        decreases entities.len() - i,
    {
        if i < entities.len() {
            assert(entities.take(i + 1) =~= entities.take(i).push(entities[i]));
            self.asked_rows_push(world, entities.take(i), entities[i]);
            self.asked_rows_prefix(world, entities, i + 1);
        } else {
            assert(entities.take(i) =~= entities);
        }
    }

    /// Runs `func` on the rows of the entities in a list, in the order of the list.
    fn run_list<S, FN>(
        &self,
        world: &mut World<C>,
        entities: &[Entity],
        start: S,
        func: &FN,
        last_change_tick: u32,
        change_tick: u32,
    ) -> (end: S) where
        FN: for<'b> Fn(
            S,
            <Q::Fetch<'b> as Fetch<'b, C>>::Item,
            <Q::ReadOnlyFetch<'b> as Fetch<'b, C>>::Item,
        ) -> (S, Q::Edit),

        requires
            old(world).wf(),
            self.valid_for(*old(world)),
            self.runnable(
                *func,
                self.asked_rows(*old(world), entities@),
                last_change_tick,
                change_tick,
                (start, *old(world)),
            ),
        ensures
            final(world).wf(),
            final(world).same_but_values(*old(world)),
            self.valid_for(*final(world)),
            self.runs(
                *func,
                self.asked_rows(*old(world), entities@),
                last_change_tick,
                change_tick,
                (start, *old(world)),
                (end, *final(world)),
            ),
    {
        let ghost first = *world;
        let ghost all = self.asked_rows(first, entities@);
        let mut value = start;
        let mut i: usize = 0;
        proof {
            reveal(Seq::filter);
            self.runs_none(*func, last_change_tick, change_tick, (start, first));
            assert(entities@.take(0) =~= Seq::empty());
            assert(self.asked_rows(first, Seq::empty()) =~= Seq::empty());
        }
        while i < entities.len()
            invariant
                i <= entities@.len(),
                first.wf(),
                self.valid_for(first),
                all == self.asked_rows(first, entities@),
                self.runnable(*func, all, last_change_tick, change_tick, (start, first)),
                world.wf(),
                world.same_but_values(first),
                self.runs(
                    *func,
                    self.asked_rows(first, entities@.take(i as int)),
                    last_change_tick,
                    change_tick,
                    (start, first),
                    (value, *world),
                ),
            decreases entities@.len() - i,
        {
            let entity = entities[i];
            proof {
                assert(entities@.take(i + 1) =~= entities@.take(i as int).push(entity));
                self.asked_rows_push(first, entities@.take(i as int), entity);
            }
            i = i + 1;
            let location = match world.location(entity) {
                Some(location) => location,
                None => {
                    continue;
                },
            };
            if !self.matched_archetypes.contains(location.archetype_id.index()) {
                continue;
            }
            let slot = Slot { place: Place::Archetype(location.archetype_id), row: location.index };
            let ghost middle = (value, *world);
            proof {
                self.values_keep_query(first, *world);
                assert(world.entity_wf(entity.id as int));
                let k = choose|k: int|
                    0 <= k < self.matched_archetype_ids@.len() && self.matched_archetype_ids@[k]
                        == location.archetype_id;
                assert(archetype_fits(
                    self.fetch_state,
                    self.filter_state,
                    first,
                    self.matched().archetypes[k],
                ));
                assert(slot == first.row_of(entity));
                let done = self.asked_rows(first, entities@.take(i - 1));
                let l = done.len() as int;
                self.asked_rows_prefix(first, entities@, i as int);
                assert(self.asked(first, entity));
                let upto = self.asked_rows(first, entities@.take(i as int));
                assert(upto == done.push(slot));
                assert(upto[l] == slot);
                assert(all.take(l) =~= done);
                assert(self.lets_through(*world, slot, last_change_tick, change_tick)
                    ==> call_requires(
                    *func,
                    self.call_at(value, *world, all[l], last_change_tick, change_tick),
                ));
            }
            value = self.run_row(world, slot, value, func, last_change_tick, change_tick);
            proof {
                self.runs_push(
                    *func,
                    self.asked_rows(first, entities@.take(i - 1)),
                    slot,
                    last_change_tick,
                    change_tick,
                    (start, first),
                    middle,
                    (value, *world),
                );
            }
        }
        proof {
            assert(entities@.take(i as int) =~= entities@);
            self.values_keep_query(first, *world);
        }
        value
    }

    /// Runs `func` on each query result where the entities match, in the order of the list, and
    /// makes the edits that it asks for.
    ///
    /// An entity that stands in the list twice is visited twice, and finds its first edit made.
    pub fn many_for_each_mut<S, FN>(
        &mut self,
        world: &mut World<C>,
        entities: &[Entity],
        start: S,
        func: FN,
    ) -> (end: S) where
        FN: for<'b> Fn(
            S,
            <Q::Fetch<'b> as Fetch<'b, C>>::Item,
            <Q::ReadOnlyFetch<'b> as Fetch<'b, C>>::Item,
        ) -> (S, Q::Edit),

        requires
            old(world).wf(),
            old(self).valid_for(*old(world)),
            forall|updated: QueryState<C, Q, F>| #[trigger]
                updated.updated_from(*old(self), *old(world)) ==> updated.runnable(
                    func,
                    updated.asked_rows(*old(world), entities@),
                    old(world).last_change_tick,
                    old(world).change_tick,
                    (start, *old(world)),
                ),
        ensures
            final(world).wf(),
            final(world).same_but_values(*old(world)),
            final(self).updated_from(*old(self), *old(world)),
            final(self).valid_for(*final(world)),
            final(self).runs(
                func,
                final(self).asked_rows(*old(world), entities@),
                old(world).last_change_tick,
                old(world).change_tick,
                (start, *old(world)),
                (end, *final(world)),
            ),
    {
        self.update_archetypes(world);
        let last_change_tick = world.last_change_tick();
        let change_tick = world.read_change_tick();
        self.run_list(world, entities, start, &func, last_change_tick, change_tick)
    }
}

} // verus!
