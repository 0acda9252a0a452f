//! Running a query in batches, and running it in one go.
use vstd::prelude::*;
use crate::fetch::{Context, Fetch, Place, Slot, WorldQuery};
use crate::laws::order::filter_keeps_order;
use crate::par::{batch_at, batch_count, batches_at, Batch};
use crate::rows::{folds, folds_append, folds_none, passing, passing_append, taken, taken_append};
use crate::state::QueryState;
use crate::world::World;

verus! {

/// The edits of some batches, one batch after the other.
pub open spec fn edits_in<E>(asked: Seq<Seq<(Slot, E)>>) -> Seq<(Slot, E)>
    decreases asked.len(),
{
    if asked.len() == 0 {
        Seq::empty()
    } else {
        edits_in(asked.drop_last()) + asked.last()
    }
}

impl<C: 'static> World<C> {
    /// The rows of some batches, one batch after the other.
    pub open spec fn batch_slots_in(&self, batches: Seq<Batch>) -> Seq<Slot>
        decreases batches.len(),
    {
        if batches.len() == 0 {
            Seq::empty()
        } else {
            self.batch_slots_in(batches.drop_last()) + self.batch_slots(batches.last())
        }
    }

    proof fn batch_slots_append(&self, first: Seq<Batch>, second: Seq<Batch>)
        ensures
            self.batch_slots_in(first + second) == self.batch_slots_in(first)
                + self.batch_slots_in(second),
        decreases second.len(),
    {
        if second.len() == 0 {
            assert(first + second =~= first);
            assert(self.batch_slots_in(first + second) =~= self.batch_slots_in(first)
                + self.batch_slots_in(second));
        } else {
            self.batch_slots_append(first, second.drop_last());
            assert((first + second).drop_last() =~= first + second.drop_last());
            assert((first + second).last() == second.last());
            assert(self.batch_slots_in(first + second) =~= self.batch_slots_in(first)
                + self.batch_slots_in(second));
        }
    }

    /// The first `k` batches of a place have its first rows.
    proof fn first_batches(&self, place: Place, batch_size: int, k: int)
        requires
            self.has_place(place),
            batch_size > 0,
            0 <= k <= batch_count(self.entities_at(place).len() as int, batch_size),
        ensures
            ({
                let rows = self.entities_at(place).len() as int;
                let end = if k * batch_size < rows {
                    k * batch_size
                } else {
                    rows
                };
                self.batch_slots_in(batches_at(place, rows, batch_size).take(k)) == self.slots_at(
                    place,
                ).take(end)
            }),
        decreases k,
    {
        let rows = self.entities_at(place).len() as int;
        let planned = batches_at(place, rows, batch_size);
        let slots = self.slots_at(place);
        match place {
            Place::Table(table) => {
                assert(self.tables@[table.0 as int].entities.len() <= usize::MAX);
            },
            Place::Archetype(archetype) => {
                assert(self.archetypes@[archetype.0 as int].entities.len() <= usize::MAX);
            },
        }
        if k == 0 {
            assert(k * batch_size == 0) by (nonlinear_arith)
                requires
                    k == 0,
            ;
            assert(slots.take(0) =~= Seq::empty());
            assert(planned.take(0) =~= Seq::empty());
        } else {
            self.first_batches(place, batch_size, k - 1);
            let before = (k - 1) * batch_size;
            let quotient = (rows - 1) / batch_size;
            assert(0 <= before <= rows - 1) by (nonlinear_arith)
                requires
                    batch_size > 0,
                    rows >= 1,
                    0 <= k - 1 <= quotient,
                    quotient == (rows - 1) / batch_size,
                    before == (k - 1) * batch_size,
            ;
            assert(k * batch_size == before + batch_size) by (nonlinear_arith)
                requires
                    before == (k - 1) * batch_size,
            ;
            assert(planned.take(k).drop_last() =~= planned.take(k - 1));
            assert(planned.take(k).last() == batch_at(place, rows, batch_size, k - 1));
            let batch = planned.take(k).last();
            let end = batch.offset + batch.len;
            assert(slots.take(before) + slots.subrange(before, end) =~= slots.take(end));
        }
    }

    /// The batches of some places have all their rows, each once and in the same order.
    pub proof fn batches_cover_rows(&self, places: Seq<Place>, batch_size: int)
        requires
            forall|i: int| 0 <= i < places.len() ==> self.has_place(#[trigger] places[i]),
            batch_size > 0 || forall|i: int|
                0 <= i < places.len() ==> self.entities_at(#[trigger] places[i]).len() == 0,
        ensures
            self.batch_slots_in(self.batches_in(places, batch_size)) == self.slots_in(places),
        decreases places.len(),
    {
        if places.len() > 0 {
            let place = places.last();
            let rows = self.entities_at(place).len() as int;
            let planned = batches_at(place, rows, batch_size);
            let count = batch_count(rows, batch_size);
            assert(self.has_place(places[places.len() - 1]));
            self.batches_cover_rows(places.drop_last(), batch_size);
            self.batch_slots_append(self.batches_in(places.drop_last(), batch_size), planned);
            if rows > 0 {
                let quotient = (rows - 1) / batch_size;
                assert(quotient >= 0 && (quotient + 1) * batch_size >= rows) by (nonlinear_arith)
                    requires
                        batch_size > 0,
                        rows >= 1,
                        quotient == (rows - 1) / batch_size,
                ;
            }
            if batch_size > 0 {
                self.first_batches(place, batch_size, count);
                assert(planned.take(count) =~= planned);
                assert(self.slots_at(place).take(rows) =~= self.slots_at(place));
            } else {
                assert(rows == 0);
                assert(planned =~= Seq::empty());
                assert(self.slots_at(place) =~= Seq::empty());
            }
        }
    }
}

impl<C: 'static> World<C> {
    /// A batch has the rows of its place from its offset on, as many as it is long, in order.
    pub proof fn batch_has_its_rows(&self, batch: Batch, k: int)
        requires
            match batch.place {
                Place::Table(table) => batch.offset + batch.len
                    <= self.tables@[table.0 as int].entities@.len(),
                Place::Archetype(archetype) => batch.offset + batch.len
                    <= self.archetypes@[archetype.0 as int].entities@.len(),
            },
            batch.offset + batch.len <= usize::MAX,
        ensures
            self.batch_slots(batch).len() == batch.len,
            0 <= k < batch.len ==> self.batch_slots(batch)[k] == (Slot {
                place: batch.place,
                row: (batch.offset + k) as usize,
            }),
    {
    }

    /// No batch is empty or longer than asked for, each begins at a multiple of that length, and each
    /// that is shorter comes to the end of its place.
    pub proof fn batches_are_full(&self, places: Seq<Place>, batch_size: int, i: int)
        requires
            forall|j: int| 0 <= j < places.len() ==> self.has_place(#[trigger] places[j]),
            batch_size > 0,
            0 <= i < self.batches_in(places, batch_size).len(),
        ensures
            ({
                let batch = self.batches_in(places, batch_size)[i];
                let rows = match batch.place {
                    Place::Table(table) => self.tables@[table.0 as int].entities@.len(),
                    Place::Archetype(archetype) => self.archetypes@[archetype.0 as int].entities@.len(),
                };
                &&& places.contains(batch.place)
                &&& 0 < batch.len <= batch_size
                &&& batch.offset as int % batch_size == 0
                &&& batch.offset + batch.len <= rows
                &&& batch.len < batch_size ==> batch.offset + batch.len == rows
            }),
        decreases places.len(),
    {
        if places.len() > 0 {
            let fewer = places.drop_last();
            let place = places.last();
            let rows = self.entities_at(place).len() as int;
            let before = self.batches_in(fewer, batch_size);
            assert(self.has_place(places[places.len() - 1]));
            if i < before.len() {
                self.batches_are_full(fewer, batch_size, i);
                let batch = before[i];
                let j = choose|j: int| 0 <= j < fewer.len() && fewer[j] == batch.place;
                assert(places[j] == batch.place);
            } else {
                let k = i - before.len();
                match place {
                    Place::Table(table) => {
                        assert(self.tables@[table.0 as int].entities.len() <= usize::MAX);
                    },
                    Place::Archetype(archetype) => {
                        assert(self.archetypes@[archetype.0 as int].entities.len() <= usize::MAX);
                    },
                }
                assert(self.batches_in(places, batch_size)[i] == batch_at(
                    place,
                    rows,
                    batch_size,
                    k,
                ));
                let quotient = (rows - 1) / batch_size;
                assert(0 <= k * batch_size <= rows - 1) by (nonlinear_arith)
                    requires
                        batch_size > 0,
                        rows >= 1,
                        0 <= k <= quotient,
                        quotient == (rows - 1) / batch_size,
                ;
                vstd::arithmetic::div_mod::lemma_mod_multiples_basic(k, batch_size);
                assert(places[places.len() - 1] == place);
            }
        }
    }
}

impl<C: 'static, Q: WorldQuery<C>, F: WorldQuery<C>> QueryState<C, Q, F> {
    /// There is no row to be split just if the matched tables, or archetypes, are all empty.
    pub proof fn rowless_means_empty(&self, world: World<C>, dense: bool)
        ensures
            self.rowless(world, dense) <==> if dense {
                forall|i: int|
                    0 <= i < self.matched_table_ids@.len()
                        ==> world.tables@[(#[trigger] self.matched_table_ids@[i]).0 as int].entities@.len()
                        == 0
            } else {
                forall|i: int|
                    0 <= i < self.matched_archetype_ids@.len()
                        ==> world.archetypes@[(
                    #[trigger] self.matched_archetype_ids@[i]).0 as int].entities@.len() == 0
            },
    {
        let places = self.places(dense);
        if self.rowless(world, dense) {
            if dense {
                assert forall|i: int| 0 <= i < self.matched_table_ids@.len() implies world.tables@[(
                #[trigger] self.matched_table_ids@[i]).0 as int].entities@.len() == 0 by {
                    assert(world.entities_at(places[i]).len() == 0);
                }
            } else {
                assert forall|i: int|
                    0 <= i < self.matched_archetype_ids@.len() implies world.archetypes@[(
                #[trigger] self.matched_archetype_ids@[i]).0 as int].entities@.len() == 0 by {
                    assert(world.entities_at(places[i]).len() == 0);
                }
            }
        }
    }

    /// The rows of a batch that are run are those that the filter lets through, each once and by
    /// number.
    pub proof fn batch_runs_what_is_let_through<'w>(
        &self,
        world: World<C>,
        batch: Batch,
        last_change_tick: u32,
        change_tick: u32,
        slot: Slot,
        i: int,
        j: int,
    )
        requires
            match batch.place {
                Place::Table(table) => batch.offset + batch.len
                    <= world.tables@[table.0 as int].entities@.len(),
                Place::Archetype(archetype) => batch.offset + batch.len
                    <= world.archetypes@[archetype.0 as int].entities@.len(),
            },
            batch.offset + batch.len <= usize::MAX,
        ensures
            ({
                let rows = self.batch_rows(world, batch, last_change_tick, change_tick);
                let filter = Context {
                    state: self.filter_state,
                    world,
                    last_change_tick,
                    change_tick,
                };
                &&& rows.contains(slot) <==> slot.place == batch.place && batch.offset <= slot.row
                    < batch.offset + batch.len && <F::Fetch<'w> as Fetch<'w, C>>::passes(
                    filter,
                    slot,
                )
                &&& 0 <= i < j < rows.len() ==> rows[i].row < rows[j].row
            }),
    {
        let slots = world.batch_slots(batch);
        let filter = self.filter_context(world, last_change_tick, change_tick);
        let pred = |slot: Slot| <F::Fetch<'w> as Fetch<'w, C>>::passes(filter, slot);
        let rows = self.batch_rows(world, batch, last_change_tick, change_tick);
        assert(rows == slots.filter(pred));
        if rows.contains(slot) {
            slots.lemma_filter_contains_rev(pred, slot);
            let k = choose|k: int| 0 <= k < slots.len() && slots[k] == slot;
            world.batch_has_its_rows(batch, k);
            let l = choose|l: int| 0 <= l < rows.len() && rows[l] == slot;
            slots.lemma_filter_pred(pred, l);
        }
        if slot.place == batch.place && batch.offset <= slot.row < batch.offset + batch.len && pred(
            slot,
        ) {
            let k = slot.row - batch.offset;
            world.batch_has_its_rows(batch, k);
            assert(slots[k] == slot);
            slots.lemma_filter_contains(pred, k);
        }
        if 0 <= i < j < rows.len() {
            let (a, b) = filter_keeps_order(slots, pred, i, j);
            world.batch_has_its_rows(batch, a);
            world.batch_has_its_rows(batch, b);
        }
    }

    /// What running a function on a batch can make of a value.
    pub open spec fn batch_folds<'w, QF: Fetch<'w, C, State = Q::State>, S, FN: Fn(S, QF::Item) -> S>(
        &self,
        world: World<C>,
        batch: Batch,
        start: S,
        func: FN,
        last_change_tick: u32,
        change_tick: u32,
        end: S,
    ) -> bool {
        folds(
            func,
            start,
            taken::<C, QF>(
                self.fetch_context(world, last_change_tick, change_tick),
                passing::<C, F::Fetch<'w>>(
                    self.filter_context(world, last_change_tick, change_tick),
                    world.batch_slots(batch),
                ),
            ),
            end,
        )
    }

    proof fn batch_prefix_folds<'w, QF: Fetch<'w, C, State = Q::State>, S, FN: Fn(S, QF::Item) -> S>(
        &self,
        world: World<C>,
        batches: Seq<Batch>,
        values: Seq<S>,
        func: FN,
        last_change_tick: u32,
        change_tick: u32,
        n: int,
    )
        requires
            values.len() == batches.len() + 1,
            forall|i: int|
                0 <= i < batches.len() ==> self.batch_folds::<QF, S, FN>(
                    world,
                    #[trigger] batches[i],
                    values[i],
                    func,
                    last_change_tick,
                    change_tick,
                    values[i + 1],
                ),
            0 <= n <= batches.len(),
        ensures
            folds(
                func,
                values[0],
                taken::<C, QF>(
                    self.fetch_context(world, last_change_tick, change_tick),
                    passing::<C, F::Fetch<'w>>(
                        self.filter_context(world, last_change_tick, change_tick),
                        world.batch_slots_in(batches.take(n)),
                    ),
                ),
                values[n],
            ),
        decreases n,
    {
        let cx = self.fetch_context(world, last_change_tick, change_tick);
        let fx = self.filter_context(world, last_change_tick, change_tick);
        if n == 0 {
            reveal(Seq::filter);
            folds_none::<S, QF::Item, FN>(func, values[0]);
            assert(world.batch_slots_in(batches.take(0)) =~= Seq::empty());
            assert(taken::<C, QF>(cx, passing::<C, F::Fetch<'w>>(fx, Seq::empty()))
                =~= Seq::empty());
        } else {
            self.batch_prefix_folds::<QF, S, FN>(
                world,
                batches,
                values,
                func,
                last_change_tick,
                change_tick,
                n - 1,
            );
            let batch = batches[n - 1];
            assert(batches.take(n).drop_last() =~= batches.take(n - 1));
            assert(batches.take(n).last() == batch);
            let before = world.batch_slots_in(batches.take(n - 1));
            let slots = world.batch_slots(batch);
            passing_append::<C, F::Fetch<'w>>(fx, before, slots);
            let first = passing::<C, F::Fetch<'w>>(fx, before);
            let second = passing::<C, F::Fetch<'w>>(fx, slots);
            taken_append::<C, QF>(cx, first, second);
            folds_append(
                func,
                values[0],
                taken::<C, QF>(cx, first),
                values[n - 1],
                taken::<C, QF>(cx, second),
                values[n],
            );
        }
    }

    /// Running a function on all the batches of a query, one after the other, is running it on all
    /// the results of the query.
    pub proof fn batches_in_turn<'w, QF: Fetch<'w, C, State = Q::State>, S, FN: Fn(S, QF::Item) -> S>(
        &self,
        world: World<C>,
        batch_size: int,
        values: Seq<S>,
        func: FN,
        last_change_tick: u32,
        change_tick: u32,
        dense: bool,
    )
        requires
            world.wf(),
            self.valid_for(world),
            batch_size > 0 || self.rowless(world, dense),
            values.len() == world.batches_in(self.places(dense), batch_size).len() + 1,
            forall|i: int|
                0 <= i < values.len() - 1 ==> self.batch_folds::<QF, S, FN>(
                    world,
                    #[trigger] world.batches_in(self.places(dense), batch_size)[i],
                    values[i],
                    func,
                    last_change_tick,
                    change_tick,
                    values[i + 1],
                ),
        ensures
            folds(
                func,
                values[0],
                self.results::<QF>(world, last_change_tick, change_tick, dense),
                values.last(),
            ),
    {
        let places = self.places(dense);
        let batches = world.batches_in(places, batch_size);
        assert forall|i: int| 0 <= i < places.len() implies world.has_place(
            #[trigger] places[i],
        ) by {
            self.places_fit(world, dense, i);
        }
        world.batches_cover_rows(places, batch_size);
        self.batch_prefix_folds::<QF, S, FN>(
            world,
            batches,
            values,
            func,
            last_change_tick,
            change_tick,
            batches.len() as int,
        );
        assert(batches.take(batches.len() as int) =~= batches);
    }

    /// Calling `func` for the row of an edit, in the given world, can ask for that edit.
    pub open spec fn asked_at<'w, S, FN>(
        &self,
        func: FN,
        last_change_tick: u32,
        change_tick: u32,
        world: World<C>,
        edit: (Slot, Q::Edit),
    ) -> bool where
        FN: for<'b> Fn(
            S,
            <Q::Fetch<'b> as Fetch<'b, C>>::Item,
            <Q::ReadOnlyFetch<'b> as Fetch<'b, C>>::Item,
        ) -> (S, Q::Edit),
     {
        exists|s: S, next: S|
            #[trigger] call_ensures(
                func,
                self.call_at(s, world, edit.0, last_change_tick, change_tick),
                (next, edit.1),
            )
    }

    /// The edits that running `func` on each of some batches has asked for.
    pub open spec fn batches_ask<'w, S, FN>(
        &self,
        func: FN,
        last_change_tick: u32,
        change_tick: u32,
        world: World<C>,
        batches: Seq<Batch>,
        starts: Seq<S>,
        ends: Seq<S>,
        asked: Seq<Seq<(Slot, Q::Edit)>>,
    ) -> bool where
        FN: for<'b> Fn(
            S,
            <Q::Fetch<'b> as Fetch<'b, C>>::Item,
            <Q::ReadOnlyFetch<'b> as Fetch<'b, C>>::Item,
        ) -> (S, Q::Edit),
     {
        &&& starts.len() == batches.len()
        &&& ends.len() == batches.len()
        &&& asked.len() == batches.len()
        &&& forall|b: int|
            0 <= b < batches.len() ==> self.asks_for(
                func,
                self.batch_rows(world, #[trigger] batches[b], last_change_tick, change_tick),
                last_change_tick,
                change_tick,
                world,
                starts[b],
                ends[b],
                asked[b],
            )
    }

    proof fn first_batches_ask<'w, S, FN>(
        &self,
        func: FN,
        last_change_tick: u32,
        change_tick: u32,
        world: World<C>,
        batches: Seq<Batch>,
        starts: Seq<S>,
        ends: Seq<S>,
        asked: Seq<Seq<(Slot, Q::Edit)>>,
        n: int,
    ) where
        FN: for<'b> Fn(
            S,
            <Q::Fetch<'b> as Fetch<'b, C>>::Item,
            <Q::ReadOnlyFetch<'b> as Fetch<'b, C>>::Item,
        ) -> (S, Q::Edit),

        requires
            self.batches_ask(
                func,
                last_change_tick,
                change_tick,
                world,
                batches,
                starts,
                ends,
                asked,
            ),
            0 <= n <= batches.len(),
        ensures
            ({
                let rows = passing::<C, F::Fetch<'w>>(
                    self.filter_context(world, last_change_tick, change_tick),
                    world.batch_slots_in(batches.take(n)),
                );
                let edits = edits_in(asked.take(n));
                &&& edits.len() == rows.len()
                &&& forall|i: int|
                    0 <= i < rows.len() ==> (#[trigger] edits[i]).0 == rows[i] && self.asked_at(
                        func,
                        last_change_tick,
                        change_tick,
                        world,
                        edits[i],
                    )
            }),
        decreases n,
    {
        let fx = self.filter_context(world, last_change_tick, change_tick);
        reveal(Seq::filter);
        if n > 0 {
            self.first_batches_ask(
                func,
                last_change_tick,
                change_tick,
                world,
                batches,
                starts,
                ends,
                asked,
                n - 1,
            );
            let batch = batches[n - 1];
            assert(batches.take(n).drop_last() =~= batches.take(n - 1));
            assert(batches.take(n).last() == batch);
            assert(asked.take(n).drop_last() =~= asked.take(n - 1));
            assert(asked.take(n).last() == asked[n - 1]);
            let before = world.batch_slots_in(batches.take(n - 1));
            let slots = world.batch_slots(batch);
            passing_append::<C, F::Fetch<'w>>(fx, before, slots);
            let first = passing::<C, F::Fetch<'w>>(fx, before);
            let second = passing::<C, F::Fetch<'w>>(fx, slots);
            assert(second == self.batch_rows(world, batch, last_change_tick, change_tick));
            let earlier = edits_in(asked.take(n - 1));
            let last = asked[n - 1];
            let edits = edits_in(asked.take(n));
            assert(edits == earlier + last);
            let trace = choose|trace: Seq<S>| #[trigger]
                self.edit_trace(
                    func,
                    second,
                    last_change_tick,
                    change_tick,
                    world,
                    trace,
                    last,
                ) && trace[0] == starts[n - 1] && trace.last() == ends[n - 1];
            assert forall|i: int| 0 <= i < (first + second).len() implies (
            #[trigger] edits[i]).0 == (first + second)[i] && self.asked_at(
                func,
                last_change_tick,
                change_tick,
                world,
                edits[i],
            ) by {
                if i < first.len() {
                    assert(earlier[i].0 == first[i]);
                } else {
                    let k = i - first.len();
                    assert(last[k].0 == second[k] && call_ensures(
                        func,
                        self.call_at(trace[k], world, second[k], last_change_tick, change_tick),
                        (trace[k + 1], last[k].1),
                    ));
                }
            }
        }
    }

    /// The batches of a query together ask for one edit for each row that the filter lets through,
    /// in order.
    pub proof fn batches_ask_for_each_row<'w, S, FN>(
        &self,
        func: FN,
        last_change_tick: u32,
        change_tick: u32,
        world: World<C>,
        batch_size: int,
        dense: bool,
        starts: Seq<S>,
        ends: Seq<S>,
        asked: Seq<Seq<(Slot, Q::Edit)>>,
    ) where
        FN: for<'b> Fn(
            S,
            <Q::Fetch<'b> as Fetch<'b, C>>::Item,
            <Q::ReadOnlyFetch<'b> as Fetch<'b, C>>::Item,
        ) -> (S, Q::Edit),

        requires
            world.wf(),
            self.valid_for(world),
            batch_size > 0 || self.rowless(world, dense),
            self.batches_ask(
                func,
                last_change_tick,
                change_tick,
                world,
                world.batches_in(self.places(dense), batch_size),
                starts,
                ends,
                asked,
            ),
        ensures
            ({
                let rows = self.rows(world, last_change_tick, change_tick, dense);
                let edits = edits_in(asked);
                &&& edits.len() == rows.len()
                &&& forall|i: int|
                    0 <= i < rows.len() ==> (#[trigger] edits[i]).0 == rows[i] && self.asked_at(
                        func,
                        last_change_tick,
                        change_tick,
                        world,
                        edits[i],
                    )
            }),
    {
        let places = self.places(dense);
        let batches = world.batches_in(places, batch_size);
        assert forall|i: int| 0 <= i < places.len() implies world.has_place(
            #[trigger] places[i],
        ) by {
            self.places_fit(world, dense, i);
        }
        world.batches_cover_rows(places, batch_size);
        self.first_batches_ask(
            func,
            last_change_tick,
            change_tick,
            world,
            batches,
            starts,
            ends,
            asked,
            batches.len() as int,
        );
        assert(batches.take(batches.len() as int) =~= batches);
        assert(asked.take(batches.len() as int) =~= asked);
    }
}

} // verus!
