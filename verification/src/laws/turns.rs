//! What calls made in turn come to, call by call.
use vstd::prelude::*;
use crate::fetch::{Context, Fetch, Slot, WorldQuery};
use crate::ids::Entity;
use crate::rows::{callable_from, fold_trace, folds, folds_none, folds_push};
use crate::state::QueryState;
use crate::world::World;

verus! {

/// Without items nothing is called.
pub proof fn no_item_no_call<S, T, FN: Fn(S, T) -> S>(func: FN, start: S, end: S)
    ensures
        folds(func, start, Seq::<T>::empty(), end) <==> start == end,
        callable_from(func, start, Seq::<T>::empty()),
{
    folds_none::<S, T, FN>(func, start);
}

/// One more item is one more call, with that item and the value that the calls before led to.
pub proof fn one_more_item<S, T, FN: Fn(S, T) -> S>(
    func: FN,
    start: S,
    items: Seq<T>,
    item: T,
    end: S,
)
    ensures
        folds(func, start, items.push(item), end) <==> exists|middle: S|
            #![trigger folds(func, start, items, middle)]
            #![trigger call_ensures(func, (middle, item), end)]
            folds(func, start, items, middle) && call_ensures(func, (middle, item), end),
{
    let longer = items.push(item);
    if folds(func, start, longer, end) {
        let trace = choose|trace: Seq<S>| #[trigger]
            fold_trace(func, longer, trace) && trace[0] == start && trace.last() == end;
        let n = items.len() as int;
        let shorter = trace.drop_last();
        assert forall|i: int| 0 <= i < items.len() implies call_ensures(
            func,
            (shorter[i], #[trigger] items[i]),
            shorter[i + 1],
        ) by {
            assert(longer[i] == items[i]);
        }
        assert(fold_trace(func, items, shorter));
        assert(folds(func, start, items, trace[n]));
        assert(longer[n] == item);
    }
    if exists|middle: S|
        #![trigger folds(func, start, items, middle)]
        folds(func, start, items, middle) && call_ensures(func, (middle, item), end) {
        let middle = choose|middle: S|
            #![trigger folds(func, start, items, middle)]
            folds(func, start, items, middle) && call_ensures(func, (middle, item), end);
        folds_push(func, start, items, middle, item, end);
    }
}

/// The calls can be made on one more item just if they can be made on those before, and then on
/// that item with whatever came of them.
pub proof fn one_more_callable<S, T, FN: Fn(S, T) -> S>(
    func: FN,
    start: S,
    items: Seq<T>,
    item: T,
)
    ensures
        callable_from(func, start, items.push(item)) <==> callable_from(func, start, items) && (
        forall|middle: S| #[trigger]
            folds(func, start, items, middle) ==> call_requires(func, (middle, item))),
{
    let longer = items.push(item);
    let n = items.len() as int;
    assert(longer.take(n) =~= items);
    if callable_from(func, start, longer) {
        assert forall|i: int, s: S|
            0 <= i < items.len() && folds(func, start, items.take(i), s) implies #[trigger]
            call_requires(func, (s, items[i])) by {
            assert(longer.take(i) =~= items.take(i));
            assert(longer[i] == items[i]);
            assert(call_requires(func, (s, longer[i])));
        }
        assert forall|middle: S| #[trigger]
            folds(func, start, items, middle) implies call_requires(func, (middle, item)) by {
            assert(call_requires(func, (middle, longer[n])));
        }
    }
    if callable_from(func, start, items) && (forall|middle: S| #[trigger]
        folds(func, start, items, middle) ==> call_requires(func, (middle, item))) {
        assert forall|i: int, s: S|
            0 <= i < longer.len() && folds(func, start, longer.take(i), s) implies #[trigger]
            call_requires(func, (s, longer[i])) by {
            if i < n {
                assert(longer.take(i) =~= items.take(i));
                assert(call_requires(func, (s, items[i])));
            }
        }
    }
}

/// Calling a function that always does the same on each item in turn is folding from the left.
pub proof fn calls_are_a_fold<S, T, FN: Fn(S, T) -> S>(
    func: FN,
    does: spec_fn(S, T) -> S,
    start: S,
    items: Seq<T>,
    end: S,
)
    requires
        forall|s: S, item: T, next: S| #[trigger]
            call_ensures(func, (s, item), next) ==> next == does(s, item),
        folds(func, start, items, end),
    ensures
        end == items.fold_left(start, does),
    decreases items.len(),
{
    if items.len() == 0 {
        assert(items =~= Seq::<T>::empty());
        no_item_no_call::<S, T, FN>(func, start, end);
    } else {
        let before = items.drop_last();
        let last = items.last();
        assert(before.push(last) =~= items);
        one_more_item(func, start, before, last, end);
        let middle = choose|middle: S|
            #![trigger folds(func, start, before, middle)]
            folds(func, start, before, middle) && call_ensures(func, (middle, last), end);
        calls_are_a_fold(func, does, start, before, middle);
    }
}

impl<C: 'static, Q: WorldQuery<C>, F: WorldQuery<C>> QueryState<C, Q, F> {
    /// Without rows nothing is run.
    pub proof fn no_row_no_run<'w, S, FN>(
        &self,
        func: FN,
        last_change_tick: u32,
        change_tick: u32,
        start: (S, World<C>),
        end: (S, World<C>),
    ) where
        FN: for<'b> Fn(
            S,
            <Q::Fetch<'b> as Fetch<'b, C>>::Item,
            <Q::ReadOnlyFetch<'b> as Fetch<'b, C>>::Item,
        ) -> (S, Q::Edit),

        ensures
            self.runs(func, Seq::empty(), last_change_tick, change_tick, start, end)
                <==> start == end,
            self.runnable(func, Seq::empty(), last_change_tick, change_tick, start),
    {
        self.runs_none(func, last_change_tick, change_tick, start);
    }

    /// One more row: if the filter lets it through in the world that the rows before led to, the
    /// function is called with what the query takes from the row in that world, and the change that
    /// it asks for is made in it. If not, nothing happens.
    pub proof fn one_more_row<'w, S, FN>(
        &self,
        func: FN,
        slots: Seq<Slot>,
        slot: Slot,
        last_change_tick: u32,
        change_tick: u32,
        start: (S, World<C>),
        end: (S, World<C>),
    ) where
        FN: for<'b> Fn(
            S,
            <Q::Fetch<'b> as Fetch<'b, C>>::Item,
            <Q::ReadOnlyFetch<'b> as Fetch<'b, C>>::Item,
        ) -> (S, Q::Edit),

        ensures
            self.runs(func, slots.push(slot), last_change_tick, change_tick, start, end)
                <==> exists|s: S, now: World<C>| #[trigger]
                self.runs(func, slots, last_change_tick, change_tick, start, (s, now)) && ({
                    let fetch = Context {
                        state: self.fetch_state,
                        world: now,
                        last_change_tick,
                        change_tick,
                    };
                    let filter = Context {
                        state: self.filter_state,
                        world: now,
                        last_change_tick,
                        change_tick,
                    };
                    if <F::Fetch<'w> as Fetch<'w, C>>::passes(filter, slot) {
                        exists|edit: Q::Edit|
                            call_ensures(
                                func,
                                (
                                    s,
                                    <Q::Fetch<'w> as Fetch<'w, C>>::item(fetch, slot),
                                    <Q::ReadOnlyFetch<'w> as Fetch<'w, C>>::item(fetch, slot),
                                ),
                                (end.0, edit),
                            ) && #[trigger] Q::edited(now, self.fetch_state, slot, edit, end.1)
                    } else {
                        end == (s, now)
                    }
                }),
    {
        let longer = slots.push(slot);
        if self.runs(func, longer, last_change_tick, change_tick, start, end) {
            let trace = choose|trace: Seq<(S, World<C>)>| #[trigger]
                self.run_trace(func, longer, last_change_tick, change_tick, trace) && trace[0]
                    == start && trace.last() == end;
            let n = slots.len() as int;
            let shorter = trace.drop_last();
            assert forall|i: int| 0 <= i < slots.len() implies self.row_runs(
                func,
                #[trigger] slots[i],
                last_change_tick,
                change_tick,
                shorter[i],
                shorter[i + 1],
            ) by {
                assert(longer[i] == slots[i]);
            }
            assert(self.run_trace(func, slots, last_change_tick, change_tick, shorter));
            assert(longer[n] == slot);
            assert(self.row_runs(
                func,
                slot,
                last_change_tick,
                change_tick,
                trace[n],
                trace[n + 1],
            ));
            let (s, now) = trace[n];
            assert(self.runs(func, slots, last_change_tick, change_tick, start, (s, now)));
            if self.lets_through(now, slot, last_change_tick, change_tick) {
                let edit = choose|edit: Q::Edit| #[trigger]
                    self.row_edited(
                        func,
                        slot,
                        last_change_tick,
                        change_tick,
                        trace[n],
                        edit,
                        trace[n + 1],
                    );
                assert(Q::edited(now, self.fetch_state, slot, edit, end.1));
            }
        }
        assert forall|s: S, now: World<C>| #[trigger]
            self.runs(func, slots, last_change_tick, change_tick, start, (s, now)) && ({
                let fetch = Context {
                    state: self.fetch_state,
                    world: now,
                    last_change_tick,
                    change_tick,
                };
                let filter = Context {
                    state: self.filter_state,
                    world: now,
                    last_change_tick,
                    change_tick,
                };
                if <F::Fetch<'w> as Fetch<'w, C>>::passes(filter, slot) {
                    exists|edit: Q::Edit|
                        call_ensures(
                            func,
                            (
                                s,
                                <Q::Fetch<'w> as Fetch<'w, C>>::item(fetch, slot),
                                <Q::ReadOnlyFetch<'w> as Fetch<'w, C>>::item(fetch, slot),
                            ),
                            (end.0, edit),
                        ) && #[trigger] Q::edited(now, self.fetch_state, slot, edit, end.1)
                } else {
                    end == (s, now)
                }
            }) implies self.runs(
            func,
            longer,
            last_change_tick,
            change_tick,
            start,
            end,
        ) by {
            if self.lets_through(now, slot, last_change_tick, change_tick) {
                let fetch = Context {
                    state: self.fetch_state,
                    world: now,
                    last_change_tick,
                    change_tick,
                };
                let edit = choose|edit: Q::Edit|
                    call_ensures(
                        func,
                        (
                            s,
                            <Q::Fetch<'w> as Fetch<'w, C>>::item(fetch, slot),
                            <Q::ReadOnlyFetch<'w> as Fetch<'w, C>>::item(fetch, slot),
                        ),
                        (end.0, edit),
                    ) && #[trigger] Q::edited(now, self.fetch_state, slot, edit, end.1);
                assert(self.row_edited(
                    func,
                    slot,
                    last_change_tick,
                    change_tick,
                    (s, now),
                    edit,
                    end,
                ));
            }
            self.runs_push(
                func,
                slots,
                slot,
                last_change_tick,
                change_tick,
                start,
                (s, now),
                end,
            );
        }
    }

    /// A run for a list, of a function that changes nothing, is a fold over the results of the query
    /// for the entities of the list, as they are to be written and as they are to be read.
    pub proof fn list_run_is_over_results<'w, S, FN>(
        &self,
        func: FN,
        does: spec_fn(
            S,
            <Q::Fetch<'w> as Fetch<'w, C>>::Item,
            <Q::ReadOnlyFetch<'w> as Fetch<'w, C>>::Item,
        ) -> S,
        world: World<C>,
        entities: Seq<Entity>,
        last_change_tick: u32,
        change_tick: u32,
        start: S,
        end: S,
        after: World<C>,
    ) where
        FN: for<'b> Fn(
            S,
            <Q::Fetch<'b> as Fetch<'b, C>>::Item,
            <Q::ReadOnlyFetch<'b> as Fetch<'b, C>>::Item,
        ) -> (S, Q::Edit),

        requires
            world.wf(),
            forall|
                s: S,
                item: <Q::Fetch<'w> as Fetch<'w, C>>::Item,
                read: <Q::ReadOnlyFetch<'w> as Fetch<'w, C>>::Item,
                next: S,
                edit: Q::Edit,
            | #[trigger]
                call_ensures(func, (s, item, read), (next, edit)) ==> next == does(s, item, read)
                    && (forall|slot: Slot, then: World<C>| #[trigger]
                    Q::edited(world, self.fetch_state, slot, edit, then) ==> then == world),
            self.runs(
                func,
                self.asked_rows(world, entities),
                last_change_tick,
                change_tick,
                (start, world),
                (end, after),
            ),
        ensures
            after == world,
            ({
                let items = self.results_of::<Q::Fetch<'w>>(
                    world,
                    entities,
                    last_change_tick,
                    change_tick,
                );
                let reads = self.results_of::<Q::ReadOnlyFetch<'w>>(
                    world,
                    entities,
                    last_change_tick,
                    change_tick,
                );
                &&& items.len() == reads.len()
                &&& end == Seq::new(items.len(), |i: int| (items[i], reads[i])).fold_left(
                    start,
                    |
                        s: S,
                        both: (
                            <Q::Fetch<'w> as Fetch<'w, C>>::Item,
                            <Q::ReadOnlyFetch<'w> as Fetch<'w, C>>::Item,
                        ),
                    | does(s, both.0, both.1),
                )
            }),
        decreases entities.len(),
    {
        let step = |
            s: S,
            both: (
                <Q::Fetch<'w> as Fetch<'w, C>>::Item,
                <Q::ReadOnlyFetch<'w> as Fetch<'w, C>>::Item,
            ),
        | does(s, both.0, both.1);
        let items = self.results_of::<Q::Fetch<'w>>(
            world,
            entities,
            last_change_tick,
            change_tick,
        );
        let reads = self.results_of::<Q::ReadOnlyFetch<'w>>(
            world,
            entities,
            last_change_tick,
            change_tick,
        );
        let pairs = Seq::new(items.len(), |i: int| (items[i], reads[i]));
        if entities.len() == 0 {
            assert(entities =~= Seq::empty());
            self.list_rows_in_turn(world, Seq::empty(), arbitrary());
            assert(self.asked_rows(world, entities) =~= Seq::empty());
            self.no_row_no_run(
                func,
                last_change_tick,
                change_tick,
                (start, world),
                (end, after),
            );
            reveal(Seq::filter);
            assert(items.len() == 0 && reads.len() == 0);
        } else {
            let before = entities.drop_last();
            let entity = entities.last();
            assert(before.push(entity) =~= entities);
            let rows = self.asked_rows(world, before);
            self.list_rows_in_turn(world, before, entity);
            self.list_gives_each_in_turn::<Q::Fetch<'w>>(
                world,
                before,
                entity,
                last_change_tick,
                change_tick,
            );
            self.list_gives_each_in_turn::<Q::ReadOnlyFetch<'w>>(
                world,
                before,
                entity,
                last_change_tick,
                change_tick,
            );
            self.run_visits_what_it_finds::<S>(start, world, entity, last_change_tick, change_tick);
            let items_before = self.results_of::<Q::Fetch<'w>>(
                world,
                before,
                last_change_tick,
                change_tick,
            );
            let reads_before = self.results_of::<Q::ReadOnlyFetch<'w>>(
                world,
                before,
                last_change_tick,
                change_tick,
            );
            let pairs_before = Seq::new(
                items_before.len(),
                |i: int| (items_before[i], reads_before[i]),
            );
            if self.asked(world, entity) {
                let row = world.row_of(entity);
                self.one_more_row(
                    func,
                    rows,
                    row,
                    last_change_tick,
                    change_tick,
                    (start, world),
                    (end, after),
                );
                let (s, now) = choose|s: S, now: World<C>| #[trigger]
                    self.runs(
                        func,
                        rows,
                        last_change_tick,
                        change_tick,
                        (start, world),
                        (s, now),
                    ) && ({
                        let fetch = Context {
                            state: self.fetch_state,
                            world: now,
                            last_change_tick,
                            change_tick,
                        };
                        let filter = Context {
                            state: self.filter_state,
                            world: now,
                            last_change_tick,
                            change_tick,
                        };
                        if <F::Fetch<'w> as Fetch<'w, C>>::passes(filter, row) {
                            exists|edit: Q::Edit|
                                call_ensures(
                                    func,
                                    (
                                        s,
                                        <Q::Fetch<'w> as Fetch<'w, C>>::item(fetch, row),
                                        <Q::ReadOnlyFetch<'w> as Fetch<'w, C>>::item(fetch, row),
                                    ),
                                    (end, edit),
                                ) && #[trigger] Q::edited(now, self.fetch_state, row, edit, after)
                        } else {
                            (end, after) == (s, now)
                        }
                    });
                self.list_run_is_over_results(
                    func,
                    does,
                    world,
                    before,
                    last_change_tick,
                    change_tick,
                    start,
                    s,
                    now,
                );
                if self.lets_through(world, row, last_change_tick, change_tick) {
                    let item = self.lookup::<Q::Fetch<'w>>(
                        world,
                        entity,
                        last_change_tick,
                        change_tick,
                    )->Ok_0;
                    let read = self.lookup::<Q::ReadOnlyFetch<'w>>(
                        world,
                        entity,
                        last_change_tick,
                        change_tick,
                    )->Ok_0;
                    assert(pairs.drop_last() =~= pairs_before);
                    assert(pairs.last() == (item, read));
                    assert(end == does(s, item, read));
                    assert(pairs.fold_left(start, step) == step(
                        pairs_before.fold_left(start, step),
                        (item, read),
                    ));
                } else {
                    assert(pairs =~= pairs_before);
                }
            } else {
                self.list_run_is_over_results(
                    func,
                    does,
                    world,
                    before,
                    last_change_tick,
                    change_tick,
                    start,
                    end,
                    after,
                );
                assert(pairs =~= pairs_before);
            }
        }
    }

    /// A run over rows, of a function that changes nothing, is a fold over what the query takes from
    /// those that its filter lets through, to be written and to be read.
    pub proof fn run_is_over_results<'w, S, FN>(
        &self,
        func: FN,
        does: spec_fn(
            S,
            <Q::Fetch<'w> as Fetch<'w, C>>::Item,
            <Q::ReadOnlyFetch<'w> as Fetch<'w, C>>::Item,
        ) -> S,
        world: World<C>,
        slots: Seq<Slot>,
        last_change_tick: u32,
        change_tick: u32,
        start: S,
        end: S,
        after: World<C>,
    ) where
        FN: for<'b> Fn(
            S,
            <Q::Fetch<'b> as Fetch<'b, C>>::Item,
            <Q::ReadOnlyFetch<'b> as Fetch<'b, C>>::Item,
        ) -> (S, Q::Edit),

        requires
            forall|
                s: S,
                item: <Q::Fetch<'w> as Fetch<'w, C>>::Item,
                read: <Q::ReadOnlyFetch<'w> as Fetch<'w, C>>::Item,
                next: S,
                edit: Q::Edit,
            | #[trigger]
                call_ensures(func, (s, item, read), (next, edit)) ==> next == does(s, item, read)
                    && (forall|slot: Slot, then: World<C>| #[trigger]
                    Q::edited(world, self.fetch_state, slot, edit, then) ==> then == world),
            self.runs(
                func,
                slots,
                last_change_tick,
                change_tick,
                (start, world),
                (end, after),
            ),
        ensures
            after == world,
            ({
                let fetch = Context {
                    state: self.fetch_state,
                    world,
                    last_change_tick,
                    change_tick,
                };
                let filter = Context {
                    state: self.filter_state,
                    world,
                    last_change_tick,
                    change_tick,
                };
                end == slots.fold_left(
                    start,
                    |s: S, slot: Slot|
                        if <F::Fetch<'w> as Fetch<'w, C>>::passes(filter, slot) {
                            does(
                                s,
                                <Q::Fetch<'w> as Fetch<'w, C>>::item(fetch, slot),
                                <Q::ReadOnlyFetch<'w> as Fetch<'w, C>>::item(fetch, slot),
                            )
                        } else {
                            s
                        },
                )
            }),
        decreases slots.len(),
    {
        if slots.len() == 0 {
            assert(slots =~= Seq::empty());
            self.no_row_no_run(
                func,
                last_change_tick,
                change_tick,
                (start, world),
                (end, after),
            );
        } else {
            let before = slots.drop_last();
            let row = slots.last();
            assert(before.push(row) =~= slots);
            self.one_more_row(
                func,
                before,
                row,
                last_change_tick,
                change_tick,
                (start, world),
                (end, after),
            );
            let (s, now) = choose|s: S, now: World<C>| #[trigger]
                self.runs(
                    func,
                    before,
                    last_change_tick,
                    change_tick,
                    (start, world),
                    (s, now),
                ) && ({
                    let fetch = Context {
                        state: self.fetch_state,
                        world: now,
                        last_change_tick,
                        change_tick,
                    };
                    let filter = Context {
                        state: self.filter_state,
                        world: now,
                        last_change_tick,
                        change_tick,
                    };
                    if <F::Fetch<'w> as Fetch<'w, C>>::passes(filter, row) {
                        exists|edit: Q::Edit|
                            call_ensures(
                                func,
                                (
                                    s,
                                    <Q::Fetch<'w> as Fetch<'w, C>>::item(fetch, row),
                                    <Q::ReadOnlyFetch<'w> as Fetch<'w, C>>::item(fetch, row),
                                ),
                                (end, edit),
                            ) && #[trigger] Q::edited(now, self.fetch_state, row, edit, after)
                    } else {
                        (end, after) == (s, now)
                    }
                });
            self.run_is_over_results(
                func,
                does,
                world,
                before,
                last_change_tick,
                change_tick,
                start,
                s,
                now,
            );
        }
    }

    /// Without rows nothing is asked for.
    pub proof fn no_row_no_edit<'w, S, FN>(
        &self,
        func: FN,
        last_change_tick: u32,
        change_tick: u32,
        world: World<C>,
        start: S,
        end: S,
        edits: Seq<(Slot, Q::Edit)>,
    ) where
        FN: for<'b> Fn(
            S,
            <Q::Fetch<'b> as Fetch<'b, C>>::Item,
            <Q::ReadOnlyFetch<'b> as Fetch<'b, C>>::Item,
        ) -> (S, Q::Edit),

        ensures
            self.asks_for(
                func,
                Seq::empty(),
                last_change_tick,
                change_tick,
                world,
                start,
                end,
                edits,
            ) <==> start == end && edits.len() == 0,
    {
        if start == end && edits.len() == 0 {
            assert(self.edit_trace(
                func,
                Seq::empty(),
                last_change_tick,
                change_tick,
                world,
                seq![start],
                edits,
            ));
        }
    }

    /// One more row of a batch is one more call, with what the query takes from the row in the world
    /// as it was, and one more edit, for that row.
    pub proof fn one_more_edit<'w, S, FN>(
        &self,
        func: FN,
        rows: Seq<Slot>,
        row: Slot,
        last_change_tick: u32,
        change_tick: u32,
        world: World<C>,
        start: S,
        end: S,
        edits: Seq<(Slot, Q::Edit)>,
        edit: Q::Edit,
    ) where
        FN: for<'b> Fn(
            S,
            <Q::Fetch<'b> as Fetch<'b, C>>::Item,
            <Q::ReadOnlyFetch<'b> as Fetch<'b, C>>::Item,
        ) -> (S, Q::Edit),

        ensures
            self.asks_for(
                func,
                rows.push(row),
                last_change_tick,
                change_tick,
                world,
                start,
                end,
                edits.push((row, edit)),
            ) <==> exists|s: S| #[trigger]
                self.asks_for(
                    func,
                    rows,
                    last_change_tick,
                    change_tick,
                    world,
                    start,
                    s,
                    edits,
                ) && ({
                    let fetch = Context {
                        state: self.fetch_state,
                        world,
                        last_change_tick,
                        change_tick,
                    };
                    call_ensures(
                        func,
                        (
                            s,
                            <Q::Fetch<'w> as Fetch<'w, C>>::item(fetch, row),
                            <Q::ReadOnlyFetch<'w> as Fetch<'w, C>>::item(fetch, row),
                        ),
                        (end, edit),
                    )
                }),
            forall|all: Seq<(Slot, Q::Edit)>| #[trigger]
                self.asks_for(
                    func,
                    rows.push(row),
                    last_change_tick,
                    change_tick,
                    world,
                    start,
                    end,
                    all,
                ) ==> all.len() == rows.len() + 1 && all.last().0 == row,
    {
        let more = rows.push(row);
        let asked = edits.push((row, edit));
        let n = rows.len() as int;
        if self.asks_for(func, more, last_change_tick, change_tick, world, start, end, asked) {
            let trace = choose|trace: Seq<S>| #[trigger]
                self.edit_trace(func, more, last_change_tick, change_tick, world, trace, asked)
                    && trace[0] == start && trace.last() == end;
            let shorter = trace.drop_last();
            assert forall|i: int| 0 <= i < rows.len() implies (#[trigger] edits[i]).0 == rows[i]
                && call_ensures(
                func,
                self.call_at(shorter[i], world, rows[i], last_change_tick, change_tick),
                (shorter[i + 1], edits[i].1),
            ) by {
                assert(asked[i] == edits[i] && more[i] == rows[i]);
            }
            assert(self.edit_trace(
                func,
                rows,
                last_change_tick,
                change_tick,
                world,
                shorter,
                edits,
            ));
            assert(asked[n] == (row, edit) && more[n] == row);
            assert(self.asks_for(
                func,
                rows,
                last_change_tick,
                change_tick,
                world,
                start,
                trace[n],
                edits,
            ));
        }
        assert forall|s: S| #[trigger]
            self.asks_for(func, rows, last_change_tick, change_tick, world, start, s, edits)
                && call_ensures(
                func,
                self.call_at(s, world, row, last_change_tick, change_tick),
                (end, edit),
            ) implies self.asks_for(
            func,
            more,
            last_change_tick,
            change_tick,
            world,
            start,
            end,
            asked,
        ) by {
            let trace = choose|trace: Seq<S>| #[trigger]
                self.edit_trace(func, rows, last_change_tick, change_tick, world, trace, edits)
                    && trace[0] == start && trace.last() == s;
            let longer = trace.push(end);
            assert forall|i: int| 0 <= i < more.len() implies (#[trigger] asked[i]).0 == more[i]
                && call_ensures(
                func,
                self.call_at(longer[i], world, more[i], last_change_tick, change_tick),
                (longer[i + 1], asked[i].1),
            ) by {
                if i < n {
                    assert(edits[i].0 == rows[i]);
                }
            }
            assert(self.edit_trace(
                func,
                more,
                last_change_tick,
                change_tick,
                world,
                longer,
                asked,
            ));
        }
        assert forall|all: Seq<(Slot, Q::Edit)>| #[trigger]
            self.asks_for(
                func,
                more,
                last_change_tick,
                change_tick,
                world,
                start,
                end,
                all,
            ) implies all.len() == rows.len() + 1 && all.last().0 == row by {
            assert(more[n] == row);
            assert(all[n].0 == more[n]);
        }
    }

    /// Without edits the world stays as it was.
    pub proof fn nothing_applied(&self, before: World<C>, after: World<C>)
        ensures
            self.applied(before, Seq::empty(), after) <==> before == after,
    {
        assert(self.apply_trace(Seq::empty(), seq![before]));
    }

    /// One more edit is made in the world that those before led to, at its own row.
    pub proof fn one_more_applied(
        &self,
        before: World<C>,
        edits: Seq<(Slot, Q::Edit)>,
        row: Slot,
        edit: Q::Edit,
        after: World<C>,
    )
        ensures
            self.applied(before, edits.push((row, edit)), after) <==> exists|middle: World<C>|
                #![trigger self.applied(before, edits, middle)]
                self.applied(before, edits, middle) && Q::edited(
                    middle,
                    self.fetch_state,
                    row,
                    edit,
                    after,
                ),
    {
        let all = edits.push((row, edit));
        let n = edits.len() as int;
        if self.applied(before, all, after) {
            let worlds = choose|worlds: Seq<World<C>>| #[trigger]
                self.apply_trace(all, worlds) && worlds[0] == before && worlds.last() == after;
            let fewer = worlds.drop_last();
            assert forall|i: int| 0 <= i < edits.len() implies Q::edited(
                fewer[i],
                self.fetch_state,
                (#[trigger] edits[i]).0,
                edits[i].1,
                fewer[i + 1],
            ) by {
                assert(all[i] == edits[i]);
            }
            assert(self.apply_trace(edits, fewer));
            assert(self.applied(before, edits, worlds[n]));
            assert(all[n] == (row, edit));
        }
        assert forall|middle: World<C>|
            #![trigger self.applied(before, edits, middle)]
            self.applied(before, edits, middle) && Q::edited(
                middle,
                self.fetch_state,
                row,
                edit,
                after,
            ) implies self.applied(before, all, after) by {
            let worlds = choose|worlds: Seq<World<C>>| #[trigger]
                self.apply_trace(edits, worlds) && worlds[0] == before && worlds.last() == middle;
            let more = worlds.push(after);
            assert forall|i: int| 0 <= i < all.len() implies Q::edited(
                more[i],
                self.fetch_state,
                (#[trigger] all[i]).0,
                all[i].1,
                more[i + 1],
            ) by {
                if i < n {
                    assert(all[i] == edits[i]);
                }
            }
            assert(self.apply_trace(all, more));
        }
    }
}

} // verus!
