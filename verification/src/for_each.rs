//! Running a function on each result of a query.
//!
//! The function takes the value so far and an item, and gives the next value; what it would keep
//! between calls is in that value.
use vstd::prelude::*;
use crate::fetch::{Fetch, Place, Slot, WorldQuery};
use crate::rows::{
    callable_from, callable_next, callable_part, folds, folds_append, folds_none, folds_push, passing,
    passing_append, passing_push, taken, taken_append,
};
use crate::state::QueryState;
use crate::world::World;

verus! {

impl<C: 'static, Q: WorldQuery<C>, F: WorldQuery<C>> QueryState<C, Q, F> {
    /// Points a fetch and a filter at a place.
    pub(crate) fn point_at<
        'w,
        QF: Fetch<'w, C, State = Q::State>,
        FF: Fetch<'w, C, State = F::State>,
    >(
        &self,
        fetch: &mut QF,
        filter: &mut FF,
        place: Place,
    )
        requires
            old(fetch).context().world.wf(),
            old(filter).context().world == old(fetch).context().world,
            old(fetch).context().state == self.fetch_state,
            old(filter).context().state == self.filter_state,
            self.ready(old(fetch).context().world),
            self.place_fits(old(fetch).context().world, place),
            place is Table ==> QF::dense() && FF::dense(),
        ensures
            final(fetch).context() == old(fetch).context(),
            final(filter).context() == old(filter).context(),
            final(fetch).place() == Some(place),
            final(filter).place() == Some(place),
    {
        match place {
            Place::Table(table) => {
                QF::set_table(&mut *fetch, &self.fetch_state, table);
                FF::set_table(&mut *filter, &self.filter_state, table);
            },
            Place::Archetype(archetype) => {
                QF::set_archetype(&mut *fetch, &self.fetch_state, archetype);
                FF::set_archetype(
                    &mut *filter,
                    &self.filter_state,
                    archetype,
                );
            },
        }
    }

    /// Runs `func` on the results among some rows of the place that the fetch and the filter are
    /// pointed at.
    pub(crate) fn fold_rows<
        'w,
        QF: Fetch<'w, C, State = Q::State>,
        FF: Fetch<'w, C, State = F::State>,
        S,
        FN: Fn(S, QF::Item) -> S,
    >(
        &self,
        fetch: &mut QF,
        filter: &mut FF,
        place: Place,
        from: usize,
        to: usize,
        start: S,
        func: &FN,
    ) -> (end: S)
        requires
            old(fetch).context().world.wf(),
            old(filter).context().world == old(fetch).context().world,
            old(fetch).context().state == self.fetch_state,
            old(filter).context().state == self.filter_state,
            self.ready(old(fetch).context().world),
            self.place_fits(old(fetch).context().world, place),
            place is Table ==> QF::dense() && FF::dense(),
            old(fetch).place() == Some(place),
            old(filter).place() == Some(place),
            from <= to <= old(fetch).context().world.entities_at(place).len(),
            callable_from(
                *func,
                start,
                taken::<C, QF>(
                    old(fetch).context(),
                    passing::<C, FF>(
                        old(filter).context(),
                        old(fetch).context().world.slots_at(place).subrange(from as int, to as int),
                    ),
                ),
            ),
        ensures
            final(fetch).context() == old(fetch).context(),
            final(filter).context() == old(filter).context(),
            final(fetch).place() == Some(place),
            final(filter).place() == Some(place),
            folds(
                *func,
                start,
                taken::<C, QF>(
                    old(fetch).context(),
                    passing::<C, FF>(
                        old(filter).context(),
                        old(fetch).context().world.slots_at(place).subrange(from as int, to as int),
                    ),
                ),
                end,
            ),
    {
        let ghost cx = fetch.context();
        let ghost fx = filter.context();
        let ghost slots = cx.world.slots_at(place);
        let mut acc = start;
        let mut row = from;
        proof {
            folds_none::<S, QF::Item, FN>(*func, start);
            reveal(Seq::filter);
            assert(taken::<C, QF>(
                cx,
                passing::<C, FF>(fx, slots.subrange(from as int, from as int)),
            ) =~= Seq::<QF::Item>::empty());
        }
        while row < to
            invariant
                from <= row <= to <= slots.len(),
                slots == cx.world.slots_at(place),
                cx == old(fetch).context(),
                fx == old(filter).context(),
                cx.world.wf(),
                fx.world == cx.world,
                cx.state == self.fetch_state,
                fx.state == self.filter_state,
                self.ready(cx.world),
                self.place_fits(cx.world, place),
                place is Table ==> QF::dense() && FF::dense(),
                fetch.context() == cx,
                filter.context() == fx,
                fetch.place() == Some(place),
                filter.place() == Some(place),
                callable_from(
                    *func,
                    start,
                    taken::<C, QF>(
                        cx,
                        passing::<C, FF>(fx, slots.subrange(from as int, to as int)),
                    ),
                ),
                folds(
                    *func,
                    start,
                    taken::<C, QF>(
                        cx,
                        passing::<C, FF>(fx, slots.subrange(from as int, row as int)),
                    ),
                    acc,
                ),
            decreases to - row,
        {
            let ghost before = slots.subrange(from as int, row as int);
            let ghost slot = Slot { place, row };
            proof {
                assert(slots[row as int] == slot);
                assert(slots.subrange(from as int, row + 1) =~= before.push(slot));
                passing_push::<C, FF>(fx, before, slot);
            }
            let passes = match place {
                Place::Table(_) => filter.table_filter_fetch(row),
                Place::Archetype(_) => filter.archetype_filter_fetch(row),
            };
            if passes {
                let item = match place {
                    Place::Table(_) => fetch.table_fetch(row),
                    Place::Archetype(_) => fetch.archetype_fetch(row),
                };
                let ghost middle = acc;
                proof {
                    let all = slots.subrange(from as int, to as int);
                    let rest = slots.subrange(row + 1, to as int);
                    assert(all =~= before.push(slot) + rest);
                    passing_append::<C, FF>(fx, before.push(slot), rest);
                    let done = passing::<C, FF>(fx, before);
                    let left = passing::<C, FF>(fx, rest);
                    assert(taken::<C, QF>(cx, done.push(slot) + left) =~= taken::<C, QF>(
                        cx,
                        done,
                    ).push(item) + taken::<C, QF>(cx, left));
                    callable_next(
                        *func,
                        start,
                        taken::<C, QF>(cx, done),
                        acc,
                        item,
                        taken::<C, QF>(cx, left),
                    );
                }
                acc = func(acc, item);
                proof {
                    let let_through = passing::<C, FF>(fx, before);
                    folds_push(*func, start, taken::<C, QF>(cx, let_through), middle, item, acc);
                    assert(taken::<C, QF>(cx, let_through.push(slot)) =~= taken::<C, QF>(
                        cx,
                        let_through,
                    ).push(item));
                }
            }
            row = row + 1;
        }
        acc
    }

    /// Runs `func` on each query result for the given world, where the last change and the current
    /// change tick are given.
    pub fn for_each_unchecked_manual<
        'w,
        QF: Fetch<'w, C, State = Q::State>,
        S,
        FN: Fn(S, QF::Item) -> S,
    >(
        &self,
        world: &'w World<C>,
        start: S,
        func: FN,
        last_change_tick: u32,
        change_tick: u32,
    ) -> (end: S)
        requires
            world.wf(),
            self.valid_for(*world),
            <Q::Fetch<'w> as Fetch<'w, C>>::dense() ==> QF::dense(),
            callable_from(
                func,
                start,
                self.results::<QF>(*world, last_change_tick, change_tick, Self::dense()),
            ),
        ensures
            folds(
                func,
                start,
                self.results::<QF>(
                    *world,
                    last_change_tick,
                    change_tick,
                    Self::dense(),
                ),
                end,
            ),
    {
        let mut fetch = QF::init(world, &self.fetch_state, last_change_tick, change_tick);
        let mut filter = <F::Fetch<'w> as Fetch<'w, C>>::init(
            world,
            &self.filter_state,
            last_change_tick,
            change_tick,
        );
        let dense = <Q::Fetch<'w> as Fetch<'w, C>>::is_dense() && <F::Fetch<'w> as Fetch<
            'w,
            C,
        >>::is_dense();
        let count = if dense {
            self.matched_table_ids.len()
        } else {
            self.matched_archetype_ids.len()
        };
        let ghost cx = self.fetch_context(*world, last_change_tick, change_tick);
        let ghost fx = self.filter_context(*world, last_change_tick, change_tick);
        let ghost places = self.places(dense);
        let mut acc = start;
        let mut i: usize = 0;
        proof {
            folds_none::<S, QF::Item, FN>(func, start);
            reveal(Seq::filter);
            assert(world.slots_in(places.take(0)) =~= Seq::empty());
            assert(taken::<C, QF>(
                cx,
                passing::<C, F::Fetch<'w>>(fx, world.slots_in(places.take(0))),
            ) =~= Seq::<QF::Item>::empty());
        }
        while i < count
            invariant
                i <= count,
                count == places.len(),
                places == self.places(dense),
                dense == Self::dense(),
                dense ==> QF::dense() && <F::Fetch<'w> as Fetch<'w, C>>::dense(),
                world.wf(),
                self.valid_for(*world),
                cx == self.fetch_context(*world, last_change_tick, change_tick),
                fx == self.filter_context(*world, last_change_tick, change_tick),
                fetch.context() == cx,
                filter.context() == fx,
                callable_from(
                    func,
                    start,
                    taken::<C, QF>(cx, passing::<C, F::Fetch<'w>>(fx, world.slots_in(places))),
                ),
                folds(
                    func,
                    start,
                    taken::<C, QF>(
                        cx,
                        passing::<C, F::Fetch<'w>>(fx, world.slots_in(places.take(i as int))),
                    ),
                    acc,
                ),
            decreases count - i,
        {
            let place = if dense {
                Place::Table(self.matched_table_ids[i])
            } else {
                Place::Archetype(self.matched_archetype_ids[i])
            };
            proof {
                assert(place == places[i as int]);
                self.places_fit(*world, dense, i as int);
            }
            let len = match place {
                Place::Table(table) => world.tables[table.index()].len(),
                Place::Archetype(archetype) => world.archetypes[archetype.index()].len(),
            };
            self.point_at::<QF, F::Fetch<'w>>(&mut fetch, &mut filter, place);
            let ghost middle = acc;
            proof {
                let before = world.slots_in(places.take(i as int));
                let slots = world.slots_at(place);
                assert(slots.subrange(0, len as int) =~= slots);
                world.slots_in_next(places, i as int);
                world.slots_in_prefix(places, i + 1);
                let all = world.slots_in(places);
                let rest = all.skip((before + slots).len() as int);
                assert(all =~= before + slots + rest);
                passing_append::<C, F::Fetch<'w>>(fx, before + slots, rest);
                passing_append::<C, F::Fetch<'w>>(fx, before, slots);
                let first = passing::<C, F::Fetch<'w>>(fx, before);
                let second = passing::<C, F::Fetch<'w>>(fx, slots);
                let third = passing::<C, F::Fetch<'w>>(fx, rest);
                taken_append::<C, QF>(cx, first + second, third);
                taken_append::<C, QF>(cx, first, second);
                callable_part(
                    func,
                    start,
                    taken::<C, QF>(cx, first),
                    acc,
                    taken::<C, QF>(cx, second),
                    taken::<C, QF>(cx, third),
                );
            }
            acc = self.fold_rows::<QF, F::Fetch<'w>, S, FN>(
                &mut fetch,
                &mut filter,
                place,
                0,
                len,
                acc,
                &func,
            );
            proof {
                let before = world.slots_in(places.take(i as int));
                let slots = world.slots_at(place);
                assert(slots.subrange(0, len as int) =~= slots);
                world.slots_in_next(places, i as int);
                passing_append::<C, F::Fetch<'w>>(fx, before, slots);
                let first = passing::<C, F::Fetch<'w>>(fx, before);
                let second = passing::<C, F::Fetch<'w>>(fx, slots);
                taken_append::<C, QF>(cx, first, second);
                folds_append(
                    func,
                    start,
                    taken::<C, QF>(cx, first),
                    middle,
                    taken::<C, QF>(cx, second),
                    acc,
                );
            }
            i = i + 1;
        }
        assert(places.take(count as int) =~= places);
        acc
    }

    /// Runs `func` on each query result for the given world, in order.
    ///
    /// This takes items for reading; see [`QueryState::for_each_mut`] for those that may be written
    /// to.
    pub fn for_each<'w, S, FN: Fn(S, <Q::ReadOnlyFetch<'w> as Fetch<'w, C>>::Item) -> S>(
        &mut self,
        world: &'w World<C>,
        start: S,
        func: FN,
    ) -> (end: S)
        requires
            world.wf(),
            old(self).valid_for(*world),
            forall|updated: QueryState<C, Q, F>| #[trigger]
                updated.updated_from(*old(self), *world) ==> callable_from(
                    func,
                    start,
                    updated.results::<Q::ReadOnlyFetch<'w>>(
                        *world,
                        world.last_change_tick,
                        world.change_tick,
                        Self::dense(),
                    ),
                ),
        ensures
            final(self).updated_from(*old(self), *world),
            final(self).valid_for(*world),
            folds(
                func,
                start,
                final(self).results::<Q::ReadOnlyFetch<'w>>(
                    *world,
                    world.last_change_tick,
                    world.change_tick,
                    Self::dense(),
                ),
                end,
            ),
    {
        self.update_archetypes(world);
        proof {
            Q::read_only_is_as_dense();
        }
        self.for_each_unchecked_manual::<Q::ReadOnlyFetch<'w>, S, FN>(
            world,
            start,
            func,
            world.last_change_tick(),
            world.read_change_tick(),
        )
    }

    /// Runs `func` on each query result for the given world, in order, without exclusive access to
    /// the world.
    pub fn for_each_unchecked<'w, S, FN: Fn(S, <Q::Fetch<'w> as Fetch<'w, C>>::Item) -> S>(
        &mut self,
        world: &'w World<C>,
        start: S,
        func: FN,
    ) -> (end: S)
        requires
            world.wf(),
            old(self).valid_for(*world),
            forall|updated: QueryState<C, Q, F>| #[trigger]
                updated.updated_from(*old(self), *world) ==> callable_from(
                    func,
                    start,
                    updated.results::<Q::Fetch<'w>>(
                        *world,
                        world.last_change_tick,
                        world.change_tick,
                        Self::dense(),
                    ),
                ),
        ensures
            final(self).updated_from(*old(self), *world),
            final(self).valid_for(*world),
            folds(
                func,
                start,
                final(self).results::<Q::Fetch<'w>>(
                    *world,
                    world.last_change_tick,
                    world.change_tick,
                    Self::dense(),
                ),
                end,
            ),
    {
        self.update_archetypes(world);
        self.for_each_unchecked_manual::<Q::Fetch<'w>, S, FN>(
            world,
            start,
            func,
            world.last_change_tick(),
            world.read_change_tick(),
        )
    }
}

} // verus!
