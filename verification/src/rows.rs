//! The rows that a query goes through, and what it takes from them.
use vstd::prelude::*;
use crate::fetch::{place_matched, table_matched_by, Context, Fetch, Place, Slot, WorldQuery};
use crate::ids::{ArchetypeId, TableId};
use crate::state::{archetype_fits, QueryState};
use crate::world::World;

verus! {

/// The rows that a filter lets through.
pub open spec fn passing<'w, C: 'static, FF: Fetch<'w, C>>(
    context: Context<FF::State, C>,
    slots: Seq<Slot>,
) -> Seq<Slot> {
    slots.filter(|slot: Slot| FF::passes(context, slot))
}

/// What a query takes from rows.
pub open spec fn taken<'w, C: 'static, QF: Fetch<'w, C>>(
    context: Context<QF::State, C>,
    slots: Seq<Slot>,
) -> Seq<QF::Item> {
    slots.map_values(|slot: Slot| QF::item(context, slot))
}

/// A filter treats the parts of a sequence of rows one by one.
pub proof fn passing_append<'w, C: 'static, FF: Fetch<'w, C>>(
    context: Context<FF::State, C>,
    first: Seq<Slot>,
    second: Seq<Slot>,
)
    ensures
        passing::<C, FF>(context, first + second) == passing::<C, FF>(context, first) + passing::<
            C,
            FF,
        >(context, second),
{
    Seq::filter_distributes_over_add(first, second, |slot: Slot| FF::passes(context, slot));
}

/// One more row is let through, or not.
pub proof fn passing_push<'w, C: 'static, FF: Fetch<'w, C>>(
    context: Context<FF::State, C>,
    slots: Seq<Slot>,
    slot: Slot,
)
    ensures
        passing::<C, FF>(context, slots.push(slot)) == if FF::passes(context, slot) {
            passing::<C, FF>(context, slots).push(slot)
        } else {
            passing::<C, FF>(context, slots)
        },
{
    reveal(Seq::filter);
    assert(slots.push(slot).drop_last() =~= slots);
}

/// What is taken from rows and then from more rows.
pub proof fn taken_append<'w, C: 'static, QF: Fetch<'w, C>>(
    context: Context<QF::State, C>,
    first: Seq<Slot>,
    second: Seq<Slot>,
)
    ensures
        taken::<C, QF>(context, first + second) == taken::<C, QF>(context, first) + taken::<C, QF>(
            context,
            second,
        ),
{
    assert(taken::<C, QF>(context, first + second) =~= taken::<C, QF>(context, first) + taken::<
        C,
        QF,
    >(context, second));
}

impl<C: 'static> World<C> {
    /// The rows of one more place follow those of the places before.
    pub proof fn slots_in_next(&self, places: Seq<Place>, i: int)
        requires
            0 <= i < places.len(),
        ensures
            self.slots_in(places.take(i + 1)) == self.slots_in(places.take(i)) + self.slots_at(
                places[i],
            ),
    {
        assert(places.take(i + 1).drop_last() =~= places.take(i));
        assert(places.take(i + 1).last() == places[i]);
    }
}

impl<C: 'static> World<C> {
    /// The rows of the first places come first.
    pub proof fn slots_in_prefix(&self, places: Seq<Place>, i: int)
        requires
            0 <= i <= places.len(),
        ensures
            self.slots_in(places.take(i)).is_prefix_of(self.slots_in(places)),
        decreases places.len() - i,
    {
        if i < places.len() {
            self.slots_in_next(places, i);
            self.slots_in_prefix(places, i + 1);
        } else {
            assert(places.take(i) =~= places);
        }
    }
}

impl<C: 'static, Q: WorldQuery<C>, F: WorldQuery<C>> QueryState<C, Q, F> {
    /// Whether rows are taken from whole tables.
    pub open spec fn dense<'w>() -> bool {
        <Q::Fetch<'w> as Fetch<'w, C>>::dense() && <F::Fetch<'w> as Fetch<'w, C>>::dense()
    }

    /// The places that the query goes through: the matched tables, or the matched archetypes.
    pub open spec fn places(&self, dense: bool) -> Seq<Place> {
        if dense {
            self.matched_table_ids@.map_values(|id: TableId| Place::Table(id))
        } else {
            self.matched_archetype_ids@.map_values(|id: ArchetypeId| Place::Archetype(id))
        }
    }

    /// The rows of those places that the filter lets through.
    pub open spec fn rows<'w>(
        &self,
        world: World<C>,
        last_change_tick: u32,
        change_tick: u32,
        dense: bool,
    ) -> Seq<Slot> {
        passing::<C, F::Fetch<'w>>(
            self.filter_context(world, last_change_tick, change_tick),
            world.slots_in(self.places(dense)),
        )
    }

    /// The results of the query, in order.
    pub open spec fn results<'w, QF: Fetch<'w, C, State = Q::State>>(
        &self,
        world: World<C>,
        last_change_tick: u32,
        change_tick: u32,
        dense: bool,
    ) -> Seq<QF::Item> {
        taken::<C, QF>(
            self.fetch_context(world, last_change_tick, change_tick),
            self.rows(world, last_change_tick, change_tick, dense),
        )
    }

    /// The query and its filter may be asked about the place.
    pub open spec fn place_fits(&self, world: World<C>, place: Place) -> bool {
        &&& place_matched(self.fetch_state, world, place)
        &&& place_matched(self.filter_state, world, place)
    }

    /// The query and its filter may be asked about each place that they go through.
    pub proof fn places_fit(&self, world: World<C>, dense: bool, i: int)
        requires
            world.wf(),
            self.valid_for(world),
            0 <= i < self.places(dense).len(),
        ensures
            self.place_fits(world, self.places(dense)[i]),
    {
        if dense {
            let table = self.matched().tables[i];
            assert(self.matched().table_owned(world, table));
            let k = choose|k: int| #[trigger] self.matched().table_owned_by(world, table, k);
            let archetype = self.matched().archetypes[k];
            assert(archetype_fits(self.fetch_state, self.filter_state, world, archetype));
            let a = archetype.0 as int;
            assert(world.archetype_shape_wf(a));
            assert(table_matched_by(self.fetch_state, world, table, a));
            assert(table_matched_by(self.filter_state, world, table, a));
        } else {
            assert(archetype_fits(
                self.fetch_state,
                self.filter_state,
                world,
                self.matched().archetypes[i],
            ));
        }
    }
}

/// The values that calling `func` on each item in turn can go through.
pub open spec fn fold_trace<S, T, FN: Fn(S, T) -> S>(
    func: FN,
    items: Seq<T>,
    trace: Seq<S>,
) -> bool {
    &&& trace.len() == items.len() + 1
    &&& forall|i: int|
        0 <= i < items.len() ==> call_ensures(func, (trace[i], #[trigger] items[i]), trace[i + 1])
}

/// Starting from `start`, calling `func` on each item in turn can lead to `end`.
pub open spec fn folds<S, T, FN: Fn(S, T) -> S>(
    func: FN,
    start: S,
    items: Seq<T>,
    end: S,
) -> bool {
    exists|trace: Seq<S>| #[trigger]
        fold_trace(func, items, trace) && trace[0] == start && trace.last() == end
}

/// Starting from `start`, `func` can be called on each item in turn, with each value that the calls
/// before can have led to.
pub open spec fn callable_from<S, T, FN: Fn(S, T) -> S>(
    func: FN,
    start: S,
    items: Seq<T>,
) -> bool {
    forall|i: int, s: S|
        0 <= i < items.len() && folds(func, start, items.take(i), s) ==> #[trigger] call_requires(
            func,
            (s, items[i]),
        )
}

/// After the calls on the items before, the call on the next one can be made.
pub proof fn callable_next<S, T, FN: Fn(S, T) -> S>(
    func: FN,
    start: S,
    before: Seq<T>,
    middle: S,
    item: T,
    rest: Seq<T>,
)
    requires
        callable_from(func, start, before.push(item) + rest),
        folds(func, start, before, middle),
    ensures
        call_requires(func, (middle, item)),
{
    let items = before.push(item) + rest;
    let k = before.len() as int;
    assert(items.take(k) =~= before);
    assert(call_requires(func, (middle, items[k])));
}

/// After the calls on the items before, those on the following ones can be made.
pub proof fn callable_part<S, T, FN: Fn(S, T) -> S>(
    func: FN,
    start: S,
    before: Seq<T>,
    middle: S,
    part: Seq<T>,
    rest: Seq<T>,
)
    requires
        callable_from(func, start, before + part + rest),
        folds(func, start, before, middle),
    ensures
        callable_from(func, middle, part),
{
    let items = before + part + rest;
    assert forall|i: int, s: S|
        0 <= i < part.len() && folds(func, middle, part.take(i), s) implies #[trigger] call_requires(
        func,
        (s, part[i]),
    ) by {
        folds_append(func, start, before, middle, part.take(i), s);
        let k = before.len() + i;
        assert(items.take(k) =~= before + part.take(i));
        assert(call_requires(func, (s, items[k])));
    }
}

/// No call.
pub proof fn folds_none<S, T, FN: Fn(S, T) -> S>(func: FN, start: S)
    ensures
        folds(func, start, Seq::<T>::empty(), start),
{
    assert(fold_trace(func, Seq::<T>::empty(), seq![start]));
}

/// One more call.
pub proof fn folds_push<S, T, FN: Fn(S, T) -> S>(
    func: FN,
    start: S,
    items: Seq<T>,
    middle: S,
    item: T,
    end: S,
)
    requires
        folds(func, start, items, middle),
        call_ensures(func, (middle, item), end),
    ensures
        folds(func, start, items.push(item), end),
{
    let trace = choose|trace: Seq<S>| #[trigger]
        fold_trace(func, items, trace) && trace[0] == start && trace.last() == middle;
    let longer = trace.push(end);
    assert forall|i: int| 0 <= i < items.push(item).len() implies call_ensures(
        func,
        (longer[i], #[trigger] items.push(item)[i]),
        longer[i + 1],
    ) by {
        if i < items.len() {
            assert(call_ensures(func, (trace[i], items[i]), trace[i + 1]));
        }
    }
    assert(fold_trace(func, items.push(item), longer));
}

/// Calls on some items and then on others.
pub proof fn folds_append<S, T, FN: Fn(S, T) -> S>(
    func: FN,
    start: S,
    first: Seq<T>,
    middle: S,
    second: Seq<T>,
    end: S,
)
    requires
        folds(func, start, first, middle),
        folds(func, middle, second, end),
    ensures
        folds(func, start, first + second, end),
{
    let left = choose|trace: Seq<S>| #[trigger]
        fold_trace(func, first, trace) && trace[0] == start && trace.last() == middle;
    let right = choose|trace: Seq<S>| #[trigger]
        fold_trace(func, second, trace) && trace[0] == middle && trace.last() == end;
    let whole = left + right.skip(1);
    let items = first + second;
    assert forall|i: int| 0 <= i < items.len() implies call_ensures(
        func,
        (whole[i], #[trigger] items[i]),
        whole[i + 1],
    ) by {
        if i < first.len() {
            assert(call_ensures(func, (left[i], first[i]), left[i + 1]));
        } else {
            let k = i - first.len();
            assert(call_ensures(func, (right[k], second[k]), right[k + 1]));
        }
    }
    assert(fold_trace(func, items, whole));
}

} // verus!
