//! Which rows a query goes through, and in which order.
use vstd::prelude::*;
use crate::fetch::{Context, Fetch, Place, Slot, WorldQuery};
use crate::state::QueryState;
use crate::world::World;

verus! {

/// What is left of a sequence stays in order.
pub proof fn filter_keeps_order<A>(s: Seq<A>, pred: spec_fn(A) -> bool, i: int, j: int) -> (found: (
    int,
    int,
))
    requires
        0 <= i < j < s.filter(pred).len(),
    ensures
        0 <= found.0 < found.1 < s.len(),
        s[found.0] == s.filter(pred)[i],
        s[found.1] == s.filter(pred)[j],
    decreases s.len(),
{
    reveal(Seq::filter);
    if s.len() == 0 {
        (0, 0)
    } else {
        let before = s.drop_last();
        if j < before.filter(pred).len() {
            filter_keeps_order(before, pred, i, j)
        } else {
            let first = before.filter(pred)[i];
            assert(before.filter(pred).contains(first));
            before.lemma_filter_contains_rev(pred, first);
            let a = choose|a: int| 0 <= a < before.len() && before[a] == first;
            (a, s.len() - 1)
        }
    }
}

impl<C: 'static> World<C> {
    /// The rows of places come place by place, and in each by number.
    proof fn rows_by_place(&self, places: Seq<Place>, a: int, b: int, p: int, q: int)
        requires
            forall|i: int| 0 <= i < places.len() ==> self.has_place(#[trigger] places[i]),
            places.no_duplicates(),
            0 <= a < b < self.slots_in(places).len(),
            0 <= p < places.len(),
            0 <= q < places.len(),
            self.slots_in(places)[a].place == places[p],
            self.slots_in(places)[b].place == places[q],
        ensures
            p < q || p == q && self.slots_in(places)[a].row < self.slots_in(places)[b].row,
        decreases places.len(),
    {
        let n = places.len() - 1;
        let fewer = places.drop_last();
        let before = self.slots_in(fewer);
        let last = self.slots_at(places.last());
        let slots = self.slots_in(places);
        self.slots_in_are_the_rows(fewer);
        assert(self.has_place(places[n]));
        match places.last() {
            Place::Table(table) => {
                assert(self.tables@[table.0 as int].entities.len() <= usize::MAX);
            },
            Place::Archetype(archetype) => {
                assert(self.archetypes@[archetype.0 as int].entities.len() <= usize::MAX);
            },
        }
        if a < before.len() {
            assert(before.contains(before[a]));
            let k = choose|k: int| 0 <= k < fewer.len() && fewer[k] == before[a].place;
            assert(places[k] == places[p]);
        }
        if b < before.len() {
            assert(before.contains(before[b]));
            let k = choose|k: int| 0 <= k < fewer.len() && fewer[k] == before[b].place;
            assert(places[k] == places[q]);
            self.rows_by_place(fewer, a, b, p, q);
        } else {
            assert(slots[b] == last[b - before.len()]);
            assert(places[n] == places[q]);
            if a >= before.len() {
                assert(slots[a] == last[a - before.len()]);
                assert(places[n] == places[p]);
            }
        }
    }
}

impl<C: 'static, Q: WorldQuery<C>, F: WorldQuery<C>> QueryState<C, Q, F> {
    /// A query goes through whole tables just if both it and its filter can.
    pub proof fn density_needs_both<'w>()
        ensures
            Self::dense() <==> <Q::Fetch<'w> as Fetch<'w, C>>::dense() && <F::Fetch<
                'w,
            > as Fetch<'w, C>>::dense(),
    {
    }

    /// There is one result for each row, and it is what the query takes from that row.
    pub proof fn results_are_taken_from_rows<'w, QF: Fetch<'w, C, State = Q::State>>(
        &self,
        world: World<C>,
        last_change_tick: u32,
        change_tick: u32,
        dense: bool,
        i: int,
    )
        ensures
            ({
                let rows = self.rows(world, last_change_tick, change_tick, dense);
                let results = self.results::<QF>(world, last_change_tick, change_tick, dense);
                &&& results.len() == rows.len()
                &&& 0 <= i < rows.len() ==> results[i] == QF::item(
                    Context { state: self.fetch_state, world, last_change_tick, change_tick },
                    rows[i],
                )
            }),
    {
    }

    /// The rows are, each once, those of the matched tables, or of the matched archetypes, that the
    /// filter lets through.
    pub proof fn rows_are_those_let_through<'w>(
        &self,
        world: World<C>,
        last_change_tick: u32,
        change_tick: u32,
        dense: bool,
        slot: Slot,
    )
        requires
            world.wf(),
            self.valid_for(world),
        ensures
            ({
                let rows = self.rows(world, last_change_tick, change_tick, dense);
                let filter = Context {
                    state: self.filter_state,
                    world,
                    last_change_tick,
                    change_tick,
                };
                &&& rows.no_duplicates()
                &&& rows.contains(slot) <==> <F::Fetch<'w> as Fetch<'w, C>>::passes(filter, slot)
                    && match slot.place {
                    Place::Table(table) => dense && self.matched_table_ids@.contains(table)
                        && slot.row < world.tables@[table.0 as int].entities@.len(),
                    Place::Archetype(archetype) => !dense && self.matched_archetype_ids@.contains(
                        archetype,
                    ) && slot.row < world.archetypes@[archetype.0 as int].entities@.len(),
                }
            }),
    {
        self.rows_are(world, last_change_tick, change_tick, dense);
        let places = self.places(dense);
        if places.contains(slot.place) {
            let p = choose|p: int| 0 <= p < places.len() && places[p] == slot.place;
            match slot.place {
                Place::Table(table) => {
                    assert(self.matched_table_ids@[p] == table);
                },
                Place::Archetype(archetype) => {
                    assert(self.matched_archetype_ids@[p] == archetype);
                },
            }
        }
        match slot.place {
            Place::Table(table) => {
                if dense && self.matched_table_ids@.contains(table) {
                    let p = choose|p: int|
                        0 <= p < self.matched_table_ids@.len() && self.matched_table_ids@[p]
                            == table;
                    assert(places[p] == slot.place);
                    self.places_fit(world, dense, p);
                }
            },
            Place::Archetype(archetype) => {
                if !dense && self.matched_archetype_ids@.contains(archetype) {
                    let p = choose|p: int|
                        0 <= p < self.matched_archetype_ids@.len()
                            && self.matched_archetype_ids@[p] == archetype;
                    assert(places[p] == slot.place);
                    self.places_fit(world, dense, p);
                }
            },
        }
    }

    /// The rows come in the order in which their tables, or archetypes, were matched, and within one
    /// by number.
    pub proof fn rows_come_in_order<'w>(
        &self,
        world: World<C>,
        last_change_tick: u32,
        change_tick: u32,
        dense: bool,
        i: int,
        j: int,
        p: int,
        q: int,
    )
        requires
            world.wf(),
            self.valid_for(world),
            0 <= i < j < self.rows(world, last_change_tick, change_tick, dense).len(),
            0 <= p,
            0 <= q,
            ({
                let rows = self.rows(world, last_change_tick, change_tick, dense);
                if dense {
                    &&& p < self.matched_table_ids@.len()
                    &&& q < self.matched_table_ids@.len()
                    &&& rows[i].place == Place::Table(self.matched_table_ids@[p])
                    &&& rows[j].place == Place::Table(self.matched_table_ids@[q])
                } else {
                    &&& p < self.matched_archetype_ids@.len()
                    &&& q < self.matched_archetype_ids@.len()
                    &&& rows[i].place == Place::Archetype(self.matched_archetype_ids@[p])
                    &&& rows[j].place == Place::Archetype(self.matched_archetype_ids@[q])
                }
            }),
        ensures
            ({
                let rows = self.rows(world, last_change_tick, change_tick, dense);
                p < q || p == q && rows[i].row < rows[j].row
            }),
    {
        let places = self.places(dense);
        let context = self.filter_context(world, last_change_tick, change_tick);
        assert forall|k: int| 0 <= k < places.len() implies world.has_place(
            #[trigger] places[k],
        ) by {
            self.places_fit(world, dense, k);
        }
        assert forall|k: int, l: int| 0 <= k < l < places.len() implies places[k] != places[l] by {
            if dense {
                assert(self.matched_table_ids@[k] != self.matched_table_ids@[l]);
            } else {
                assert(self.matched_archetype_ids@[k] != self.matched_archetype_ids@[l]);
            }
        }
        let (a, b) = filter_keeps_order(
            world.slots_in(places),
            |slot: Slot| <F::Fetch<'w> as Fetch<'w, C>>::passes(context, slot),
            i,
            j,
        );
        world.rows_by_place(places, a, b, p, q);
    }
}

} // verus!
