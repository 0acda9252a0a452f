//! Which rows a query visits, and how the ways of visiting them agree.
use vstd::prelude::*;
use crate::error::QueryEntityError;
use crate::fetch::{Fetch, Place, Slot, WorldQuery};
use crate::ids::Entity;
use crate::state::{both_match, QueryState};
use crate::world::World;

verus! {

impl<C: 'static> World<C> {
    /// The rows of some places are just those that the places have, and none comes twice if no
    /// place does.
    pub proof fn slots_in_are_the_rows(&self, places: Seq<Place>)
        requires
            forall|i: int| 0 <= i < places.len() ==> self.has_place(#[trigger] places[i]),
            places.no_duplicates(),
        ensures
            self.slots_in(places).no_duplicates(),
            forall|slot: Slot| #[trigger]
                self.slots_in(places).contains(slot) <==> places.contains(slot.place)
                    && self.has_slot(slot),
        decreases places.len(),
    {
        let all = self.slots_in(places);
        if places.len() == 0 {
            assert forall|slot: Slot| #[trigger] all.contains(slot) <==> places.contains(slot.place)
                && self.has_slot(slot) by {}
        } else {
            let place = places.last();
            let before = self.slots_in(places.drop_last());
            let last = self.slots_at(place);
            self.slots_in_are_the_rows(places.drop_last());
            assert(self.has_place(places[places.len() - 1]));
            match place {
                Place::Table(table) => {
                    assert(self.tables@[table.0 as int].entities.len() <= usize::MAX);
                },
                Place::Archetype(archetype) => {
                    assert(self.archetypes@[archetype.0 as int].entities.len() <= usize::MAX);
                },
            }
            assert forall|slot: Slot| #[trigger] all.contains(slot) <==> places.contains(slot.place)
                && self.has_slot(slot) by {
                if all.contains(slot) {
                    let i = choose|i: int| 0 <= i < all.len() && all[i] == slot;
                    if i < before.len() {
                        assert(before.contains(slot));
                        let k = choose|k: int|
                            0 <= k < places.drop_last().len() && places.drop_last()[k]
                                == slot.place;
                        assert(places[k] == slot.place);
                    } else {
                        assert(last[i - before.len()] == slot);
                        assert(places[places.len() - 1] == slot.place);
                    }
                }
                if places.contains(slot.place) && self.has_slot(slot) {
                    let k = choose|k: int| 0 <= k < places.len() && places[k] == slot.place;
                    if k < places.len() - 1 {
                        assert(places.drop_last()[k] == slot.place);
                        assert(before.contains(slot));
                        let i = choose|i: int| 0 <= i < before.len() && before[i] == slot;
                        assert(all[i] == slot);
                    } else {
                        assert(last[slot.row as int] == slot);
                        assert(all[before.len() + slot.row] == slot);
                    }
                }
            }
            assert forall|i: int, j: int| 0 <= i < j < all.len() implies all[i] != all[j] by {
                if j < before.len() {
                    assert(before[i] == all[i] && before[j] == all[j]);
                } else if i >= before.len() {
                    assert(all[i] == last[i - before.len()]);
                    assert(all[j] == last[j - before.len()]);
                } else {
                    assert(before.contains(before[i]));
                    assert(places.drop_last().contains(all[i].place));
                    let k = choose|k: int|
                        0 <= k < places.drop_last().len() && places.drop_last()[k] == all[i].place;
                    assert(places[k] == all[i].place);
                    assert(all[j] == last[j - before.len()]);
                    assert(places[places.len() - 1] == all[j].place);
                }
            }
        }
    }

    /// An entity has one row only, among those of the tables and among those of the archetypes.
    proof fn one_row_each(&self, a: Slot, b: Slot)
        requires
            self.wf(),
            self.has_slot(a),
            self.has_slot(b),
            a.place is Table <==> b.place is Table,
            self.entity_at(a) == self.entity_at(b),
        ensures
            a == b,
    {
        match (a.place, b.place) {
            (Place::Table(t), Place::Table(u)) => {
                assert(self.table_row_wf(t.0 as int, a.row as int));
                assert(self.table_row_wf(u.0 as int, b.row as int));
            },
            (Place::Archetype(t), Place::Archetype(u)) => {
                assert(self.archetype_row_wf(t.0 as int, a.row as int));
                assert(self.archetype_row_wf(u.0 as int, b.row as int));
                assert(self.archetype_shape_wf(t.0 as int));
                assert(self.archetype_shape_wf(u.0 as int));
                assert(self.archetypes@[t.0 as int].entities.len() <= usize::MAX);
                assert(self.archetypes@[u.0 as int].entities.len() <= usize::MAX);
            },
            _ => {},
        }
    }
}

/// Leaving elements out of a sequence without duplicates brings in none.
proof fn filter_no_duplicates<A>(s: Seq<A>, pred: spec_fn(A) -> bool)
    requires
        s.no_duplicates(),
    ensures
        s.filter(pred).no_duplicates(),
        forall|x: A| #[trigger] s.filter(pred).contains(x) <==> s.contains(x) && pred(x),
    decreases s.len(),
{
    reveal(Seq::filter);
    if s.len() > 0 {
        let before = s.drop_last();
        filter_no_duplicates(before, pred);
        let f = before.filter(pred);
        let last = s.last();
        assert(!before.contains(last)) by {
            if before.contains(last) {
                let i = choose|i: int| 0 <= i < before.len() && before[i] == last;
                assert(s[i] == s[s.len() - 1]);
            }
        }
        assert forall|x: A| #[trigger] s.contains(x) <==> before.contains(x) || x == last by {
            if s.contains(x) {
                let i = choose|i: int| 0 <= i < s.len() && s[i] == x;
                if i < before.len() {
                    assert(before[i] == x);
                }
            }
            if before.contains(x) {
                let i = choose|i: int| 0 <= i < before.len() && before[i] == x;
                assert(s[i] == x);
            }
            if x == last {
                assert(s[s.len() - 1] == x);
            }
        }
        if pred(last) {
            let g = f.push(last);
            assert(s.filter(pred) == g);
            assert forall|x: A| #[trigger] g.contains(x) <==> f.contains(x) || x == last by {
                if g.contains(x) {
                    let i = choose|i: int| 0 <= i < g.len() && g[i] == x;
                    if i < f.len() {
                        assert(f[i] == x);
                    }
                }
                if f.contains(x) {
                    let i = choose|i: int| 0 <= i < f.len() && f[i] == x;
                    assert(g[i] == x);
                }
                if x == last {
                    assert(g[f.len() as int] == x);
                }
            }
            assert forall|i: int, j: int| 0 <= i < j < g.len() implies g[i] != g[j] by {
                assert(f.contains(f[i]));
            }
        }
    }
}

impl<C: 'static, Q: WorldQuery<C>, F: WorldQuery<C>> QueryState<C, Q, F> {
    /// The rows that a query goes through are those of its places, each once.
    pub proof fn slots_are(&self, world: World<C>, dense: bool)
        requires
            world.wf(),
            self.valid_for(world),
        ensures
            world.slots_in(self.places(dense)).no_duplicates(),
            forall|slot: Slot| #[trigger]
                world.slots_in(self.places(dense)).contains(slot) <==> self.places(dense).contains(
                    slot.place,
                ) && world.has_slot(slot),
    {
        let places = self.places(dense);
        assert forall|i: int| 0 <= i < places.len() implies world.has_place(
            #[trigger] places[i],
        ) by {
            self.places_fit(world, dense, i);
        }
        assert forall|i: int, j: int| 0 <= i < j < places.len() implies places[i] != places[j] by {
            if dense {
                assert(self.matched_table_ids@[i] != self.matched_table_ids@[j]);
            } else {
                assert(self.matched_archetype_ids@[i] != self.matched_archetype_ids@[j]);
            }
        }
        world.slots_in_are_the_rows(places);
    }

    /// The rows of a query that its filter lets through.
    pub proof fn rows_are<'w>(
        &self,
        world: World<C>,
        last_change_tick: u32,
        change_tick: u32,
        dense: bool,
    )
        requires
            world.wf(),
            self.valid_for(world),
        ensures
            self.rows(world, last_change_tick, change_tick, dense).no_duplicates(),
            forall|slot: Slot| #[trigger]
                self.rows(world, last_change_tick, change_tick, dense).contains(slot)
                    <==> self.places(dense).contains(slot.place) && world.has_slot(slot)
                    && <F::Fetch<'w> as Fetch<'w, C>>::passes(
                    self.filter_context(world, last_change_tick, change_tick),
                    slot,
                ),
    {
        let places = self.places(dense);
        self.slots_are(world, dense);
        let context = self.filter_context(world, last_change_tick, change_tick);
        filter_no_duplicates(
            world.slots_in(places),
            |slot: Slot| <F::Fetch<'w> as Fetch<'w, C>>::passes(context, slot),
        );
    }

    /// No two rows that a query goes through are of the same entity.
    pub proof fn rows_are_apart<'w>(&self, world: World<C>, dense: bool, i: int, j: int)
        requires
            world.wf(),
            self.valid_for(world),
            0 <= i < j < world.slots_in(self.places(dense)).len(),
        ensures
            ({
                let slots = world.slots_in(self.places(dense));
                &&& world.entity_at(slots[i]) != world.entity_at(slots[j])
                &&& world.has_slot(slots[i]) && self.place_fits(world, slots[i].place)
                &&& world.has_slot(slots[j]) && self.place_fits(world, slots[j].place)
            }),
    {
        let slots = world.slots_in(self.places(dense));
        self.slots_are(world, dense);
        self.slot_fits(world, dense, i);
        self.slot_fits(world, dense, j);
        if world.entity_at(slots[i]) == world.entity_at(slots[j]) {
            world.one_row_each(slots[i], slots[j]);
        }
    }

    /// The query and its filter may be asked about each row that they go through.
    pub proof fn slot_fits(&self, world: World<C>, dense: bool, i: int)
        requires
            world.wf(),
            self.valid_for(world),
            0 <= i < world.slots_in(self.places(dense)).len(),
        ensures
            ({
                let slot = world.slots_in(self.places(dense))[i];
                &&& world.has_slot(slot)
                &&& self.place_fits(world, slot.place)
                &&& slot.place is Table <==> dense
            }),
    {
        let slots = world.slots_in(self.places(dense));
        self.slots_are(world, dense);
        assert(slots.contains(slots[i]));
        let p = choose|p: int|
            0 <= p < self.places(dense).len() && self.places(dense)[p] == slots[i].place;
        self.places_fit(world, dense, p);
    }

    /// Each result to write to is of the same components as the one to read.
    pub proof fn results_agree<'w>(
        &self,
        world: World<C>,
        last_change_tick: u32,
        change_tick: u32,
        i: int,
    )
        requires
            world.wf(),
            self.valid_for(world),
            0 <= i < self.rows(world, last_change_tick, change_tick, Self::dense()).len(),
        ensures
            Q::reads_as(
                world,
                self.results::<Q::Fetch<'w>>(
                    world,
                    last_change_tick,
                    change_tick,
                    Self::dense(),
                )[i],
                self.results::<Q::ReadOnlyFetch<'w>>(
                    world,
                    last_change_tick,
                    change_tick,
                    Self::dense(),
                )[i],
            ),
    {
        let rows = self.rows(world, last_change_tick, change_tick, Self::dense());
        let slots = world.slots_in(self.places(Self::dense()));
        self.rows_are(world, last_change_tick, change_tick, Self::dense());
        self.slots_are(world, Self::dense());
        assert(rows.contains(rows[i]));
        assert(slots.contains(rows[i]));
        let k = choose|k: int| 0 <= k < slots.len() && slots[k] == rows[i];
        self.slot_fits(world, Self::dense(), k);
        Q::items_agree(self.fetch_context(world, last_change_tick, change_tick), rows[i]);
    }

    /// A query visits no entity twice.
    pub proof fn visits_each_once<'w>(
        &self,
        world: World<C>,
        last_change_tick: u32,
        change_tick: u32,
        i: int,
        j: int,
    )
        requires
            world.wf(),
            self.valid_for(world),
            0 <= i < j < self.rows(world, last_change_tick, change_tick, Self::dense()).len(),
        ensures
            ({
                let rows = self.rows(world, last_change_tick, change_tick, Self::dense());
                world.entity_at(rows[i]) != world.entity_at(rows[j])
            }),
    {
        let rows = self.rows(world, last_change_tick, change_tick, Self::dense());
        self.rows_are(world, last_change_tick, change_tick, Self::dense());
        assert(rows.contains(rows[i]));
        assert(rows.contains(rows[j]));
        if world.entity_at(rows[i]) == world.entity_at(rows[j]) {
            world.one_row_each(rows[i], rows[j]);
        }
    }

    /// Where the query has a result for an entity, it visits the entity.
    proof fn found_is_visited<'w, QF: Fetch<'w, C, State = Q::State>>(
        &self,
        world: World<C>,
        entity: Entity,
        last_change_tick: u32,
        change_tick: u32,
    ) -> (slot: Slot)
        requires
            world.wf(),
            self.valid_for(world),
            <Q::Fetch<'w> as Fetch<'w, C>>::dense() ==> QF::dense(),
            self.lookup::<QF>(world, entity, last_change_tick, change_tick) is Ok,
        ensures
            self.rows(world, last_change_tick, change_tick, Self::dense()).contains(slot),
            world.entity_at(slot) == entity,
            QF::item(self.fetch_context(world, last_change_tick, change_tick), slot)
                == self.lookup::<QF>(world, entity, last_change_tick, change_tick)->Ok_0,
    {
        let location = world.locate(entity)->0;
        let id = location.archetype_id;
        let a = id.0 as int;
        assert(world.entity_wf(entity.id as int));
        assert(world.archetype_shape_wf(a));
        assert(world.archetype_row_wf(a, location.index as int));
        let i = choose|i: int|
            0 <= i < self.matched_archetype_ids@.len() && self.matched_archetype_ids@[i] == id;
        let by_archetype = Slot { place: Place::Archetype(id), row: location.index };
        self.rows_are(world, last_change_tick, change_tick, Self::dense());
        self.places_fit(world, false, i);
        if Self::dense() {
            let archetype = world.archetypes@[a];
            let slot = Slot {
                place: Place::Table(archetype.table_id),
                row: archetype.rows@[location.index as int],
            };
            <F::Fetch<'w> as Fetch<'w, C>>::dense_rows(
                self.filter_context(world, last_change_tick, change_tick),
                id,
                location.index,
            );
            QF::dense_rows(
                self.fetch_context(world, last_change_tick, change_tick),
                id,
                location.index,
            );
            assert(self.matched().archetypes[i] == id);
            let j = choose|j: int|
                0 <= j < self.matched_table_ids@.len() && self.matched_table_ids@[j]
                    == archetype.table_id;
            assert(self.places(true)[j] == slot.place);
            slot
        } else {
            assert(self.places(false)[i] == by_archetype.place);
            by_archetype
        }
    }

    /// Where the query visits an entity, it has a result for it.
    proof fn visited_is_found<'w, QF: Fetch<'w, C, State = Q::State>>(
        &self,
        world: World<C>,
        slot: Slot,
        last_change_tick: u32,
        change_tick: u32,
    )
        requires
            world.wf(),
            self.complete(world),
            <Q::Fetch<'w> as Fetch<'w, C>>::dense() ==> QF::dense(),
            self.rows(world, last_change_tick, change_tick, Self::dense()).contains(slot),
        ensures
            self.lookup::<QF>(world, world.entity_at(slot), last_change_tick, change_tick) == Ok::<
                QF::Item,
                QueryEntityError,
            >(QF::item(self.fetch_context(world, last_change_tick, change_tick), slot)),
    {
        self.complete_matches(world);
        self.rows_are(world, last_change_tick, change_tick, Self::dense());
        let entity = world.entity_at(slot);
        let p = choose|p: int|
            0 <= p < self.places(Self::dense()).len() && self.places(Self::dense())[p]
                == slot.place;
        match slot.place {
            Place::Table(table) => {
                assert(self.matched_table_ids@[p] == table);
                assert(world.table_row_wf(table.0 as int, slot.row as int));
                assert(world.entity_wf(entity.id as int));
                let location = world.entities@[entity.id as int].location->0;
                let id = location.archetype_id;
                let b = id.0 as int;
                assert(world.archetype_shape_wf(b));
                assert(self.matched().table_owned(world, self.matched().tables[p]));
                let i = choose|i: int| #[trigger] self.matched().table_owned_by(world, table, i);
                let owner = self.matched().archetypes[i];
                assert(self.matched_archetype_ids@.contains(owner));
                QF::dense_matching(self.fetch_state, world, owner.0 as int, b);
                <F::Fetch<'w> as Fetch<'w, C>>::dense_matching(
                    self.filter_state,
                    world,
                    owner.0 as int,
                    b,
                );
                assert(both_match(self.fetch_state, self.filter_state, world.archetypes@[b]));
                assert(self.matched_archetype_ids@.contains(id));
                <F::Fetch<'w> as Fetch<'w, C>>::dense_rows(
                    self.filter_context(world, last_change_tick, change_tick),
                    id,
                    location.index,
                );
                QF::dense_rows(
                    self.fetch_context(world, last_change_tick, change_tick),
                    id,
                    location.index,
                );
            },
            Place::Archetype(id) => {
                assert(self.matched_archetype_ids@[p] == id);
                assert(world.archetype_row_wf(id.0 as int, slot.row as int));
                assert(world.archetype_shape_wf(id.0 as int));
                assert(world.archetypes@[id.0 as int].entities.len() <= usize::MAX);
            },
        }
    }

    /// Asking about an entity and going through all results agree: the results of a complete
    /// query are, in some order, just the results for the entities that it has one for.
    ///
    /// Each visited entity gives the result that asking about it gives, and each entity for which
    /// asking gives a result is visited.
    pub proof fn visits_what_it_finds<'w, QF: Fetch<'w, C, State = Q::State>>(
        &self,
        world: World<C>,
        last_change_tick: u32,
        change_tick: u32,
    )
        requires
            world.wf(),
            self.complete(world),
            <Q::Fetch<'w> as Fetch<'w, C>>::dense() ==> QF::dense(),
        ensures
            ({
                let rows = self.rows(world, last_change_tick, change_tick, Self::dense());
                let results = self.results::<QF>(
                    world,
                    last_change_tick,
                    change_tick,
                    Self::dense(),
                );
                &&& results.len() == rows.len()
                &&& forall|i: int|
                    0 <= i < rows.len() ==> self.lookup::<QF>(
                        world,
                        world.entity_at(#[trigger] rows[i]),
                        last_change_tick,
                        change_tick,
                    ) == Ok::<QF::Item, QueryEntityError>(results[i])
                &&& forall|entity: Entity| #[trigger]
                    self.lookup::<QF>(world, entity, last_change_tick, change_tick) is Ok
                        ==> exists|i: int|
                        0 <= i < rows.len() && world.entity_at(#[trigger] rows[i]) == entity
            }),
    {
        let rows = self.rows(world, last_change_tick, change_tick, Self::dense());
        let results = self.results::<QF>(world, last_change_tick, change_tick, Self::dense());
        assert forall|i: int| 0 <= i < rows.len() implies self.lookup::<QF>(
            world,
            world.entity_at(#[trigger] rows[i]),
            last_change_tick,
            change_tick,
        ) == Ok::<QF::Item, QueryEntityError>(results[i]) by {
            assert(rows.contains(rows[i]));
            self.visited_is_found::<QF>(world, rows[i], last_change_tick, change_tick);
        }
        assert forall|entity: Entity| #[trigger]
            self.lookup::<QF>(world, entity, last_change_tick, change_tick) is Ok implies exists|
            i: int,
        |
            0 <= i < rows.len() && world.entity_at(#[trigger] rows[i]) == entity by {
            let slot = self.found_is_visited::<QF>(world, entity, last_change_tick, change_tick);
            let i = choose|i: int| 0 <= i < rows.len() && rows[i] == slot;
            assert(world.entity_at(rows[i]) == entity);
        }
    }
}

} // verus!
