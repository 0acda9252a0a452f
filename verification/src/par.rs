//! Splitting the rows of a query into batches, to be run in parallel.
use vstd::prelude::*;
use crate::fetch::{Fetch, Place, Slot, WorldQuery};
use crate::rows::{callable_from, folds, passing, passing_append, passing_push, taken};
use crate::state::QueryState;
use crate::world::World;

verus! {

/// Some consecutive rows of one place, to be run as one task.
#[derive(Clone, Copy, Debug, PartialEq, Eq, Structural)]
pub struct Batch {
    pub place: Place,
    pub offset: usize,
    pub len: usize,
}

/// How many batches it takes for so many rows.
pub open spec fn batch_count(rows: int, batch_size: int) -> int {
    if rows <= 0 {
        0
    } else {
        (rows - 1) / batch_size + 1
    }
}

/// The batch at position `k` of a place: it begins where the ones before it end, and is as long as
/// asked for, or shorter where the rows come to an end.
pub open spec fn batch_at(place: Place, rows: int, batch_size: int, k: int) -> Batch {
    let offset = k * batch_size;
    Batch {
        place,
        offset: offset as usize,
        len: if batch_size < rows - offset {
            batch_size as usize
        } else {
            (rows - offset) as usize
        },
    }
}

/// The batches of one place.
pub open spec fn batches_at(place: Place, rows: int, batch_size: int) -> Seq<Batch> {
    Seq::new(
        batch_count(rows, batch_size) as nat,
        |k: int| batch_at(place, rows, batch_size, k),
    )
}

impl<C: 'static> World<C> {
    /// The batches of several places, one place after the other.
    pub open spec fn batches_in(&self, places: Seq<Place>, batch_size: int) -> Seq<Batch>
        decreases places.len(),
    {
        if places.len() == 0 {
            Seq::empty()
        } else {
            self.batches_in(places.drop_last(), batch_size) + batches_at(
                places.last(),
                self.entities_at(places.last()).len() as int,
                batch_size,
            )
        }
    }

    /// The rows of a batch.
    pub open spec fn batch_slots(&self, batch: Batch) -> Seq<Slot> {
        self.slots_at(batch.place).subrange(batch.offset as int, batch.offset + batch.len)
    }
}

/// Where batch `k` begins before the end of the rows, it is one of the batches, and the last one if
/// the next would begin at the end or beyond.
proof fn batch_count_bounds(rows: int, batch_size: int, k: int)
    requires
        batch_size > 0,
        0 <= k,
        k * batch_size < rows,
    ensures
        k < batch_count(rows, batch_size),
        (k + 1) * batch_size == k * batch_size + batch_size,
        (k + 1) * batch_size >= rows ==> batch_count(rows, batch_size) == k + 1,
{
    assert((k + 1) * batch_size == k * batch_size + batch_size) by (nonlinear_arith);
    let q = (rows - 1) / batch_size;
    assert(q >= k) by (nonlinear_arith)
        requires
            batch_size > 0,
            k * batch_size <= rows - 1,
            q == (rows - 1) / batch_size,
    ;
    if (k + 1) * batch_size >= rows {
        assert(q <= k) by (nonlinear_arith)
            requires
                batch_size > 0,
                k * batch_size + batch_size > rows - 1,
                0 <= rows - 1,
                q == (rows - 1) / batch_size,
        ;
    }
}

impl<C: 'static, Q: WorldQuery<C>, F: WorldQuery<C>> QueryState<C, Q, F> {
    /// The batch consists of rows that the query and its filter may be asked about.
    pub open spec fn batch_fits(&self, world: World<C>, batch: Batch) -> bool {
        &&& self.place_fits(world, batch.place)
        &&& batch.offset + batch.len <= world.entities_at(batch.place).len()
    }

    /// None of the places that the query goes through has a row.
    pub open spec fn rowless(&self, world: World<C>, dense: bool) -> bool {
        forall|i: int|
            0 <= i < self.places(dense).len() ==> world.entities_at(
                #[trigger] self.places(dense)[i],
            ).len() == 0
    }

    /// Tells whether there is no row to be split.
    pub fn is_rowless<'w>(&self, world: &'w World<C>) -> (rowless: bool)
        requires
            world.wf(),
            self.valid_for(*world),
        ensures
            rowless == self.rowless(*world, Self::dense()),
    {
        let dense = <Q::Fetch<'w> as Fetch<'w, C>>::is_dense() && <F::Fetch<'w> as Fetch<
            'w,
            C,
        >>::is_dense();
        let count = if dense {
            self.matched_table_ids.len()
        } else {
            self.matched_archetype_ids.len()
        };
        let ghost places = self.places(dense);
        let mut i: usize = 0;
        while i < count
            invariant
                i <= count,
                count == places.len(),
                places == self.places(dense),
                dense == Self::dense(),
                world.wf(),
                self.valid_for(*world),
                forall|j: int| 0 <= j < i ==> world.entities_at(#[trigger] places[j]).len() == 0,
            decreases count - i,
        {
            proof {
                self.places_fit(*world, dense, i as int);
            }
            let len = if dense {
                world.tables[self.matched_table_ids[i].index()].len()
            } else {
                world.archetypes[self.matched_archetype_ids[i].index()].len()
            };
            assert(len == world.entities_at(self.places(Self::dense())[i as int]).len());
            if len > 0 {
                return false;
            }
            i = i + 1;
        }
        true
    }

    /// Splits the rows of the query into batches of the given size. Each of them is a task to be
    /// handed to [`QueryState::run_batch`], in any order or at once.
    pub fn par_for_each_unchecked_manual<'w, QF: Fetch<'w, C, State = Q::State>>(
        &self,
        world: &'w World<C>,
        batch_size: usize,
    ) -> (batches: Vec<Batch>)
        requires
            world.wf(),
            self.valid_for(*world),
            batch_size > 0 || self.rowless(
                *world,
                QF::dense() && <F::Fetch<'w> as Fetch<'w, C>>::dense(),
            ),
        ensures
            batches@ == world.batches_in(
                self.places(QF::dense() && <F::Fetch<'w> as Fetch<'w, C>>::dense()),
                batch_size as int,
            ),
            forall|i: int|
                0 <= i < batches@.len() ==> self.batch_fits(*world, #[trigger] batches@[i])
                    && (batches@[i].place is Table ==> QF::dense() && <F::Fetch<
                    'w,
                > as Fetch<'w, C>>::dense()),
    {
        let dense = QF::is_dense() && <F::Fetch<'w> as Fetch<'w, C>>::is_dense();
        let count = if dense {
            self.matched_table_ids.len()
        } else {
            self.matched_archetype_ids.len()
        };
        let ghost places = self.places(dense);
        let mut batches: Vec<Batch> = Vec::new();
        let mut i: usize = 0;
        assert(world.batches_in(places.take(0), batch_size as int) =~= Seq::empty());
        while i < count
            invariant
                i <= count,
                count == places.len(),
                places == self.places(dense),
                dense == (QF::dense() && <F::Fetch<'w> as Fetch<'w, C>>::dense()),
                world.wf(),
                self.valid_for(*world),
                batch_size > 0 || self.rowless(*world, dense),
                batches@ == world.batches_in(places.take(i as int), batch_size as int),
                forall|j: int|
                    0 <= j < batches@.len() ==> self.batch_fits(*world, #[trigger] batches@[j])
                        && (batches@[j].place is Table ==> dense),
            decreases count - i,
        {
            let place = if dense {
                Place::Table(self.matched_table_ids[i])
            } else {
                Place::Archetype(self.matched_archetype_ids[i])
            };
            proof {
                assert(place == places[i as int]);
                self.places_fit(*world, dense, i as int);
            }
            let len = match place {
                Place::Table(table) => world.tables[table.index()].len(),
                Place::Archetype(archetype) => world.archetypes[archetype.index()].len(),
            };
            let ghost before = batches@;
            let ghost planned = batches_at(place, len as int, batch_size as int);
            let ghost mut k: int = 0;
            let mut offset: usize = 0;
            assert(planned.take(0) =~= Seq::empty());
            while offset < len
                invariant
                    place == places[i as int],
                    i < count,
                    count == places.len(),
                    len == world.entities_at(place).len(),
                    len > 0 ==> batch_size > 0,
                    self.place_fits(*world, place),
                    place is Table ==> dense,
                    planned == batches_at(place, len as int, batch_size as int),
                    0 <= k <= planned.len(),
                    offset < len ==> offset == k * batch_size,
                    offset >= len ==> k == planned.len(),
                    batches@ == before + planned.take(k),
                    forall|j: int|
                        0 <= j < batches@.len() ==> self.batch_fits(*world, #[trigger] batches@[j])
                            && (batches@[j].place is Table ==> dense),
                decreases
                    if offset < len {
                        len - offset
                    } else {
                        0
                    },
            {
                let rest = len - offset;
                let batch = Batch {
                    place,
                    offset,
                    len: if batch_size < rest {
                        batch_size
                    } else {
                        rest
                    },
                };
                proof {
                    batch_count_bounds(len as int, batch_size as int, k);
                    assert(batch == planned[k]);
                    assert(planned.take(k + 1) =~= planned.take(k).push(batch));
                    assert(before + planned.take(k).push(batch) =~= batches@.push(batch));
                    k = k + 1;
                }
                batches.push(batch);
                offset = offset.saturating_add(batch_size);
            }
            proof {
                assert(planned.take(k) =~= planned);
                assert(places.take(i + 1).drop_last() =~= places.take(i as int));
                assert(places.take(i + 1).last() == place);
            }
            i = i + 1;
        }
        assert(places.take(count as int) =~= places);
        batches
    }

    /// Runs `func` on each query result in a batch, where the last change and the current change
    /// tick are given.
    pub fn run_batch<'w, QF: Fetch<'w, C, State = Q::State>, S, FN: Fn(S, QF::Item) -> S>(
        &self,
        world: &'w World<C>,
        batch: Batch,
        start: S,
        func: FN,
        last_change_tick: u32,
        change_tick: u32,
    ) -> (end: S)
        requires
            world.wf(),
            self.valid_for(*world),
            self.batch_fits(*world, batch),
            batch.place is Table ==> QF::dense() && <F::Fetch<'w> as Fetch<'w, C>>::dense(),
            callable_from(
                func,
                start,
                taken::<C, QF>(
                    self.fetch_context(*world, last_change_tick, change_tick),
                    passing::<C, F::Fetch<'w>>(
                        self.filter_context(*world, last_change_tick, change_tick),
                        world.batch_slots(batch),
                    ),
                ),
            ),
        ensures
            folds(
                func,
                start,
                taken::<C, QF>(
                    self.fetch_context(*world, last_change_tick, change_tick),
                    passing::<C, F::Fetch<'w>>(
                        self.filter_context(*world, last_change_tick, change_tick),
                        world.batch_slots(batch),
                    ),
                ),
                end,
            ),
    {
        let mut fetch = QF::init(world, &self.fetch_state, last_change_tick, change_tick);
        let mut filter = <F::Fetch<'w> as Fetch<'w, C>>::init(
            world,
            &self.filter_state,
            last_change_tick,
            change_tick,
        );
        self.point_at::<QF, F::Fetch<'w>>(&mut fetch, &mut filter, batch.place);
        proof {
            match batch.place {
                Place::Table(table) => {
                    assert(world.tables@[table.0 as int].entities.len() <= usize::MAX);
                },
                Place::Archetype(archetype) => {
                    assert(world.archetypes@[archetype.0 as int].entities.len() <= usize::MAX);
                },
            }
        }
        self.fold_rows::<QF, F::Fetch<'w>, S, FN>(
            &mut fetch,
            &mut filter,
            batch.place,
            batch.offset,
            batch.offset + batch.len,
            start,
            &func,
        )
    }

    /// The values that calling `func` for the rows in turn can go through, all in the same world, and
    /// the edits that it asks for.
    pub open spec fn edit_trace<'w, S, FN>(
        &self,
        func: FN,
        rows: Seq<Slot>,
        last_change_tick: u32,
        change_tick: u32,
        world: World<C>,
        trace: Seq<S>,
        edits: Seq<(Slot, Q::Edit)>,
    ) -> bool where
        FN: for<'b> Fn(
            S,
            <Q::Fetch<'b> as Fetch<'b, C>>::Item,
            <Q::ReadOnlyFetch<'b> as Fetch<'b, C>>::Item,
        ) -> (S, Q::Edit),
     {
        &&& trace.len() == rows.len() + 1
        &&& edits.len() == rows.len()
        &&& forall|i: int|
            0 <= i < rows.len() ==> (#[trigger] edits[i]).0 == rows[i] && call_ensures(
                func,
                self.call_at(trace[i], world, rows[i], last_change_tick, change_tick),
                (trace[i + 1], edits[i].1),
            )
    }

    /// Calling `func` for the rows in turn, all in the same world, can lead from one value to the
    /// other and ask for the edits.
    pub open spec fn asks_for<'w, S, FN>(
        &self,
        func: FN,
        rows: Seq<Slot>,
        last_change_tick: u32,
        change_tick: u32,
        world: World<C>,
        start: S,
        end: S,
        edits: Seq<(Slot, Q::Edit)>,
    ) -> bool where
        FN: for<'b> Fn(
            S,
            <Q::Fetch<'b> as Fetch<'b, C>>::Item,
            <Q::ReadOnlyFetch<'b> as Fetch<'b, C>>::Item,
        ) -> (S, Q::Edit),
     {
        exists|trace: Seq<S>| #[trigger]
            self.edit_trace(func, rows, last_change_tick, change_tick, world, trace, edits)
                && trace[0] == start && trace.last() == end
    }

    /// Starting from `start`, `func` can be called for each of the rows, all in the same world, with
    /// each value that the rows before can have led to.
    pub open spec fn askable<'w, S, FN>(
        &self,
        func: FN,
        rows: Seq<Slot>,
        last_change_tick: u32,
        change_tick: u32,
        world: World<C>,
        start: S,
    ) -> bool where
        FN: for<'b> Fn(
            S,
            <Q::Fetch<'b> as Fetch<'b, C>>::Item,
            <Q::ReadOnlyFetch<'b> as Fetch<'b, C>>::Item,
        ) -> (S, Q::Edit),
     {
        forall|i: int, s: S, edits: Seq<(Slot, Q::Edit)>|
            0 <= i < rows.len() && #[trigger] self.asks_for(
                func,
                rows.take(i),
                last_change_tick,
                change_tick,
                world,
                start,
                s,
                edits,
            ) ==> call_requires(
                func,
                self.call_at(s, world, rows[i], last_change_tick, change_tick),
            )
    }

    /// The rows of a batch that the filter lets through.
    pub open spec fn batch_rows<'w>(
        &self,
        world: World<C>,
        batch: Batch,
        last_change_tick: u32,
        change_tick: u32,
    ) -> Seq<Slot> {
        passing::<C, F::Fetch<'w>>(
            self.filter_context(world, last_change_tick, change_tick),
            world.batch_slots(batch),
        )
    }

    /// Edits can be made at the row.
    pub open spec fn editable(&self, world: World<C>, slot: Slot) -> bool {
        &&& self.place_fits(world, slot.place)
        &&& world.has_slot(slot)
        &&& slot.place is Table ==> Self::dense()
    }

    /// Runs `func` on each query result in a batch, where the last change and the current change
    /// tick are given, and gives the edits that it asks for, to be handed to
    /// [`QueryState::apply_edits`].
    pub fn run_batch_mut<'w, S, FN>(
        &self,
        world: &'w World<C>,
        batch: Batch,
        start: S,
        func: FN,
        last_change_tick: u32,
        change_tick: u32,
    ) -> (asked: (S, Vec<(Slot, Q::Edit)>)) where
        FN: for<'b> Fn(
            S,
            <Q::Fetch<'b> as Fetch<'b, C>>::Item,
            <Q::ReadOnlyFetch<'b> as Fetch<'b, C>>::Item,
        ) -> (S, Q::Edit),

        requires
            world.wf(),
            self.valid_for(*world),
            self.batch_fits(*world, batch),
            batch.place is Table ==> Self::dense(),
            self.askable(
                func,
                self.batch_rows(*world, batch, last_change_tick, change_tick),
                last_change_tick,
                change_tick,
                *world,
                start,
            ),
        ensures
            self.asks_for(
                func,
                self.batch_rows(*world, batch, last_change_tick, change_tick),
                last_change_tick,
                change_tick,
                *world,
                start,
                asked.0,
                asked.1@,
            ),
            forall|i: int|
                0 <= i < asked.1@.len() ==> self.editable(*world, (#[trigger] asked.1@[i]).0),
    {
        let ghost fx = self.filter_context(*world, last_change_tick, change_tick);
        let ghost slots = world.batch_slots(batch);
        let ghost rows = self.batch_rows(*world, batch, last_change_tick, change_tick);
        let ghost pred = |slot: Slot| <F::Fetch<'w> as Fetch<'w, C>>::passes(fx, slot);
        proof {
            match batch.place {
                Place::Table(table) => {
                    assert(world.tables@[table.0 as int].entities.len() <= usize::MAX);
                },
                Place::Archetype(archetype) => {
                    assert(world.archetypes@[archetype.0 as int].entities.len() <= usize::MAX);
                },
            }
        }
        let mut value = start;
        let mut edits: Vec<(Slot, Q::Edit)> = Vec::new();
        let ghost mut trace: Seq<S> = seq![start];
        let mut k: usize = 0;
        proof {
            reveal(Seq::filter);
            assert(slots.take(0) =~= Seq::empty());
        }
        while k < batch.len
            invariant
                k <= batch.len,
                batch.offset + batch.len <= world.entities_at(batch.place).len() <= usize::MAX,
                world.wf(),
                self.valid_for(*world),
                self.batch_fits(*world, batch),
                batch.place is Table ==> Self::dense(),
                fx == self.filter_context(*world, last_change_tick, change_tick),
                slots == world.batch_slots(batch),
                rows == self.batch_rows(*world, batch, last_change_tick, change_tick),
                pred == (|slot: Slot| <F::Fetch<'w> as Fetch<'w, C>>::passes(fx, slot)),
                self.askable(func, rows, last_change_tick, change_tick, *world, start),
                self.edit_trace(
                    func,
                    slots.take(k as int).filter(pred),
                    last_change_tick,
                    change_tick,
                    *world,
                    trace,
                    edits@,
                ),
                trace[0] == start,
                trace.last() == value,
                forall|i: int|
                    0 <= i < edits@.len() ==> self.editable(*world, (#[trigger] edits@[i]).0),
            decreases batch.len - k,
        {
            let slot = Slot { place: batch.place, row: batch.offset + k };
            let ghost before = slots.take(k as int);
            proof {
                assert(slots[k as int] == slot);
                assert(slots.take(k + 1) =~= before.push(slot));
                passing_push::<C, F::Fetch<'w>>(fx, before, slot);
                if pred(slot) {
                    let rest = slots.skip(k + 1);
                    let done = before.filter(pred);
                    assert(slots =~= before.push(slot) + rest);
                    passing_append::<C, F::Fetch<'w>>(fx, before.push(slot), rest);
                    let r = done.len() as int;
                    assert(rows[r] == slot);
                    assert(rows.take(r) =~= done);
                    assert(self.asks_for(
                        func,
                        rows.take(r),
                        last_change_tick,
                        change_tick,
                        *world,
                        start,
                        value,
                        edits@,
                    ));
                    assert(call_requires(
                        func,
                        self.call_at(value, *world, rows[r], last_change_tick, change_tick),
                    ));
                }
            }
            let ghost was = edits@;
            let ghost held = trace;
            let (next, edit) = self.visit_row(
                world,
                slot,
                value,
                &func,
                last_change_tick,
                change_tick,
            );
            value = next;
            if let Some(edit) = edit {
                edits.push((slot, edit));
                proof {
                    trace = trace.push(next);
                    let passed = before.filter(pred);
                    assert forall|i: int| 0 <= i < passed.push(slot).len() implies (
                    #[trigger] edits@[i]).0 == passed.push(slot)[i] && call_ensures(
                        func,
                        self.call_at(
                            trace[i],
                            *world,
                            passed.push(slot)[i],
                            last_change_tick,
                            change_tick,
                        ),
                        (trace[i + 1], edits@[i].1),
                    ) by {
                        if i < passed.len() {
                            assert(was[i].0 == passed[i] && call_ensures(
                                func,
                                self.call_at(
                                    held[i],
                                    *world,
                                    passed[i],
                                    last_change_tick,
                                    change_tick,
                                ),
                                (held[i + 1], was[i].1),
                            ));
                        }
                    }
                }
            }
            k = k + 1;
        }
        assert(slots.take(k as int) =~= slots);
        (value, edits)
    }

    /// The worlds that making the edits in turn can go through.
    pub open spec fn apply_trace(
        &self,
        edits: Seq<(Slot, Q::Edit)>,
        worlds: Seq<World<C>>,
    ) -> bool {
        &&& worlds.len() == edits.len() + 1
        &&& forall|i: int|
            0 <= i < edits.len() ==> Q::edited(
                worlds[i],
                self.fetch_state,
                (#[trigger] edits[i]).0,
                edits[i].1,
                worlds[i + 1],
            )
    }

    /// `after` is `before` after the edits were made in turn.
    pub open spec fn applied(
        &self,
        before: World<C>,
        edits: Seq<(Slot, Q::Edit)>,
        after: World<C>,
    ) -> bool {
        exists|worlds: Seq<World<C>>| #[trigger]
            self.apply_trace(edits, worlds) && worlds[0] == before && worlds.last() == after
    }

    /// Makes the edits that running batches has asked for.
    pub fn apply_edits(&self, world: &mut World<C>, edits: Vec<(Slot, Q::Edit)>)
        requires
            old(world).wf(),
            self.valid_for(*old(world)),
            forall|i: int|
                0 <= i < edits@.len() ==> self.editable(*old(world), (#[trigger] edits@[i]).0),
        ensures
            final(world).wf(),
            final(world).same_but_values(*old(world)),
            self.valid_for(*final(world)),
            self.applied(*old(world), edits@, *final(world)),
    {
        let ghost first = *world;
        let ghost all = edits@;
        let ghost mut worlds: Seq<World<C>> = seq![*world];
        for edit in it: edits
            invariant
                it.seq() == all,
                first.wf(),
                self.valid_for(first),
                forall|i: int|
                    0 <= i < all.len() ==> self.editable(first, (#[trigger] all[i]).0),
                world.wf(),
                world.same_but_values(first),
                self.apply_trace(all.take(it.index() as int), worlds),
                worlds[0] == first,
                worlds.last() == *world,
        {
            let ghost n = worlds.len() - 1;
            let ghost held = worlds;
            proof {
                self.values_keep_query(first, *world);
                assert(edit == all[n]);
            }
            Q::apply(world, &self.fetch_state, edit.0, edit.1);
            proof {
                worlds = worlds.push(*world);
                assert forall|i: int| 0 <= i < n + 1 implies Q::edited(
                    worlds[i],
                    self.fetch_state,
                    (#[trigger] all.take(n + 1)[i]).0,
                    all.take(n + 1)[i].1,
                    worlds[i + 1],
                ) by {
                    if i < n {
                        assert(Q::edited(
                            held[i],
                            self.fetch_state,
                            all.take(n)[i].0,
                            all.take(n)[i].1,
                            held[i + 1],
                        ));
                    }
                }
            }
        }
        proof {
            assert(all.take(all.len() as int) =~= all);
            self.values_keep_query(first, *world);
        }
    }

    /// Splits the rows of the query into batches that can be run in parallel.
    ///
    /// The items are for reading; see [`QueryState::par_for_each_mut`] for those that may be
    /// written to.
    pub fn par_for_each<'w>(&mut self, world: &'w World<C>, batch_size: usize) -> (batches: Vec<
        Batch,
    >)
        requires
            world.wf(),
            old(self).valid_for(*world),
            batch_size > 0 || forall|updated: QueryState<C, Q, F>| #[trigger]
                updated.updated_from(*old(self), *world) ==> updated.rowless(*world, Self::dense()),
        ensures
            final(self).updated_from(*old(self), *world),
            final(self).valid_for(*world),
            batches@ == world.batches_in(final(self).places(Self::dense()), batch_size as int),
            forall|i: int|
                0 <= i < batches@.len() ==> final(self).batch_fits(
                    *world,
                    #[trigger] batches@[i],
                ) && (batches@[i].place is Table ==> Self::dense()),
    {
        self.update_archetypes(world);
        proof {
            Q::read_only_is_as_dense();
        }
        self.par_for_each_unchecked_manual::<Q::ReadOnlyFetch<'w>>(world, batch_size)
    }

    /// Splits the rows of the query into batches that can be run in parallel, each by
    /// [`QueryState::run_batch_mut`]. The edits that they ask for are made when all have run.
    pub fn par_for_each_mut<'w>(&mut self, world: &'w mut World<C>, batch_size: usize) -> (batches: Vec<
        Batch,
    >)
        requires
            old(world).wf(),
            old(self).valid_for(*old(world)),
            batch_size > 0 || forall|updated: QueryState<C, Q, F>| #[trigger]
                updated.updated_from(*old(self), *old(world)) ==> updated.rowless(*old(world), Self::dense()),
        ensures
            *final(world) == *old(world),
            final(self).updated_from(*old(self), *old(world)),
            final(self).valid_for(*old(world)),
            batches@ == old(world).batches_in(final(self).places(Self::dense()), batch_size as int),
            forall|i: int|
                0 <= i < batches@.len() ==> final(self).batch_fits(
                    *old(world),
                    #[trigger] batches@[i],
                ) && (batches@[i].place is Table ==> Self::dense()),
    {
        self.update_archetypes(world);
        self.par_for_each_unchecked_manual::<Q::Fetch<'w>>(world, batch_size)
    }

    /// Splits the rows of the query into batches that can be run in parallel, without exclusive
    /// access to the world.
    pub fn par_for_each_unchecked<'w>(&mut self, world: &'w World<C>, batch_size: usize) -> (batches: Vec<
        Batch,
    >)
        requires
            world.wf(),
            old(self).valid_for(*world),
            batch_size > 0 || forall|updated: QueryState<C, Q, F>| #[trigger]
                updated.updated_from(*old(self), *world) ==> updated.rowless(*world, Self::dense()),
        ensures
            final(self).updated_from(*old(self), *world),
            final(self).valid_for(*world),
            batches@ == world.batches_in(final(self).places(Self::dense()), batch_size as int),
            forall|i: int|
                0 <= i < batches@.len() ==> final(self).batch_fits(
                    *world,
                    #[trigger] batches@[i],
                ) && (batches@[i].place is Table ==> Self::dense()),
    {
        self.update_archetypes(world);
        self.par_for_each_unchecked_manual::<Q::Fetch<'w>>(world, batch_size)
    }
}

} // verus!
