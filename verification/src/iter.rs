//! Going through the results of a query one by one.
use vstd::prelude::*;
use crate::error::QuerySingleError;
use crate::fetch::{Fetch, Place, Slot, WorldQuery};
use crate::queries::NopFetch;
use crate::rows::{passing, passing_append, passing_push, taken};
use crate::state::QueryState;
use crate::world::World;

verus! {

/// The results of a query that have not been taken yet.
pub struct QueryIter<'w, 's, C: 'static, Q: WorldQuery<C>, F: WorldQuery<C>, QF, FF> {
    pub world: &'w World<C>,
    pub query: &'s QueryState<C, Q, F>,
    pub fetch: QF,
    pub filter: FF,
    /// Whether the rows are those of tables.
    pub dense: bool,
    /// How many places have been begun.
    pub begun: usize,
    /// The next row of the place that was begun last.
    pub row: usize,
    /// The number of rows of that place.
    pub len: usize,
}

impl<
    'w,
    's,
    C: 'static,
    Q: WorldQuery<C>,
    F: WorldQuery<C>,
    QF: Fetch<'w, C, State = Q::State>,
    FF: Fetch<'w, C, State = F::State>,
> QueryIter<'w, 's, C, Q, F, QF, FF> {
    pub open spec fn places(&self) -> Seq<Place> {
        self.query.places(self.dense)
    }

    pub open spec fn wf(&self) -> bool {
        let fetched = self.fetch.context();
        let filtered = self.filter.context();
        &&& self.world.wf()
        &&& self.query.valid_for(*self.world)
        &&& fetched == self.query.fetch_context(
            *self.world,
            fetched.last_change_tick,
            fetched.change_tick,
        )
        &&& filtered == self.query.filter_context(
            *self.world,
            filtered.last_change_tick,
            filtered.change_tick,
        )
        &&& self.dense ==> QF::dense() && FF::dense()
        &&& self.begun <= self.places().len()
        &&& self.row <= self.len
        &&& self.begun == 0 ==> self.len == 0
        &&& self.begun > 0 ==> {
            let place = self.places()[self.begun - 1];
            &&& self.len == self.world.entities_at(place).len()
            &&& self.fetch.place() == Some(place)
            &&& self.filter.place() == Some(place)
        }
    }

    /// All the rows that the query goes through.
    pub open spec fn slots(&self) -> Seq<Slot> {
        self.world.slots_in(self.places())
    }

    /// How many of those rows have been visited.
    pub open spec fn visited(&self) -> int {
        if self.begun == 0 {
            0
        } else {
            self.world.slots_in(self.places().take(self.begun - 1)).len() + self.row
        }
    }

    /// The results that are left, in order.
    pub open spec fn remaining(&self) -> Seq<QF::Item> {
        taken::<C, QF>(
            self.fetch.context(),
            passing::<C, FF>(self.filter.context(), self.slots().skip(self.visited())),
        )
    }

    /// The same query on the same world, between the same ticks.
    pub open spec fn same_run(&self, other: Self) -> bool {
        &&& self.world == other.world
        &&& self.query == other.query
        &&& self.dense == other.dense
        &&& self.fetch.context() == other.fetch.context()
        &&& self.filter.context() == other.filter.context()
    }

    /// The row at hand is the next one among all.
    proof fn row_is_next(&self)
        requires
            self.wf(),
            self.begun > 0,
        ensures
            self.row < self.len ==> {
                &&& self.visited() < self.slots().len()
                &&& self.slots()[self.visited()] == (Slot {
                    place: self.places()[self.begun - 1],
                    row: self.row,
                })
            },
            self.row == self.len ==> self.visited() == self.world.slots_in(
                self.places().take(self.begun as int),
            ).len(),
    {
        self.world.slots_in_next(self.places(), self.begun - 1);
        self.world.slots_in_prefix(self.places(), self.begun as int);
        let upto = self.world.slots_in(self.places().take(self.begun as int));
        assert(self.row < self.len ==> upto[self.visited()] == (Slot {
            place: self.places()[self.begun - 1],
            row: self.row,
        }));
    }

    /// The next result, if there is one left.
    pub fn next(&mut self) -> (item: Option<QF::Item>)
        requires
            old(self).wf(),
        ensures
            final(self).wf(),
            final(self).same_run(*old(self)),
            item is Some <==> old(self).remaining().len() > 0,
            item matches Some(first) ==> first == old(self).remaining()[0],
            final(self).remaining() == if item is Some {
                old(self).remaining().skip(1)
            } else {
                old(self).remaining()
            },
    {
        let count = if self.dense {
            self.query.matched_table_ids.len()
        } else {
            self.query.matched_archetype_ids.len()
        };
        loop
            invariant
                self.wf(),
                self.same_run(*old(self)),
                count == self.places().len(),
                self.remaining() == old(self).remaining(),
            decreases count - self.begun, self.len - self.row,
        {
            if self.row == self.len {
                if self.begun == count {
                    proof {
                        reveal(Seq::filter);
                        if self.begun > 0 {
                            self.row_is_next();
                        }
                        assert(self.places().take(count as int) =~= self.places());
                        assert(self.slots().skip(self.visited()) =~= Seq::empty());
                    }
                    return None;
                }
                let place = if self.dense {
                    Place::Table(self.query.matched_table_ids[self.begun])
                } else {
                    Place::Archetype(self.query.matched_archetype_ids[self.begun])
                };
                proof {
                    assert(place == self.places()[self.begun as int]);
                    self.query.places_fit(*self.world, self.dense, self.begun as int);
                    if self.begun > 0 {
                        self.row_is_next();
                    }
                    assert(self.places().take(0) =~= Seq::empty());
                }
                let len = match place {
                    Place::Table(table) => self.world.tables[table.index()].len(),
                    Place::Archetype(archetype) => self.world.archetypes[archetype.index()].len(),
                };
                self.query.point_at::<QF, FF>(&mut self.fetch, &mut self.filter, place);
                self.len = len;
                self.row = 0;
                self.begun = self.begun + 1;
            } else {
                let row = self.row;
                let ghost before = *self;
                let ghost slot = Slot { place: self.places()[self.begun - 1], row };
                let ghost rest = self.slots().skip(self.visited() + 1);
                proof {
                    self.row_is_next();
                    self.query.places_fit(*self.world, self.dense, self.begun - 1);
                    assert(self.slots().skip(self.visited()) =~= seq![slot] + rest);
                    passing_append::<C, FF>(self.filter.context(), seq![slot], rest);
                    passing_push::<C, FF>(self.filter.context(), Seq::empty(), slot);
                    assert(Seq::<Slot>::empty().push(slot) =~= seq![slot]);
                    reveal(Seq::filter);
                    assert(passing::<C, FF>(self.filter.context(), Seq::empty()) =~= Seq::empty());
                }
                self.row = row + 1;
                let passes = if self.dense {
                    self.filter.table_filter_fetch(row)
                } else {
                    self.filter.archetype_filter_fetch(row)
                };
                if !passes {
                    assert(Seq::<Slot>::empty() + passing::<C, FF>(self.filter.context(), rest)
                        =~= passing::<C, FF>(self.filter.context(), rest));
                    continue;
                }
                let item = if self.dense {
                    self.fetch.table_fetch(row)
                } else {
                    self.fetch.archetype_fetch(row)
                };
                proof {
                    let later = passing::<C, FF>(self.filter.context(), rest);
                    assert(before.remaining() =~= taken::<C, QF>(
                        self.fetch.context(),
                        seq![slot] + later,
                    ));
                    assert(before.remaining().skip(1) =~= taken::<C, QF>(
                        self.fetch.context(),
                        later,
                    ));
                }
                return Some(item);
            }
        }
    }
}

/// The only one of some results, or an error that says whether there are none or several, and
/// names the query.
pub open spec fn single_of<T>(results: Seq<T>, query: &'static str) -> Result<T, QuerySingleError> {
    if results.len() == 0 {
        Err(QuerySingleError::NoEntities(query))
    } else if results.len() == 1 {
        Ok(results[0])
    } else {
        Err(QuerySingleError::MultipleEntities(query))
    }
}

/// The first result, if there is no other; the error names the query.
pub fn judge_single<T>(first: Option<T>, extra: bool, query: &'static str) -> (result: Result<
    T,
    QuerySingleError,
>)
    ensures
        result == match first {
            Some(item) => if extra {
                Err(QuerySingleError::MultipleEntities(query))
            } else {
                Ok(item)
            },
            None => Err(QuerySingleError::NoEntities(query)),
        },
{
    match (first, extra) {
        (Some(item), false) => Ok(item),
        (None, _) => Err(QuerySingleError::NoEntities(query)),
        (Some(_), _) => Err(QuerySingleError::MultipleEntities(query)),
    }
}

impl<C: 'static, Q: WorldQuery<C>, F: WorldQuery<C>> QueryState<C, Q, F> {
    /// Goes through the query results for the given world, where the last change and the current
    /// change tick are given.
    pub fn iter_unchecked_manual<'w, 's, QF: Fetch<'w, C, State = Q::State>>(
        &'s self,
        world: &'w World<C>,
        last_change_tick: u32,
        change_tick: u32,
    ) -> (iter: QueryIter<'w, 's, C, Q, F, QF, F::Fetch<'w>>)
        requires
            world.wf(),
            self.valid_for(*world),
        ensures
            iter.wf(),
            iter.remaining() == self.results::<QF>(
                *world,
                last_change_tick,
                change_tick,
                QF::dense() && <F::Fetch<'w> as Fetch<'w, C>>::dense(),
            ),
    {
        let fetch = QF::init(world, &self.fetch_state, last_change_tick, change_tick);
        let filter = <F::Fetch<'w> as Fetch<'w, C>>::init(
            world,
            &self.filter_state,
            last_change_tick,
            change_tick,
        );
        let dense = QF::is_dense() && <F::Fetch<'w> as Fetch<'w, C>>::is_dense();
        let iter = QueryIter { world, query: self, fetch, filter, dense, begun: 0, row: 0, len: 0 };
        assert(iter.slots().skip(0) =~= iter.slots());
        iter
    }

    /// Goes through the query results for the given world.
    ///
    /// This takes items for reading; see [`QueryState::iter_mut`] for those that may be written to.
    pub fn iter<'w, 's>(&'s mut self, world: &'w World<C>) -> (iter: QueryIter<
        'w,
        's,
        C,
        Q,
        F,
        Q::ReadOnlyFetch<'w>,
        F::Fetch<'w>,
    >)
        requires
            world.wf(),
            old(self).valid_for(*world),
        ensures
            final(self).updated_from(*old(self), *world),
            final(self).valid_for(*world),
            iter.wf(),
            iter.remaining() == final(self).results::<Q::ReadOnlyFetch<'w>>(
                *world,
                world.last_change_tick,
                world.change_tick,
                Self::dense(),
            ),
    {
        self.update_archetypes(world);
        proof {
            Q::read_only_is_as_dense();
        }
        let last_change_tick = world.last_change_tick();
        let change_tick = world.read_change_tick();
        self.iter_unchecked_manual::<Q::ReadOnlyFetch<'w>>(world, last_change_tick, change_tick)
    }

    /// Goes through the query results for the given world.
    pub fn iter_mut<'w, 's>(&'s mut self, world: &'w mut World<C>) -> (iter: QueryIter<
        'w,
        's,
        C,
        Q,
        F,
        Q::Fetch<'w>,
        F::Fetch<'w>,
    >)
        requires
            old(world).wf(),
            old(self).valid_for(*old(world)),
        ensures
            *final(world) == *old(world),
            final(self).updated_from(*old(self), *old(world)),
            final(self).valid_for(*old(world)),
            iter.wf(),
            iter.remaining() == final(self).results::<Q::Fetch<'w>>(
                *old(world),
                old(world).last_change_tick,
                old(world).change_tick,
                Self::dense(),
            ),
    {
        self.update_archetypes(world);
        let last_change_tick = world.last_change_tick();
        let change_tick = world.read_change_tick();
        self.iter_unchecked_manual::<Q::Fetch<'w>>(world, last_change_tick, change_tick)
    }

    /// Goes through the query results for the given world, without exclusive access to it.
    pub fn iter_unchecked<'w, 's>(&'s mut self, world: &'w World<C>) -> (iter: QueryIter<
        'w,
        's,
        C,
        Q,
        F,
        Q::Fetch<'w>,
        F::Fetch<'w>,
    >)
        requires
            world.wf(),
            old(self).valid_for(*world),
        ensures
            final(self).updated_from(*old(self), *world),
            final(self).valid_for(*world),
            iter.wf(),
            iter.remaining() == final(self).results::<Q::Fetch<'w>>(
                *world,
                world.last_change_tick,
                world.change_tick,
                Self::dense(),
            ),
    {
        self.update_archetypes(world);
        let last_change_tick = world.last_change_tick();
        let change_tick = world.read_change_tick();
        self.iter_unchecked_manual::<Q::Fetch<'w>>(world, last_change_tick, change_tick)
    }

    /// Goes through the query results for the given world, without looking for new archetypes.
    pub fn iter_manual<'w, 's>(&'s self, world: &'w World<C>) -> (iter: QueryIter<
        'w,
        's,
        C,
        Q,
        F,
        Q::ReadOnlyFetch<'w>,
        F::Fetch<'w>,
    >)
        requires
            world.wf(),
            self.valid_for(*world),
        ensures
            iter.wf(),
            iter.remaining() == self.results::<Q::ReadOnlyFetch<'w>>(
                *world,
                world.last_change_tick,
                world.change_tick,
                Self::dense(),
            ),
    {
        self.validate_world(world);
        proof {
            Q::read_only_is_as_dense();
        }
        self.iter_unchecked_manual::<Q::ReadOnlyFetch<'w>>(
            world,
            world.last_change_tick(),
            world.read_change_tick(),
        )
    }

    /// Tells whether the query has no result for the given world, where the last change and the
    /// current change tick are given.
    pub fn is_empty<'w>(
        &self,
        world: &'w World<C>,
        last_change_tick: u32,
        change_tick: u32,
    ) -> (empty: bool)
        requires
            world.wf(),
            self.valid_for(*world),
        ensures
            empty == (self.rows(*world, last_change_tick, change_tick, Self::dense()).len() == 0),
    {
        let mut iter = self.iter_unchecked_manual::<NopFetch<'w, C, Q>>(
            world,
            last_change_tick,
            change_tick,
        );
        QueryIter::next(&mut iter).is_none()
    }

    /// Returns a query result when there is exactly one, where the last change and the current
    /// change tick are given; otherwise an error.
    pub fn get_single_unchecked_manual<'w, QF: Fetch<'w, C, State = Q::State>>(
        &self,
        world: &'w World<C>,
        last_change_tick: u32,
        change_tick: u32,
        query: &'static str,
    ) -> (result: Result<QF::Item, QuerySingleError>)
        requires
            world.wf(),
            self.valid_for(*world),
        ensures
            result == single_of(
                self.results::<QF>(
                    *world,
                    last_change_tick,
                    change_tick,
                    QF::dense() && <F::Fetch<'w> as Fetch<'w, C>>::dense(),
                ),
                query,
            ),
    {
        let mut iter = self.iter_unchecked_manual::<QF>(world, last_change_tick, change_tick);
        let first = iter.next();
        let extra = iter.next().is_some();
        judge_single(first, extra, query)
    }

    /// Returns a single query result, for reading, when there is exactly one; otherwise an error.
    ///
    /// See [`QueryState::get_single_mut`] for an item that may be written to.
    pub fn get_single<'w>(
        &mut self,
        world: &'w World<C>,
        query: &'static str,
    ) -> (result: Result<
        <Q::ReadOnlyFetch<'w> as Fetch<'w, C>>::Item,
        QuerySingleError,
    >)
        requires
            world.wf(),
            old(self).valid_for(*world),
        ensures
            final(self).updated_from(*old(self), *world),
            final(self).valid_for(*world),
            result == single_of(
                final(self).results::<Q::ReadOnlyFetch<'w>>(
                    *world,
                    world.last_change_tick,
                    world.change_tick,
                    Self::dense(),
                ),
                query,
            ),
    {
        self.update_archetypes(world);
        proof {
            Q::read_only_is_as_dense();
        }
        self.get_single_unchecked_manual::<Q::ReadOnlyFetch<'w>>(
            world,
            world.last_change_tick(),
            world.read_change_tick(),
            query,
        )
    }

    /// Returns a single query result when there is exactly one; otherwise an error.
    pub fn get_single_mut<'w>(
        &mut self,
        world: &'w mut World<C>,
        query: &'static str,
    ) -> (result: Result<
        <Q::Fetch<'w> as Fetch<'w, C>>::Item,
        QuerySingleError,
    >)
        requires
            old(world).wf(),
            old(self).valid_for(*old(world)),
        ensures
            *final(world) == *old(world),
            final(self).updated_from(*old(self), *old(world)),
            final(self).valid_for(*old(world)),
            result == single_of(
                final(self).results::<Q::Fetch<'w>>(
                    *old(world),
                    old(world).last_change_tick,
                    old(world).change_tick,
                    Self::dense(),
                ),
                query,
            ),
    {
        self.update_archetypes(world);
        self.get_single_unchecked_manual::<Q::Fetch<'w>>(
            world,
            world.last_change_tick(),
            world.read_change_tick(),
            query,
        )
    }

    /// Returns a single query result when there is exactly one, without exclusive access to the
    /// world; otherwise an error.
    pub fn get_single_unchecked<'w>(
        &mut self,
        world: &'w World<C>,
        query: &'static str,
    ) -> (result: Result<
        <Q::Fetch<'w> as Fetch<'w, C>>::Item,
        QuerySingleError,
    >)
        requires
            world.wf(),
            old(self).valid_for(*world),
        ensures
            final(self).updated_from(*old(self), *world),
            final(self).valid_for(*world),
            result == single_of(
                final(self).results::<Q::Fetch<'w>>(
                    *world,
                    world.last_change_tick,
                    world.change_tick,
                    Self::dense(),
                ),
                query,
            ),
    {
        self.update_archetypes(world);
        self.get_single_unchecked_manual::<Q::Fetch<'w>>(
            world,
            world.last_change_tick(),
            world.read_change_tick(),
            query,
        )
    }

    /// Returns the single query result, for reading.
    ///
    /// There must be exactly one; [`QueryState::get_single`] gives an error where there is not.
    pub fn single<'w>(&mut self, world: &'w World<C>) -> (item: <Q::ReadOnlyFetch<'w> as Fetch<
        'w,
        C,
    >>::Item)
        requires
            world.wf(),
            old(self).valid_for(*world),
            forall|updated: QueryState<C, Q, F>| #[trigger]
                updated.updated_from(*old(self), *world) ==> updated.results::<Q::ReadOnlyFetch<'w>>(
                    *world,
                    world.last_change_tick,
                    world.change_tick,
                    Self::dense(),
                ).len() == 1,
        ensures
            final(self).updated_from(*old(self), *world),
            final(self).valid_for(*world),
            seq![item] == final(self).results::<Q::ReadOnlyFetch<'w>>(
                *world,
                world.last_change_tick,
                world.change_tick,
                Self::dense(),
            ),
    {
        self.get_single(world, "").unwrap()
    }

    /// Returns the single query result.
    ///
    /// There must be exactly one; [`QueryState::get_single_mut`] gives an error where there is not.
    pub fn single_mut<'w>(&mut self, world: &'w mut World<C>) -> (item: <Q::Fetch<'w> as Fetch<
        'w,
        C,
    >>::Item)
        requires
            old(world).wf(),
            old(self).valid_for(*old(world)),
            forall|updated: QueryState<C, Q, F>| #[trigger]
                updated.updated_from(*old(self), *old(world)) ==> updated.results::<Q::Fetch<'w>>(
                    *old(world),
                    old(world).last_change_tick,
                    old(world).change_tick,
                    Self::dense(),
                ).len() == 1,
        ensures
            *final(world) == *old(world),
            final(self).updated_from(*old(self), *old(world)),
            final(self).valid_for(*old(world)),
            seq![item] == final(self).results::<Q::Fetch<'w>>(
                *old(world),
                old(world).last_change_tick,
                old(world).change_tick,
                Self::dense(),
            ),
    {
        self.get_single_mut(world, "").unwrap()
    }
}

} // verus!
