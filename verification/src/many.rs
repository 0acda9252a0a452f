//! Going through the results of a query for a list of entities.
use std::marker::PhantomData;
use vstd::prelude::*;
use crate::fetch::{Fetch, WorldQuery};
use crate::ids::Entity;
use crate::rows::{callable_from, callable_next, folds, folds_none, folds_push};
use crate::state::{archetype_fits, QueryState};
use crate::world::World;

verus! {

impl<C: 'static, Q: WorldQuery<C>, F: WorldQuery<C>> QueryState<C, Q, F> {
    /// The entities among those given that the query has a result for.
    pub open spec fn found<'w, QF: Fetch<'w, C, State = Q::State>>(
        &self,
        world: World<C>,
        entities: Seq<Entity>,
        last_change_tick: u32,
        change_tick: u32,
    ) -> Seq<Entity> {
        entities.filter(
            |entity: Entity|
                self.lookup::<QF>(world, entity, last_change_tick, change_tick) is Ok,
        )
    }

    /// The results of the query for the entities that it has one for, in the order of the list.
    pub open spec fn results_of<'w, QF: Fetch<'w, C, State = Q::State>>(
        &self,
        world: World<C>,
        entities: Seq<Entity>,
        last_change_tick: u32,
        change_tick: u32,
    ) -> Seq<QF::Item> {
        self.found::<QF>(world, entities, last_change_tick, change_tick).map_values(
            |entity: Entity|
                self.lookup::<QF>(world, entity, last_change_tick, change_tick)->Ok_0,
        )
    }

    /// One more entity adds its result, if it has one.
    pub proof fn results_of_push<'w, QF: Fetch<'w, C, State = Q::State>>(
        &self,
        world: World<C>,
        entities: Seq<Entity>,
        entity: Entity,
        last_change_tick: u32,
        change_tick: u32,
    )
        ensures
            self.results_of::<QF>(world, entities.push(entity), last_change_tick, change_tick)
                == match self.lookup::<QF>(world, entity, last_change_tick, change_tick) {
                Ok(item) => self.results_of::<QF>(
                    world,
                    entities,
                    last_change_tick,
                    change_tick,
                ).push(item),
                Err(_) => self.results_of::<QF>(world, entities, last_change_tick, change_tick),
            },
    {
        reveal(Seq::filter);
        assert(entities.push(entity).drop_last() =~= entities);
        let before = self.results_of::<QF>(world, entities, last_change_tick, change_tick);
        let after = self.results_of::<QF>(
            world,
            entities.push(entity),
            last_change_tick,
            change_tick,
        );
        match self.lookup::<QF>(world, entity, last_change_tick, change_tick) {
            Ok(item) => {
                assert(after =~= before.push(item));
            },
            Err(_) => {},
        }
    }

    /// The results for two lists, one after the other.
    pub proof fn results_of_append<'w, QF: Fetch<'w, C, State = Q::State>>(
        &self,
        world: World<C>,
        first: Seq<Entity>,
        second: Seq<Entity>,
        last_change_tick: u32,
        change_tick: u32,
    )
        ensures
            self.results_of::<QF>(world, first + second, last_change_tick, change_tick)
                == self.results_of::<QF>(world, first, last_change_tick, change_tick)
                + self.results_of::<QF>(world, second, last_change_tick, change_tick),
    {
        Seq::filter_distributes_over_add(
            first,
            second,
            |entity: Entity|
                self.lookup::<QF>(world, entity, last_change_tick, change_tick) is Ok,
        );
        assert(self.results_of::<QF>(world, first + second, last_change_tick, change_tick)
            =~= self.results_of::<QF>(world, first, last_change_tick, change_tick)
            + self.results_of::<QF>(world, second, last_change_tick, change_tick));
    }

    /// Runs `func` on each query result for the given world and list of entities, where the last
    /// change and the current change tick are given.
    ///
    /// Entities that do not exist or do not match are passed over.
    pub fn many_for_each_unchecked_manual<
        'w,
        S,
        FN: Fn(S, <Q::Fetch<'w> as Fetch<'w, C>>::Item) -> S,
    >(
        &self,
        world: &'w World<C>,
        entity_list: &[Entity],
        start: S,
        func: FN,
        last_change_tick: u32,
        change_tick: u32,
    ) -> (end: S)
        requires
            world.wf(),
            self.valid_for(*world),
            callable_from(
                func,
                start,
                self.results_of::<Q::Fetch<'w>>(
                    *world,
                    entity_list@,
                    last_change_tick,
                    change_tick,
                ),
            ),
        ensures
            folds(
                func,
                start,
                self.results_of::<Q::Fetch<'w>>(
                    *world,
                    entity_list@,
                    last_change_tick,
                    change_tick,
                ),
                end,
            ),
    {
        let mut fetch = <Q::Fetch<'w> as Fetch<'w, C>>::init(
            world,
            &self.fetch_state,
            last_change_tick,
            change_tick,
        );
        let mut filter = <F::Fetch<'w> as Fetch<'w, C>>::init(
            world,
            &self.filter_state,
            last_change_tick,
            change_tick,
        );
        let ghost cx = self.fetch_context(*world, last_change_tick, change_tick);
        let ghost fx = self.filter_context(*world, last_change_tick, change_tick);
        let mut acc = start;
        let mut i: usize = 0;
        proof {
            reveal(Seq::filter);
            assert(entity_list@.take(0) =~= Seq::empty());
            assert(self.results_of::<Q::Fetch<'w>>(
                *world,
                Seq::empty(),
                last_change_tick,
                change_tick,
            ) =~= Seq::empty());
            folds_none::<S, <Q::Fetch<'w> as Fetch<'w, C>>::Item, FN>(func, start);
        }
        while i < entity_list.len()
            invariant
                i <= entity_list@.len(),
                world.wf(),
                self.valid_for(*world),
                cx == self.fetch_context(*world, last_change_tick, change_tick),
                fx == self.filter_context(*world, last_change_tick, change_tick),
                fetch.context() == cx,
                filter.context() == fx,
                callable_from(
                    func,
                    start,
                    self.results_of::<Q::Fetch<'w>>(
                        *world,
                        entity_list@,
                        last_change_tick,
                        change_tick,
                    ),
                ),
                folds(
                    func,
                    start,
                    self.results_of::<Q::Fetch<'w>>(
                        *world,
                        entity_list@.take(i as int),
                        last_change_tick,
                        change_tick,
                    ),
                    acc,
                ),
            decreases entity_list@.len() - i,
        {
            let entity = entity_list[i];
            proof {
                let before = entity_list@.take(i as int);
                assert(entity_list@.take(i + 1) =~= before.push(entity));
                self.results_of_push::<Q::Fetch<'w>>(
                    *world,
                    before,
                    entity,
                    last_change_tick,
                    change_tick,
                );
            }
            i = i + 1;
            let location = match world.location(entity) {
                Some(location) => location,
                None => {
                    continue;
                },
            };
            if !self.matched_archetypes.contains(location.archetype_id.index()) {
                continue;
            }
            proof {
                assert(world.entity_wf(entity.id as int));
                let k = choose|k: int|
                    0 <= k < self.matched_archetype_ids@.len() && self.matched_archetype_ids@[k]
                        == location.archetype_id;
                assert(archetype_fits(
                    self.fetch_state,
                    self.filter_state,
                    *world,
                    self.matched().archetypes[k],
                ));
            }
            <Q::Fetch<'w> as Fetch<'w, C>>::set_archetype(
                &mut fetch,
                &self.fetch_state,
                location.archetype_id,
            );
            <F::Fetch<'w> as Fetch<'w, C>>::set_archetype(
                &mut filter,
                &self.filter_state,
                location.archetype_id,
            );
            if filter.archetype_filter_fetch(location.index) {
                let item = fetch.archetype_fetch(location.index);
                let ghost middle = acc;
                proof {
                    let before = entity_list@.take(i - 1);
                    let rest = entity_list@.skip(i as int);
                    assert(entity_list@ =~= before.push(entity) + rest);
                    self.results_of_append::<Q::Fetch<'w>>(
                        *world,
                        before.push(entity),
                        rest,
                        last_change_tick,
                        change_tick,
                    );
                    callable_next(
                        func,
                        start,
                        self.results_of::<Q::Fetch<'w>>(
                            *world,
                            before,
                            last_change_tick,
                            change_tick,
                        ),
                        acc,
                        item,
                        self.results_of::<Q::Fetch<'w>>(
                            *world,
                            rest,
                            last_change_tick,
                            change_tick,
                        ),
                    );
                }
                acc = func(acc, item);
                proof {
                    folds_push(
                        func,
                        start,
                        self.results_of::<Q::Fetch<'w>>(
                            *world,
                            entity_list@.take(i - 1),
                            last_change_tick,
                            change_tick,
                        ),
                        middle,
                        item,
                        acc,
                    );
                }
            }
        }
        assert(entity_list@.take(i as int) =~= entity_list@);
        acc
    }

    /// Goes through the query results for the given world and list of entities, where the last
    /// change and the current change tick are given.
    pub fn iter_many_unchecked_manual<'w, 's, QF: Fetch<'w, C, State = Q::State>>(
        &'s self,
        entities: Vec<Entity>,
        world: &'w World<C>,
        last_change_tick: u32,
        change_tick: u32,
    ) -> (iter: QueryManyIter<'w, 's, C, Q, F, QF>)
        requires
            world.wf(),
            self.valid_for(*world),
        ensures
            iter.wf(),
            iter.remaining() == self.results_of::<QF>(
                *world,
                entities@,
                last_change_tick,
                change_tick,
            ),
    {
        assert(entities@.skip(0) =~= entities@);
        QueryManyIter {
            world,
            query: self,
            entities,
            position: 0,
            last_change_tick,
            change_tick,
            fetch: PhantomData,
        }
    }

    /// Goes through the query results of a list of entities.
    ///
    /// This takes items for reading; see [`QueryState::many_for_each_mut`] for those that may be
    /// written to.
    pub fn iter_many<'w, 's>(
        &'s mut self,
        world: &'w World<C>,
        entities: Vec<Entity>,
    ) -> (iter: QueryManyIter<'w, 's, C, Q, F, Q::ReadOnlyFetch<'w>>)
        requires
            world.wf(),
            old(self).valid_for(*world),
        ensures
            final(self).updated_from(*old(self), *world),
            final(self).valid_for(*world),
            iter.wf(),
            iter.remaining() == final(self).results_of::<Q::ReadOnlyFetch<'w>>(
                *world,
                entities@,
                world.last_change_tick,
                world.change_tick,
            ),
    {
        self.update_archetypes(world);
        self.iter_many_unchecked_manual::<Q::ReadOnlyFetch<'w>>(
            entities,
            world,
            world.last_change_tick(),
            world.read_change_tick(),
        )
    }
}

/// The results of a query for a list of entities that have not been taken yet.
pub struct QueryManyIter<'w, 's, C: 'static, Q: WorldQuery<C>, F: WorldQuery<C>, QF> {
    pub world: &'w World<C>,
    pub query: &'s QueryState<C, Q, F>,
    pub entities: Vec<Entity>,
    /// The position of the next entity in the list.
    pub position: usize,
    pub last_change_tick: u32,
    pub change_tick: u32,
    pub fetch: PhantomData<QF>,
}

impl<
    'w,
    's,
    C: 'static,
    Q: WorldQuery<C>,
    F: WorldQuery<C>,
    QF: Fetch<'w, C, State = Q::State>,
> QueryManyIter<'w, 's, C, Q, F, QF> {
    pub open spec fn wf(&self) -> bool {
        &&& self.world.wf()
        &&& self.query.valid_for(*self.world)
        &&& self.position <= self.entities@.len()
    }

    /// The same query for the same list on the same world, between the same ticks.
    pub open spec fn same_run(&self, other: Self) -> bool {
        &&& self.world == other.world
        &&& self.query == other.query
        &&& self.entities == other.entities
        &&& self.last_change_tick == other.last_change_tick
        &&& self.change_tick == other.change_tick
    }

    /// The results that are left, in order.
    pub open spec fn remaining(&self) -> Seq<QF::Item> {
        self.query.results_of::<QF>(
            *self.world,
            self.entities@.skip(self.position as int),
            self.last_change_tick,
            self.change_tick,
        )
    }

    /// The next result, if there is one left.
    pub fn next(&mut self) -> (item: Option<QF::Item>)
        requires
            old(self).wf(),
        ensures
            final(self).wf(),
            final(self).same_run(*old(self)),
            item is Some <==> old(self).remaining().len() > 0,
            item matches Some(first) ==> first == old(self).remaining()[0],
            final(self).remaining() == if item is Some {
                old(self).remaining().skip(1)
            } else {
                old(self).remaining()
            },
    {
        while self.position < self.entities.len()
            invariant
                self.wf(),
                self.same_run(*old(self)),
                self.remaining() == old(self).remaining(),
            decreases self.entities@.len() - self.position,
        {
            let entity = self.entities[self.position];
            let ghost before = *self;
            let ghost rest = self.entities@.skip(self.position + 1);
            proof {
                assert(self.entities@.skip(self.position as int) =~= seq![entity] + rest);
                assert(Seq::empty().push(entity) =~= seq![entity]);
                self.query.results_of_append::<QF>(
                    *self.world,
                    seq![entity],
                    rest,
                    self.last_change_tick,
                    self.change_tick,
                );
                self.query.results_of_push::<QF>(
                    *self.world,
                    Seq::empty(),
                    entity,
                    self.last_change_tick,
                    self.change_tick,
                );
                reveal(Seq::filter);
                assert(self.query.results_of::<QF>(
                    *self.world,
                    Seq::empty(),
                    self.last_change_tick,
                    self.change_tick,
                ) =~= Seq::empty());
            }
            self.position = self.position + 1;
            match self.query.get_unchecked_manual::<QF>(
                self.world,
                entity,
                self.last_change_tick,
                self.change_tick,
            ) {
                Ok(item) => {
                    assert(before.remaining() =~= seq![item] + self.remaining());
                    assert(before.remaining().skip(1) =~= self.remaining());
                    return Some(item);
                },
                Err(_) => {
                    assert(before.remaining() =~= self.remaining());
                },
            }
        }
        proof {
            reveal(Seq::filter);
            assert(self.entities@.skip(self.position as int) =~= Seq::empty());
        }
        None
    }
}

} // verus!
