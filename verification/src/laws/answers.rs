//! What the answers of a query must be, answer by answer.
use vstd::prelude::*;
use crate::error::{QueryEntityError, QuerySingleError};
use crate::fetch::{Context, Fetch, Place, Slot, WorldQuery};
use crate::get::items_of;
use crate::ids::Entity;
use crate::iter::single_of;
use crate::state::QueryState;
use crate::world::World;

verus! {

/// Whether the only result is given goes by the number of results alone.
pub proof fn single_goes_by_number<T>(results: Seq<T>, query: &'static str)
    ensures
        single_of(results, query) is Ok <==> results.len() == 1,
        single_of(results, query) == Err::<T, QuerySingleError>(QuerySingleError::NoEntities(query))
            <==> results.len() == 0,
        single_of(results, query) == Err::<T, QuerySingleError>(
            QuerySingleError::MultipleEntities(query),
        ) <==> results.len() >= 2,
        forall|item: T|
            single_of(results, query) == Ok::<T, QuerySingleError>(item) <==> #[trigger] seq![item]
                =~= results,
{
    assert forall|item: T|
        single_of(results, query) == Ok::<T, QuerySingleError>(item) <==> #[trigger] seq![item]
            =~= results by {
        if seq![item] =~= results {
            assert(seq![item][0] == results[0]);
            assert(seq![item].len() == 1);
        }
    }
}

/// The items of an array are taken as they stand, and an error is kept.
pub proof fn items_are_as_they_stand<T, const N: usize>(
    result: Result<[T; N], QueryEntityError>,
)
    ensures
        items_of(result) is Ok <==> result is Ok,
        result matches Ok(array) ==> items_of(result)->Ok_0.len() == N && forall|i: int|
            0 <= i < N ==> #[trigger] items_of(result)->Ok_0[i] == array@[i],
        result matches Err(error) ==> items_of(result) == Err::<Seq<T>, QueryEntityError>(error),
{
}

impl<C: 'static, Q: WorldQuery<C>, F: WorldQuery<C>> QueryState<C, Q, F> {
    /// The answer for an entity, by where it is, whether its archetype is matched, and what the
    /// filter and the query say of its row there.
    pub proof fn answer_goes_by_row<'w, QF: Fetch<'w, C, State = Q::State>>(
        &self,
        world: World<C>,
        entity: Entity,
        last_change_tick: u32,
        change_tick: u32,
    )
        ensures
            ({
                let answer = self.lookup::<QF>(world, entity, last_change_tick, change_tick);
                let filter = Context {
                    state: self.filter_state,
                    world,
                    last_change_tick,
                    change_tick,
                };
                let fetch = Context { state: self.fetch_state, world, last_change_tick, change_tick };
                match world.locate(entity) {
                    None => answer == Err::<QF::Item, QueryEntityError>(
                        QueryEntityError::NoSuchEntity(entity),
                    ),
                    Some(location) => {
                        let slot = Slot {
                            place: Place::Archetype(location.archetype_id),
                            row: location.index,
                        };
                        let found = self.matched_archetype_ids@.contains(location.archetype_id)
                            && <F::Fetch<'w> as Fetch<'w, C>>::passes(filter, slot);
                        &&& found ==> answer == Ok::<QF::Item, QueryEntityError>(
                            QF::item(fetch, slot),
                        )
                        &&& !found ==> answer == Err::<QF::Item, QueryEntityError>(
                            QueryEntityError::QueryDoesNotMatch(entity),
                        )
                    },
                }
            }),
    {
    }

    /// An answer is never about another entity, and never says that one was asked for twice.
    pub proof fn errors_name_the_entity<'w, QF: Fetch<'w, C, State = Q::State>>(
        &self,
        world: World<C>,
        entity: Entity,
        last_change_tick: u32,
        change_tick: u32,
        error: QueryEntityError,
    )
        requires
            self.lookup::<QF>(world, entity, last_change_tick, change_tick) == Err::<
                QF::Item,
                QueryEntityError,
            >(error),
        ensures
            error == QueryEntityError::NoSuchEntity(entity) || error
                == QueryEntityError::QueryDoesNotMatch(entity),
            error == QueryEntityError::NoSuchEntity(entity) <==> world.locate(entity) is None,
    {
    }

    /// Where each entity alone has an item, repeated or not, asking for all of them gives just those
    /// items in order, and nothing else.
    pub proof fn all_found_gives_all<'w, QF: Fetch<'w, C, State = Q::State>>(
        &self,
        world: World<C>,
        entities: Seq<Entity>,
        last_change_tick: u32,
        change_tick: u32,
        items: Seq<QF::Item>,
        result: Result<Seq<QF::Item>, QueryEntityError>,
    )
        requires
            items.len() == entities.len(),
            forall|i: int|
                0 <= i < entities.len() ==> self.lookup::<QF>(
                    world,
                    #[trigger] entities[i],
                    last_change_tick,
                    change_tick,
                ) == Ok::<QF::Item, QueryEntityError>(items[i]),
        ensures
            self.looks_up_all::<QF>(world, entities, last_change_tick, change_tick, result)
                <==> result == Ok::<Seq<QF::Item>, QueryEntityError>(items),
    {
        if self.looks_up_all::<QF>(world, entities, last_change_tick, change_tick, result) {
            match result {
                Ok(given) => {
                    assert forall|i: int| 0 <= i < items.len() implies given[i] == items[i] by {
                        assert(self.lookup::<QF>(
                            world,
                            entities[i],
                            last_change_tick,
                            change_tick,
                        ) == Ok::<QF::Item, QueryEntityError>(given[i]));
                    }
                    assert(given =~= items);
                },
                Err(error) => {},
            }
        }
    }

    /// Where some entity has no item, asking for all of them gives the error of the first such one,
    /// and nothing else.
    pub proof fn first_error_is_given<'w, QF: Fetch<'w, C, State = Q::State>>(
        &self,
        world: World<C>,
        entities: Seq<Entity>,
        last_change_tick: u32,
        change_tick: u32,
        first: int,
        error: QueryEntityError,
        result: Result<Seq<QF::Item>, QueryEntityError>,
    )
        requires
            0 <= first < entities.len(),
            self.lookup::<QF>(world, entities[first], last_change_tick, change_tick) == Err::<
                QF::Item,
                QueryEntityError,
            >(error),
            forall|i: int|
                0 <= i < first ==> self.lookup::<QF>(
                    world,
                    #[trigger] entities[i],
                    last_change_tick,
                    change_tick,
                ) is Ok,
        ensures
            self.looks_up_all::<QF>(world, entities, last_change_tick, change_tick, result)
                <==> result == Err::<Seq<QF::Item>, QueryEntityError>(error),
    {
        if self.looks_up_all::<QF>(world, entities, last_change_tick, change_tick, result) {
            match result {
                Ok(given) => {
                    assert(self.lookup::<QF>(
                        world,
                        entities[first],
                        last_change_tick,
                        change_tick,
                    ) is Ok);
                },
                Err(other) => {
                    let i = choose|i: int|
                        {
                            &&& 0 <= i < entities.len()
                            &&& self.lookup::<QF>(
                                world,
                                #[trigger] entities[i],
                                last_change_tick,
                                change_tick,
                            ) == Err::<QF::Item, QueryEntityError>(other)
                            &&& forall|j: int|
                                0 <= j < i ==> self.lookup::<QF>(
                                    world,
                                    #[trigger] entities[j],
                                    last_change_tick,
                                    change_tick,
                                ) is Ok
                        };
                    if i < first {
                        assert(self.lookup::<QF>(
                            world,
                            entities[i],
                            last_change_tick,
                            change_tick,
                        ) is Ok);
                    }
                    if first < i {
                        assert(self.lookup::<QF>(
                            world,
                            entities[first],
                            last_change_tick,
                            change_tick,
                        ) is Ok);
                    }
                },
            }
        }
        if result == Err::<Seq<QF::Item>, QueryEntityError>(error) {
            assert(self.lookup::<QF>(world, entities[first], last_change_tick, change_tick)
                == Err::<QF::Item, QueryEntityError>(error));
        }
    }

    /// Asking for several items to read never says that an entity was asked for twice.
    pub proof fn reading_never_aliases<'w, QF: Fetch<'w, C, State = Q::State>>(
        &self,
        world: World<C>,
        entities: Seq<Entity>,
        last_change_tick: u32,
        change_tick: u32,
        result: Result<Seq<QF::Item>, QueryEntityError>,
    )
        requires
            self.looks_up_all::<QF>(world, entities, last_change_tick, change_tick, result),
        ensures
            !(result matches Err(QueryEntityError::AliasedMutability(_))),
    {
    }

    /// Where entity `i` is the first to stand in the list a second time, asking for items to write to
    /// names it, whatever else is wrong, and says nothing else.
    pub proof fn first_repeated_is_named<'w, QF: Fetch<'w, C, State = Q::State>>(
        &self,
        world: World<C>,
        entities: Seq<Entity>,
        last_change_tick: u32,
        change_tick: u32,
        i: int,
        j: int,
        result: Result<Seq<QF::Item>, QueryEntityError>,
    )
        requires
            0 <= j < i < entities.len(),
            entities[j] == entities[i],
            entities.take(i).no_duplicates(),
        ensures
            self.looks_up_unique::<QF>(world, entities, last_change_tick, change_tick, result)
                <==> result == Err::<Seq<QF::Item>, QueryEntityError>(
                QueryEntityError::AliasedMutability(entities[i]),
            ),
    {
        assert(crate::get::aliased_at(entities, i));
        assert forall|k: int| k < i implies !#[trigger] crate::get::aliased_at(entities, k) by {
            if crate::get::aliased_at(entities, k) {
                let l = choose|l: int| 0 <= l < k && entities[l] == entities[k];
                assert(entities.take(i)[l] == entities.take(i)[k]);
            }
        }
        assert(crate::get::first_alias_at(entities, i));
        assert forall|k: int| #[trigger] crate::get::first_alias_at(entities, k) implies k == i by {
            if k < i {
                assert(!crate::get::aliased_at(entities, k));
            }
            if i < k {
                assert(!crate::get::aliased_at(entities, i));
            }
        }
    }

    /// A query has no result just when asking about no entity gives one.
    pub proof fn empty_finds_nothing<'w>(
        &self,
        world: World<C>,
        last_change_tick: u32,
        change_tick: u32,
    )
        requires
            world.wf(),
            self.complete(world),
        ensures
            self.rows(world, last_change_tick, change_tick, Self::dense()).len() == 0
                <==> forall|entity: Entity|
                #[trigger] self.lookup::<Q::Fetch<'w>>(
                    world,
                    entity,
                    last_change_tick,
                    change_tick,
                ) is Err,
    {
        self.visits_what_it_finds::<Q::Fetch<'w>>(world, last_change_tick, change_tick);
        let rows = self.rows(world, last_change_tick, change_tick, Self::dense());
        if rows.len() > 0 {
            assert(self.lookup::<Q::Fetch<'w>>(
                world,
                world.entity_at(rows[0]),
                last_change_tick,
                change_tick,
            ) is Ok);
        }
    }

    /// Going through no entities gives nothing; one more entity adds its item at the end, if asking
    /// about it alone gives one.
    pub proof fn list_gives_each_in_turn<'w, QF: Fetch<'w, C, State = Q::State>>(
        &self,
        world: World<C>,
        entities: Seq<Entity>,
        entity: Entity,
        last_change_tick: u32,
        change_tick: u32,
    )
        ensures
            self.results_of::<QF>(world, Seq::empty(), last_change_tick, change_tick).len() == 0,
            ({
                let before = self.results_of::<QF>(world, entities, last_change_tick, change_tick);
                let after = self.results_of::<QF>(
                    world,
                    entities.push(entity),
                    last_change_tick,
                    change_tick,
                );
                match self.lookup::<QF>(world, entity, last_change_tick, change_tick) {
                    Ok(item) => after == before.push(item),
                    Err(_) => after == before,
                }
            }),
    {
        reveal(Seq::filter);
        self.results_of_push::<QF>(world, entities, entity, last_change_tick, change_tick);
    }

    /// An entity in a list is visited by a run that changes values just when asking about it alone
    /// gives an item, and the call is made with that item.
    pub proof fn run_visits_what_it_finds<'w, S>(
        &self,
        s: S,
        world: World<C>,
        entity: Entity,
        last_change_tick: u32,
        change_tick: u32,
    )
        requires
            world.wf(),
        ensures
            ({
                let row = world.row_of(entity);
                let found = self.lookup::<Q::Fetch<'w>>(
                    world,
                    entity,
                    last_change_tick,
                    change_tick,
                );
                let read = self.lookup::<Q::ReadOnlyFetch<'w>>(
                    world,
                    entity,
                    last_change_tick,
                    change_tick,
                );
                &&& self.asked(world, entity) && self.lets_through(
                    world,
                    row,
                    last_change_tick,
                    change_tick,
                ) <==> found is Ok
                &&& found is Ok ==> self.call_at(s, world, row, last_change_tick, change_tick) == (
                    s,
                    found->Ok_0,
                    read->Ok_0,
                )
            }),
    {
    }

    /// The rows that a run goes through for a list: none for no entities, and one more for one more
    /// entity, if it exists and its archetype is matched.
    pub proof fn list_rows_in_turn(&self, world: World<C>, entities: Seq<Entity>, entity: Entity)
        ensures
            self.asked_rows(world, Seq::empty()).len() == 0,
            ({
                let before = self.asked_rows(world, entities);
                let after = self.asked_rows(world, entities.push(entity));
                match world.locate(entity) {
                    Some(location) => if self.matched_archetype_ids@.contains(
                        location.archetype_id,
                    ) {
                        after == before.push(
                            Slot {
                                place: Place::Archetype(location.archetype_id),
                                row: location.index,
                            },
                        )
                    } else {
                        after == before
                    },
                    None => after == before,
                }
            }),
    {
        reveal(Seq::filter);
        self.asked_rows_push(world, entities, entity);
    }
}

} // verus!
