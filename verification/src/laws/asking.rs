//! Asking about entities, about several at once, and about the only one.
use vstd::prelude::*;
use crate::error::{QueryEntityError, QuerySingleError};
use crate::fetch::{Fetch, Place, Slot, WorldQuery};
use crate::get::aliased_at;
use crate::ids::Entity;
use crate::iter::single_of;
use crate::state::{both_match, QueryState};
use crate::world::World;

verus! {

impl<C: 'static, Q: WorldQuery<C>, F: WorldQuery<C>> QueryState<C, Q, F> {
    /// Asking about several entities, none of them twice, gives items of different rows.
    pub proof fn unique_items_are_apart<'w, QF: Fetch<'w, C, State = Q::State>>(
        &self,
        world: World<C>,
        entities: Seq<Entity>,
        last_change_tick: u32,
        change_tick: u32,
        items: Seq<QF::Item>,
        i: int,
        j: int,
    )
        requires
            world.wf(),
            self.looks_up_unique::<QF>(
                world,
                entities,
                last_change_tick,
                change_tick,
                Ok(items),
            ),
            0 <= i < j < entities.len(),
        ensures
            entities[i] != entities[j],
            world.locate(entities[i]) is Some,
            world.locate(entities[j]) is Some,
            world.locate(entities[i]) != world.locate(entities[j]),
    {
        assert(!aliased_at(entities, j));
        assert(self.lookup::<QF>(world, entities[i], last_change_tick, change_tick) is Ok);
        assert(self.lookup::<QF>(world, entities[j], last_change_tick, change_tick) is Ok);
        assert(world.entity_wf(entities[i].id as int));
        assert(world.entity_wf(entities[j].id as int));
    }

    /// An error says that an entity was asked for twice just when one was.
    pub proof fn aliasing_is_reported<'w, QF: Fetch<'w, C, State = Q::State>>(
        &self,
        world: World<C>,
        entities: Seq<Entity>,
        last_change_tick: u32,
        change_tick: u32,
        result: Result<Seq<QF::Item>, QueryEntityError>,
    )
        requires
            self.looks_up_unique::<QF>(world, entities, last_change_tick, change_tick, result),
        ensures
            entities.no_duplicates() <==> !(result matches Err(
                QueryEntityError::AliasedMutability(_),
            )),
    {
        if !entities.no_duplicates() {
            let (i, j) = choose|i: int, j: int|
                0 <= i < entities.len() && 0 <= j < entities.len() && i != j && entities[i]
                    == entities[j];
            if i < j {
                assert(aliased_at(entities, j));
            } else {
                assert(aliased_at(entities, i));
            }
        }
    }

    /// Where no entity is asked for twice, asking for items to write to fails just where asking for
    /// items to read does, and with the same error.
    pub proof fn unique_is_as_all<'w, QF: Fetch<'w, C, State = Q::State>>(
        &self,
        world: World<C>,
        entities: Seq<Entity>,
        last_change_tick: u32,
        change_tick: u32,
        result: Result<Seq<QF::Item>, QueryEntityError>,
    )
        requires
            entities.no_duplicates(),
        ensures
            self.looks_up_unique::<QF>(world, entities, last_change_tick, change_tick, result)
                <==> self.looks_up_all::<QF>(
                world,
                entities,
                last_change_tick,
                change_tick,
                result,
            ),
    {
    }

    /// Asking for an item to write to succeeds just where asking for one to read does, then both are
    /// of the same components, and otherwise both give the same error. It never says that an entity
    /// was asked for twice.
    pub proof fn get_mut_is_as_get<'w>(
        &self,
        world: World<C>,
        entity: Entity,
        last_change_tick: u32,
        change_tick: u32,
    )
        requires
            world.wf(),
            self.valid_for(world),
        ensures
            match (
                self.lookup::<Q::Fetch<'w>>(world, entity, last_change_tick, change_tick),
                self.lookup::<Q::ReadOnlyFetch<'w>>(world, entity, last_change_tick, change_tick),
            ) {
                (Ok(item), Ok(read)) => Q::reads_as(world, item, read),
                (Err(error), Err(other)) => error == other && !(
                error is AliasedMutability),
                _ => false,
            },
    {
        if let Some(location) = world.locate(entity) {
            let slot = Slot { place: Place::Archetype(location.archetype_id), row: location.index };
            if self.matched_archetype_ids@.contains(location.archetype_id) {
                assert(world.entity_wf(entity.id as int));
                let i = choose|i: int|
                    0 <= i < self.matched_archetype_ids@.len() && self.matched_archetype_ids@[i]
                        == location.archetype_id;
                assert(self.matched().archetypes[i] == location.archetype_id);
                Q::items_agree(self.fetch_context(world, last_change_tick, change_tick), slot);
            }
        }
    }

    /// A complete query has a result for an entity just when the entity exists, its archetype
    /// fits, and the filter lets its row through. Otherwise the error tells whether it exists.
    pub proof fn finds_what_fits<'w, QF: Fetch<'w, C, State = Q::State>>(
        &self,
        world: World<C>,
        entity: Entity,
        last_change_tick: u32,
        change_tick: u32,
    )
        requires
            world.wf(),
            self.complete(world),
        ensures
            self.lookup::<QF>(world, entity, last_change_tick, change_tick) == match world.locate(
                entity,
            ) {
                None => Err::<QF::Item, QueryEntityError>(QueryEntityError::NoSuchEntity(entity)),
                Some(location) => {
                    let slot = Slot {
                        place: Place::Archetype(location.archetype_id),
                        row: location.index,
                    };
                    if both_match(
                        self.fetch_state,
                        self.filter_state,
                        world.archetypes@[location.archetype_id.0 as int],
                    ) && <F::Fetch<'w> as Fetch<'w, C>>::passes(
                        self.filter_context(world, last_change_tick, change_tick),
                        slot,
                    ) {
                        Ok(
                            QF::item(
                                self.fetch_context(world, last_change_tick, change_tick),
                                slot,
                            ),
                        )
                    } else {
                        Err(QueryEntityError::QueryDoesNotMatch(entity))
                    }
                },
            },
    {
        self.complete_matches(world);
        if world.locate(entity) is Some {
            assert(world.entity_wf(entity.id as int));
            let id = world.locate(entity)->0.archetype_id;
            assert(self.matched_archetype_ids@.contains(id) <==> both_match(
                self.fetch_state,
                self.filter_state,
                world.archetypes@[id.0 as int],
            ));
        }
    }

    proof fn many_prefix<'w, QF: Fetch<'w, C, State = Q::State>>(
        &self,
        world: World<C>,
        entities: Seq<Entity>,
        last_change_tick: u32,
        change_tick: u32,
        items: Seq<QF::Item>,
        n: int,
    )
        requires
            self.looks_up_all::<QF>(world, entities, last_change_tick, change_tick, Ok(items)),
            0 <= n <= entities.len(),
        ensures
            self.results_of::<QF>(world, entities.take(n), last_change_tick, change_tick)
                == items.take(n),
        decreases n,
    {
        if n == 0 {
            reveal(Seq::filter);
            assert(self.results_of::<QF>(world, entities.take(0), last_change_tick, change_tick)
                =~= items.take(0));
        } else {
            self.many_prefix::<QF>(
                world,
                entities,
                last_change_tick,
                change_tick,
                items,
                n - 1,
            );
            assert(entities.take(n) =~= entities.take(n - 1).push(entities[n - 1]));
            assert(items.take(n) =~= items.take(n - 1).push(items[n - 1]));
            self.results_of_push::<QF>(
                world,
                entities.take(n - 1),
                entities[n - 1],
                last_change_tick,
                change_tick,
            );
        }
    }

    /// Where each entity of a list has a result, going through the list gives the same items as
    /// asking about all of its entities at once.
    pub proof fn list_is_as_many<'w, QF: Fetch<'w, C, State = Q::State>>(
        &self,
        world: World<C>,
        entities: Seq<Entity>,
        last_change_tick: u32,
        change_tick: u32,
        items: Seq<QF::Item>,
    )
        requires
            self.looks_up_all::<QF>(world, entities, last_change_tick, change_tick, Ok(items)),
        ensures
            self.results_of::<QF>(world, entities, last_change_tick, change_tick) == items,
    {
        let n = entities.len() as int;
        self.many_prefix::<QF>(world, entities, last_change_tick, change_tick, items, n);
        assert(entities.take(n) =~= entities);
        assert(items.take(n) =~= items);
    }

    /// A query is empty just when it has no result, and then asking for the only result says so.
    pub proof fn emptiness_agrees<'w, QF: Fetch<'w, C, State = Q::State>>(
        &self,
        world: World<C>,
        last_change_tick: u32,
        change_tick: u32,
        dense: bool,
        query: &'static str,
    )
        ensures
            ({
                let results = self.results::<QF>(world, last_change_tick, change_tick, dense);
                let empty = self.rows(world, last_change_tick, change_tick, dense).len() == 0;
                &&& empty <==> results.len() == 0
                &&& empty <==> single_of(results, query) == Err::<QF::Item, QuerySingleError>(
                    QuerySingleError::NoEntities(query),
                )
            }),
    {
    }
}

} // verus!
