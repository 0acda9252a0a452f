//! Asking a query about given entities.
use vstd::prelude::*;
use crate::arrays::array_from_vec;
use crate::error::QueryEntityError;
use crate::fetch::{Context, Fetch, Place, Slot, WorldQuery};
use crate::ids::Entity;
use crate::state::{archetype_fits, QueryState};
use crate::world::World;

verus! {

/// The entity at `i` stands at an earlier position too.
pub open spec fn aliased_at(entities: Seq<Entity>, i: int) -> bool {
    0 <= i < entities.len() && exists|j: int| 0 <= j < i && entities[j] == entities[i]
}

/// The first position at which an entity is repeated.
pub open spec fn first_alias_at(entities: Seq<Entity>, i: int) -> bool {
    aliased_at(entities, i) && forall|k: int| k < i ==> !#[trigger] aliased_at(entities, k)
}

/// The items of an array of results, as a sequence.
pub open spec fn items_of<T, const N: usize>(result: Result<[T; N], QueryEntityError>) -> Result<
    Seq<T>,
    QueryEntityError,
> {
    match result {
        Ok(items) => Ok(items@),
        Err(error) => Err(error),
    }
}

impl<C: 'static, Q: WorldQuery<C>, F: WorldQuery<C>> QueryState<C, Q, F> {
    /// The context of the query on a world, between two ticks.
    pub open spec fn fetch_context(
        &self,
        world: World<C>,
        last_change_tick: u32,
        change_tick: u32,
    ) -> Context<Q::State, C> {
        Context { state: self.fetch_state, world, last_change_tick, change_tick }
    }

    /// The context of the filter on a world, between two ticks.
    pub open spec fn filter_context(
        &self,
        world: World<C>,
        last_change_tick: u32,
        change_tick: u32,
    ) -> Context<F::State, C> {
        Context { state: self.filter_state, world, last_change_tick, change_tick }
    }

    /// What the query says of one entity.
    pub open spec fn lookup<'w, QF: Fetch<'w, C, State = Q::State>>(
        &self,
        world: World<C>,
        entity: Entity,
        last_change_tick: u32,
        change_tick: u32,
    ) -> Result<QF::Item, QueryEntityError> {
        match world.locate(entity) {
            None => Err(QueryEntityError::NoSuchEntity(entity)),
            Some(location) => {
                let slot = Slot {
                    place: Place::Archetype(location.archetype_id),
                    row: location.index,
                };
                if self.matched_archetype_ids@.contains(location.archetype_id) && <F::Fetch<
                    'w,
                > as Fetch<'w, C>>::passes(
                    self.filter_context(world, last_change_tick, change_tick),
                    slot,
                ) {
                    Ok(QF::item(self.fetch_context(world, last_change_tick, change_tick), slot))
                } else {
                    Err(QueryEntityError::QueryDoesNotMatch(entity))
                }
            },
        }
    }

    /// What the query says of several entities: an item for each, or the first error.
    pub open spec fn looks_up_all<'w, QF: Fetch<'w, C, State = Q::State>>(
        &self,
        world: World<C>,
        entities: Seq<Entity>,
        last_change_tick: u32,
        change_tick: u32,
        result: Result<Seq<QF::Item>, QueryEntityError>,
    ) -> bool {
        match result {
            Ok(items) => {
                &&& items.len() == entities.len()
                &&& forall|i: int|
                    0 <= i < entities.len() ==> self.lookup::<QF>(
                        world,
                        #[trigger] entities[i],
                        last_change_tick,
                        change_tick,
                    ) == Ok::<QF::Item, QueryEntityError>(items[i])
            },
            Err(error) => exists|i: int|
                {
                    &&& 0 <= i < entities.len()
                    &&& self.lookup::<QF>(
                        world,
                        #[trigger] entities[i],
                        last_change_tick,
                        change_tick,
                    ) == Err::<QF::Item, QueryEntityError>(error)
                    &&& forall|j: int|
                        0 <= j < i ==> self.lookup::<QF>(
                            world,
                            #[trigger] entities[j],
                            last_change_tick,
                            change_tick,
                        ) is Ok
                },
        }
    }

    /// Gets the query result for the given world and entity, where the last change and the current
    /// change tick are given.
    pub fn get_unchecked_manual<'w, QF: Fetch<'w, C, State = Q::State>>(
        &self,
        world: &'w World<C>,
        entity: Entity,
        last_change_tick: u32,
        change_tick: u32,
    ) -> (result: Result<QF::Item, QueryEntityError>)
        requires
            world.wf(),
            self.valid_for(*world),
        ensures
            result == self.lookup::<QF>(*world, entity, last_change_tick, change_tick),
    {
        let location = match world.location(entity) {
            Some(location) => location,
            None => {
                return Err(QueryEntityError::NoSuchEntity(entity));
            },
        };
        if !self.matched_archetypes.contains(location.archetype_id.index()) {
            return Err(QueryEntityError::QueryDoesNotMatch(entity));
        }
        proof {
            assert(world.entity_wf(entity.id as int));
            let i = choose|i: int|
                0 <= i < self.matched_archetype_ids@.len() && self.matched_archetype_ids@[i]
                    == location.archetype_id;
            assert(archetype_fits(
                self.fetch_state,
                self.filter_state,
                *world,
                self.matched().archetypes[i],
            ));
        }
        let mut fetch = QF::init(world, &self.fetch_state, last_change_tick, change_tick);
        let mut filter = <F::Fetch<'w> as Fetch<'w, C>>::init(
            world,
            &self.filter_state,
            last_change_tick,
            change_tick,
        );
        QF::set_archetype(&mut fetch, &self.fetch_state, location.archetype_id);
        <F::Fetch<'w> as Fetch<'w, C>>::set_archetype(
            &mut filter,
            &self.filter_state,
            location.archetype_id,
        );
        if filter.archetype_filter_fetch(location.index) {
            Ok(fetch.archetype_fetch(location.index))
        } else {
            Err(QueryEntityError::QueryDoesNotMatch(entity))
        }
    }

    /// Gets the query result for the given world and entity.
    ///
    /// This takes items for reading; see [`QueryState::get_mut`] for those that may be written to.
    pub fn get<'w>(&mut self, world: &'w World<C>, entity: Entity) -> (result: Result<
        <Q::ReadOnlyFetch<'w> as Fetch<'w, C>>::Item,
        QueryEntityError,
    >)
        requires
            world.wf(),
            old(self).valid_for(*world),
        ensures
            final(self).updated_from(*old(self), *world),
            final(self).valid_for(*world),
            result == final(self).lookup::<Q::ReadOnlyFetch<'w>>(
                *world,
                entity,
                world.last_change_tick,
                world.change_tick,
            ),
    {
        self.update_archetypes(world);
        self.get_unchecked_manual::<Q::ReadOnlyFetch<'w>>(
            world,
            entity,
            world.last_change_tick(),
            world.read_change_tick(),
        )
    }

    /// Gets the query result for the given world and entity.
    pub fn get_mut<'w>(&mut self, world: &'w mut World<C>, entity: Entity) -> (result: Result<
        <Q::Fetch<'w> as Fetch<'w, C>>::Item,
        QueryEntityError,
    >)
        requires
            old(world).wf(),
            old(self).valid_for(*old(world)),
        ensures
            *final(world) == *old(world),
            final(self).updated_from(*old(self), *old(world)),
            final(self).valid_for(*old(world)),
            result == final(self).lookup::<Q::Fetch<'w>>(
                *old(world),
                entity,
                old(world).last_change_tick,
                old(world).change_tick,
            ),
    {
        self.update_archetypes(world);
        self.get_unchecked_manual::<Q::Fetch<'w>>(
            world,
            entity,
            world.last_change_tick(),
            world.read_change_tick(),
        )
    }

    /// Gets the query result for the given world and entity, without looking for new archetypes.
    pub fn get_manual<'w>(&self, world: &'w World<C>, entity: Entity) -> (result: Result<
        <Q::ReadOnlyFetch<'w> as Fetch<'w, C>>::Item,
        QueryEntityError,
    >)
        requires
            world.wf(),
            self.valid_for(*world),
        ensures
            result == self.lookup::<Q::ReadOnlyFetch<'w>>(
                *world,
                entity,
                world.last_change_tick,
                world.change_tick,
            ),
    {
        self.validate_world(world);
        self.get_unchecked_manual::<Q::ReadOnlyFetch<'w>>(
            world,
            entity,
            world.last_change_tick(),
            world.read_change_tick(),
        )
    }

    /// Gets the query result for the given world and entity, without exclusive access to the world.
    ///
    /// This does not check that items which may be written to are asked for only once.
    pub fn get_unchecked<'w>(&mut self, world: &'w World<C>, entity: Entity) -> (result: Result<
        <Q::Fetch<'w> as Fetch<'w, C>>::Item,
        QueryEntityError,
    >)
        requires
            world.wf(),
            old(self).valid_for(*world),
        ensures
            final(self).updated_from(*old(self), *world),
            final(self).valid_for(*world),
            result == final(self).lookup::<Q::Fetch<'w>>(
                *world,
                entity,
                world.last_change_tick,
                world.change_tick,
            ),
    {
        self.update_archetypes(world);
        self.get_unchecked_manual::<Q::Fetch<'w>>(
            world,
            entity,
            world.last_change_tick(),
            world.read_change_tick(),
        )
    }

    /// Gets an item for each of the entities, or the first error.
    fn get_each<'w, QF: Fetch<'w, C, State = Q::State>, const N: usize>(
        &self,
        world: &'w World<C>,
        entities: &[Entity; N],
        last_change_tick: u32,
        change_tick: u32,
    ) -> (result: Result<[QF::Item; N], QueryEntityError>)
        requires
            world.wf(),
            self.valid_for(*world),
        ensures
            self.looks_up_all::<QF>(
                *world,
                entities@,
                last_change_tick,
                change_tick,
                items_of(result),
            ),
    {
        let mut items: Vec<QF::Item> = Vec::new();
        let mut i: usize = 0;
        while i < N
            invariant
                i <= N,
                world.wf(),
                self.valid_for(*world),
                items@.len() == i,
                forall|j: int|
                    0 <= j < i ==> self.lookup::<QF>(
                        *world,
                        #[trigger] entities@[j],
                        last_change_tick,
                        change_tick,
                    ) == Ok::<QF::Item, QueryEntityError>(items@[j]),
            decreases N - i,
        {
            match self.get_unchecked_manual::<QF>(
                world,
                entities[i],
                last_change_tick,
                change_tick,
            ) {
                Ok(item) => {
                    items.push(item);
                },
                Err(error) => {
                    assert(self.lookup::<QF>(
                        *world,
                        entities@[i as int],
                        last_change_tick,
                        change_tick,
                    ) == Err::<QF::Item, QueryEntityError>(error));
                    return Err(error);
                },
            }
            i = i + 1;
        }
        Ok(array_from_vec(items).unwrap())
    }

    /// Gets the read-only query results for the given world and array of entities, where the last
    /// change and the current change tick are given.
    pub fn get_many_read_only_manual<'w, const N: usize>(
        &self,
        world: &'w World<C>,
        entities: [Entity; N],
        last_change_tick: u32,
        change_tick: u32,
    ) -> (result: Result<
        [<Q::ReadOnlyFetch<'w> as Fetch<'w, C>>::Item; N],
        QueryEntityError,
    >)
        requires
            world.wf(),
            self.valid_for(*world),
        ensures
            self.looks_up_all::<Q::ReadOnlyFetch<'w>>(
                *world,
                entities@,
                last_change_tick,
                change_tick,
                items_of(result),
            ),
    {
        self.get_each::<Q::ReadOnlyFetch<'w>, N>(world, &entities, last_change_tick, change_tick)
    }

    /// Gets the query results for the given world and array of entities, where the last change and
    /// the current change tick are given.
    ///
    /// An entity that is asked for twice is an error, before any other.
    pub fn get_many_unchecked_manual<'w, const N: usize>(
        &self,
        world: &'w World<C>,
        entities: [Entity; N],
        last_change_tick: u32,
        change_tick: u32,
    ) -> (result: Result<[<Q::Fetch<'w> as Fetch<'w, C>>::Item; N], QueryEntityError>)
        requires
            world.wf(),
            self.valid_for(*world),
        ensures
            self.looks_up_unique::<Q::Fetch<'w>>(
                *world,
                entities@,
                last_change_tick,
                change_tick,
                items_of(result),
            ),
    {
        // Verify that all entities are unique
        let mut i: usize = 0;
        while i < N
            invariant
                i <= N,
                forall|k: int| k < i ==> !#[trigger] aliased_at(entities@, k),
            decreases N - i,
        {
            let mut j: usize = 0;
            while j < i
                invariant
                    j <= i < N,
                    forall|k: int| k < i ==> !#[trigger] aliased_at(entities@, k),
                    forall|k: int| 0 <= k < j ==> entities@[k] != entities@[i as int],
                decreases i - j,
            {
                if entities[i] == entities[j] {
                    assert(entities@[j as int] == entities@[i as int]);
                    assert(first_alias_at(entities@, i as int));
                    return Err(QueryEntityError::AliasedMutability(entities[i]));
                }
                j = j + 1;
            }
            i = i + 1;
        }
        self.get_each::<Q::Fetch<'w>, N>(world, &entities, last_change_tick, change_tick)
    }

    /// What the query says of several entities none of which may be asked for twice: an error for
    /// the first repeated one, and otherwise as [`QueryState::looks_up_all`].
    pub open spec fn looks_up_unique<'w, QF: Fetch<'w, C, State = Q::State>>(
        &self,
        world: World<C>,
        entities: Seq<Entity>,
        last_change_tick: u32,
        change_tick: u32,
        result: Result<Seq<QF::Item>, QueryEntityError>,
    ) -> bool {
        if exists|i: int| aliased_at(entities, i) {
            exists|i: int| #[trigger]
                first_alias_at(entities, i) && result == Err::<Seq<QF::Item>, QueryEntityError>(
                    QueryEntityError::AliasedMutability(entities[i]),
                )
        } else {
            self.looks_up_all::<QF>(world, entities, last_change_tick, change_tick, result)
        }
    }

    /// Returns the read-only query results for the given array of entities.
    ///
    /// In case of a nonexisting entity or mismatched component, an error is returned instead.
    ///
    /// Unlike with [`QueryState::get_many_mut`], the entities need not be unique.
    pub fn get_many<'w, const N: usize>(
        &mut self,
        world: &'w World<C>,
        entities: [Entity; N],
    ) -> (result: Result<[<Q::ReadOnlyFetch<'w> as Fetch<'w, C>>::Item; N], QueryEntityError>)
        requires
            world.wf(),
            old(self).valid_for(*world),
        ensures
            final(self).updated_from(*old(self), *world),
            final(self).valid_for(*world),
            final(self).looks_up_all::<Q::ReadOnlyFetch<'w>>(
                *world,
                entities@,
                world.last_change_tick,
                world.change_tick,
                items_of(result),
            ),
    {
        self.update_archetypes(world);
        self.get_many_read_only_manual(
            world,
            entities,
            world.last_change_tick(),
            world.read_change_tick(),
        )
    }

    /// Returns the query results for the given array of entities.
    ///
    /// In case of a nonexisting entity, a mismatched component or an entity that is asked for
    /// twice, an error is returned instead.
    pub fn get_many_mut<'w, const N: usize>(
        &mut self,
        world: &'w mut World<C>,
        entities: [Entity; N],
    ) -> (result: Result<[<Q::Fetch<'w> as Fetch<'w, C>>::Item; N], QueryEntityError>)
        requires
            old(world).wf(),
            old(self).valid_for(*old(world)),
        ensures
            *final(world) == *old(world),
            final(self).updated_from(*old(self), *old(world)),
            final(self).valid_for(*old(world)),
            final(self).looks_up_unique::<Q::Fetch<'w>>(
                *old(world),
                entities@,
                old(world).last_change_tick,
                old(world).change_tick,
                items_of(result),
            ),
    {
        self.update_archetypes(world);
        self.get_many_unchecked_manual(
            world,
            entities,
            world.last_change_tick(),
            world.read_change_tick(),
        )
    }
}

} // verus!
