//! What the queries and filters that the library comes with ask for, let through and give.
use vstd::prelude::*;
use crate::access::{AccessView, FilteredAccess, FilteredAccessView};
use crate::bits::ones;
use crate::changed::{Changed, ChangedFetch};
use crate::error::QueryEntityError;
use crate::fetch::{pointed_at, Context, Fetch, FetchState, Place, Slot, WorldQuery};
use crate::ids::{ComponentId, Entity, EntityLocation};
use crate::queries::{
    ComponentState, EntityFetch, NoState, PresenceFetch, PresenceState, Read, ReadFetch, UnitFetch,
    With, Without, Write, WriteFetch,
};
use crate::state::{conflict_free, QueryState};
use crate::world::{ArchetypeComponent, ComponentCell, ComponentKey, World};

verus! {

/// What an access is made of, index by index.
pub proof fn access_by_index(a: AccessView, b: AccessView, i: usize, j: usize)
    ensures
        !AccessView::empty().reads_and_writes.contains(i),
        !AccessView::empty().writes.contains(i),
        AccessView::read(i).reads_and_writes.contains(j) <==> j == i,
        !AccessView::read(i).writes.contains(j),
        AccessView::write(i).reads_and_writes.contains(j) <==> j == i,
        AccessView::write(i).writes.contains(j) <==> j == i,
        a.union(b).reads_and_writes.contains(i) <==> a.reads_and_writes.contains(i)
            || b.reads_and_writes.contains(i),
        a.union(b).writes.contains(i) <==> a.writes.contains(i) || b.writes.contains(i),
{
}

/// What an access with conditions is made of, index by index.
pub proof fn filtered_access_by_index(a: FilteredAccessView, b: FilteredAccessView, i: usize)
    ensures
        !FilteredAccessView::empty().access.reads_and_writes.contains(i),
        !FilteredAccessView::empty().access.writes.contains(i),
        !FilteredAccessView::empty().with.contains(i),
        !FilteredAccessView::empty().without.contains(i),
        a.union(b).access.reads_and_writes.contains(i) <==> a.access.reads_and_writes.contains(i)
            || b.access.reads_and_writes.contains(i),
        a.union(b).access.writes.contains(i) <==> a.access.writes.contains(i)
            || b.access.writes.contains(i),
        a.union(b).with.contains(i) <==> a.with.contains(i) || b.with.contains(i),
        a.union(b).without.contains(i) <==> a.without.contains(i) || b.without.contains(i),
{
}

/// The bits of an access are what it touches and what it asks for.
pub proof fn bits_are_the_access(access: FilteredAccess, i: usize)
    ensures
        access@.access == access.access@,
        access.access@.reads_and_writes.contains(i) <==> ones(
            access.access.reads_and_writes,
        ).contains(i),
        access.access@.writes.contains(i) <==> ones(access.access.writes).contains(i),
        access@.with.contains(i) <==> ones(access.with).contains(i),
        access@.without.contains(i) <==> ones(access.without).contains(i),
{
}

/// A query that needs nothing fits everywhere, accesses nothing and registers nothing.
pub proof fn nothing_is_needed<C: 'static>(
    state: NoState,
    components: Set<ComponentId>,
    entries: Seq<ArchetypeComponent>,
    registry: Seq<ComponentKey>,
    i: usize,
)
    ensures
        <NoState as FetchState<C>>::matches(&state, components),
        !<NoState as FetchState<C>>::component_access(&state).access.reads_and_writes.contains(i),
        !<NoState as FetchState<C>>::component_access(&state).access.writes.contains(i),
        !<NoState as FetchState<C>>::component_access(&state).with.contains(i),
        !<NoState as FetchState<C>>::component_access(&state).without.contains(i),
        !<NoState as FetchState<C>>::archetype_access(
            &state,
            entries,
        ).reads_and_writes.contains(i),
        !<NoState as FetchState<C>>::archetype_access(&state, entries).writes.contains(i),
        <NoState as FetchState<C>>::registered(registry) == registry,
{
}

/// A query for a component fits just the archetypes that have it, and accesses just that component,
/// for writing just if it writes.
pub proof fn component_is_needed<
    C: 'static,
    const TAG: u64,
    const SPARSE: bool,
    const WRITES: bool,
>(
    state: ComponentState<TAG, SPARSE, WRITES>,
    world: World<C>,
    components: Set<ComponentId>,
    entries: Seq<ArchetypeComponent>,
    k: int,
    i: usize,
)
    requires
        <ComponentState<TAG, SPARSE, WRITES> as FetchState<C>>::ready(&state, world),
        0 <= k < entries.len(),
        entries[k].component == state.component,
        forall|a: int, b: int|
            0 <= a < b < entries.len() ==> (#[trigger] entries[a]).component != (
            #[trigger] entries[b]).component,
    ensures
        state.component.0 < world.components@.len(),
        world.components@[state.component.0 as int].tag == TAG,
        world.components@[state.component.0 as int].sparse == SPARSE,
        <ComponentState<TAG, SPARSE, WRITES> as FetchState<C>>::matches(&state, components)
            <==> components.contains(state.component),
        ({
            let access = <ComponentState<TAG, SPARSE, WRITES> as FetchState<C>>::component_access(
                &state,
            );
            &&& access.access.reads_and_writes.contains(i) <==> i == state.component.0
            &&& access.access.writes.contains(i) <==> WRITES && i == state.component.0
            &&& access.with.contains(i) <==> i == state.component.0
            &&& !access.without.contains(i)
        }),
        ({
            let access = <ComponentState<TAG, SPARSE, WRITES> as FetchState<C>>::archetype_access(
                &state,
                entries,
            );
            &&& access.reads_and_writes.contains(i) <==> i == entries[k].archetype_component.0
            &&& access.writes.contains(i) <==> WRITES && i == entries[k].archetype_component.0
        }),
{
    assert(crate::world::has_component_at(entries, state.component, k));
    let p = crate::world::component_position(entries, state.component);
    assert(crate::world::has_component_at(entries, state.component, p));
    if p < k {
        assert(entries[p].component != entries[k].component);
    }
    if k < p {
        assert(entries[k].component != entries[p].component);
    }
}

/// A filter on presence fits just the archetypes that have the component, or just those that do not,
/// and reads and writes nothing.
pub proof fn presence_is_needed<
    C: 'static,
    const TAG: u64,
    const SPARSE: bool,
    const PRESENT: bool,
>(
    state: PresenceState<TAG, SPARSE, PRESENT>,
    world: World<C>,
    components: Set<ComponentId>,
    entries: Seq<ArchetypeComponent>,
    i: usize,
)
    requires
        <PresenceState<TAG, SPARSE, PRESENT> as FetchState<C>>::ready(&state, world),
    ensures
        state.component.0 < world.components@.len(),
        world.components@[state.component.0 as int].tag == TAG,
        world.components@[state.component.0 as int].sparse == SPARSE,
        <PresenceState<TAG, SPARSE, PRESENT> as FetchState<C>>::matches(&state, components)
            <==> components.contains(state.component) == PRESENT,
        ({
            let access = <PresenceState<TAG, SPARSE, PRESENT> as FetchState<C>>::component_access(
                &state,
            );
            &&& !access.access.reads_and_writes.contains(i)
            &&& !access.access.writes.contains(i)
            &&& access.with.contains(i) <==> PRESENT && i == state.component.0
            &&& access.without.contains(i) <==> !PRESENT && i == state.component.0
        }),
        !<PresenceState<TAG, SPARSE, PRESENT> as FetchState<C>>::archetype_access(
            &state,
            entries,
        ).reads_and_writes.contains(i),
        !<PresenceState<TAG, SPARSE, PRESENT> as FetchState<C>>::archetype_access(
            &state,
            entries,
        ).writes.contains(i),
{
}

/// Making a query for a component puts it at the end of the registry, unless it is there already.
pub proof fn component_is_registered<
    C: 'static,
    const TAG: u64,
    const SPARSE: bool,
    const FLAG: bool,
>(registry: Seq<ComponentKey>, i: int)
    ensures
        ({
            let key = ComponentKey { tag: TAG, sparse: SPARSE };
            let after = <ComponentState<TAG, SPARSE, FLAG> as FetchState<C>>::registered(registry);
            let other = <PresenceState<TAG, SPARSE, FLAG> as FetchState<C>>::registered(registry);
            &&& after == other
            &&& 0 <= i < registry.len() ==> after[i] == registry[i]
            &&& after.contains(key)
            &&& after.len() == if registry.contains(key) {
                registry.len()
            } else {
                registry.len() + 1
            }
        }),
{
    let key = ComponentKey { tag: TAG, sparse: SPARSE };
    assert(registry.push(key)[registry.len() as int] == key);
}

/// A state is made for a world just if its component is the one of its tag and storage there. What
/// is written may not be accessed otherwise, what is read may not be written, and presence is free.
pub proof fn state_is_of_its_component<
    C: 'static,
    const TAG: u64,
    const SPARSE: bool,
    const FLAG: bool,
>(
    state: ComponentState<TAG, SPARSE, FLAG>,
    presence: PresenceState<TAG, SPARSE, FLAG>,
    world: World<C>,
    access: FilteredAccessView,
)
    ensures
        <ComponentState<TAG, SPARSE, FLAG> as FetchState<C>>::ready(&state, world)
            <==> state.component.0 < world.components@.len()
            && world.components@[state.component.0 as int].tag == TAG
            && world.components@[state.component.0 as int].sparse == SPARSE,
        <PresenceState<TAG, SPARSE, FLAG> as FetchState<C>>::ready(&presence, world)
            <==> presence.component.0 < world.components@.len()
            && world.components@[presence.component.0 as int].tag == TAG
            && world.components@[presence.component.0 as int].sparse == SPARSE,
        <NoState as FetchState<C>>::ready(&NoState, world),
        <ComponentState<TAG, SPARSE, FLAG> as FetchState<C>>::compatible(&state, access) <==> !if FLAG {
            access.access.reads_and_writes.contains(state.component.0)
        } else {
            access.access.writes.contains(state.component.0)
        },
        <PresenceState<TAG, SPARSE, FLAG> as FetchState<C>>::compatible(&presence, access),
        <NoState as FetchState<C>>::compatible(&NoState, access),
{
}

/// None of the queries and filters conflicts with itself, so a state can be made of any of them.
pub proof fn none_conflicts_with_itself<
    C: 'static,
    const TAG: u64,
    const SPARSE: bool,
    const FLAG: bool,
>()
    ensures
        conflict_free::<C, NoState>(),
        conflict_free::<C, ComponentState<TAG, SPARSE, FLAG>>(),
        conflict_free::<C, PresenceState<TAG, SPARSE, FLAG>>(),
{
}

/// Queries go through whole tables just where they need no sparse component.
pub proof fn density_goes_by_storage<
    'w,
    C: 'static,
    const TAG: u64,
    const SPARSE: bool,
    const FLAG: bool,
>()
    ensures
        <EntityFetch<'w, C> as Fetch<'w, C>>::dense(),
        <UnitFetch<'w, C> as Fetch<'w, C>>::dense(),
        <ReadFetch<'w, C, TAG, SPARSE, FLAG> as Fetch<'w, C>>::dense() == !SPARSE,
        <WriteFetch<'w, C, TAG, SPARSE> as Fetch<'w, C>>::dense() == !SPARSE,
        <PresenceFetch<'w, C, TAG, SPARSE, FLAG> as Fetch<'w, C>>::dense() == !SPARSE,
        <ChangedFetch<'w, C, TAG, SPARSE> as Fetch<'w, C>>::dense() == !SPARSE,
{
}

/// All but the filter on what was written let every row through.
pub proof fn rows_are_let_through<
    'w,
    C: 'static,
    const TAG: u64,
    const SPARSE: bool,
    const FLAG: bool,
>(
    nothing: Context<NoState, C>,
    component: Context<ComponentState<TAG, SPARSE, FLAG>, C>,
    writing: Context<ComponentState<TAG, SPARSE, true>, C>,
    presence: Context<PresenceState<TAG, SPARSE, FLAG>, C>,
    slot: Slot,
)
    ensures
        <EntityFetch<'w, C> as Fetch<'w, C>>::passes(nothing, slot),
        <UnitFetch<'w, C> as Fetch<'w, C>>::passes(nothing, slot),
        <ReadFetch<'w, C, TAG, SPARSE, FLAG> as Fetch<'w, C>>::passes(component, slot),
        <WriteFetch<'w, C, TAG, SPARSE> as Fetch<'w, C>>::passes(writing, slot),
        <PresenceFetch<'w, C, TAG, SPARSE, FLAG> as Fetch<'w, C>>::passes(presence, slot),
{
}

/// The distance from an earlier tick to a later one, where ticks wrap around.
proof fn distance(later: u32, earlier: u32)
    ensures
        later.wrapping_sub(earlier) == if later >= earlier {
            later - earlier
        } else {
            later - earlier + 0x1_0000_0000
        },
{
}

/// Of the entity at a row that a query for a component may be asked about, the entry of the
/// component.
proof fn entry_at<
    C: 'static,
    const TAG: u64,
    const SPARSE: bool,
    const WRITES: bool,
>(
    context: Context<ComponentState<TAG, SPARSE, WRITES>, C>,
    slot: Slot,
    entity: Entity,
    location: EntityLocation,
    k: int,
)
    requires
        pointed_at(context, Some(slot.place), slot.row),
        slot.place is Table ==> !SPARSE,
        entity == match slot.place {
            Place::Table(table) => {
                context.world.tables@[table.0 as int].entities@[slot.row as int]
            },
            Place::Archetype(archetype) => {
                context.world.archetypes@[archetype.0 as int].entities@[slot.row as int]
            },
        },
        context.world.locate(entity) == Some(location),
        0 <= k < context.world.archetypes@[location.archetype_id.0 as int].components@.len(),
        context.world.archetypes@[location.archetype_id.0 as int].components@[k].component
            == context.state.component,
    ensures
        ({
            let cell = ComponentCell { entity, component: context.state.component };
            &&& context.world.entity_at(slot) == entity
            &&& context.world.has(cell)
            &&& context.world.value(cell) == context.world.values@[entity.id as int]@[k]
            &&& context.world.changed_tick(cell) == context.world.changed@[entity.id as int]@[k]
        }),
{
    context.world.cell_is_of_its_entry(entity, location, k);
}

/// A query for a component gives, of the entity at a row, the value at the entry of that component
/// to read, and that entity and that component to write to. The filter on what was written lets the
/// row through just when the tick at that entry is nearer to the current tick than the last one is.
pub proof fn items_are_of_the_entry<
    'w,
    C: 'static,
    const TAG: u64,
    const SPARSE: bool,
    const WRITES: bool,
>(
    state: ComponentState<TAG, SPARSE, WRITES>,
    world: World<C>,
    last_change_tick: u32,
    change_tick: u32,
    slot: Slot,
    entity: Entity,
    location: EntityLocation,
    k: int,
)
    requires
        pointed_at(
            Context { state, world, last_change_tick, change_tick },
            Some(slot.place),
            slot.row,
        ),
        slot.place is Table ==> !SPARSE,
        entity == match slot.place {
            Place::Table(table) => world.tables@[table.0 as int].entities@[slot.row as int],
            Place::Archetype(archetype) => {
                world.archetypes@[archetype.0 as int].entities@[slot.row as int]
            },
        },
        world.locate(entity) == Some(location),
        0 <= k < world.archetypes@[location.archetype_id.0 as int].components@.len(),
        world.archetypes@[location.archetype_id.0 as int].components@[k].component
            == state.component,
    ensures
        *<ReadFetch<'w, C, TAG, SPARSE, WRITES> as Fetch<'w, C>>::item(
            Context { state, world, last_change_tick, change_tick },
            slot,
        ) == world.values@[entity.id as int]@[k],
        ({
            let item = <WriteFetch<'w, C, TAG, SPARSE> as Fetch<'w, C>>::item(
                Context {
                    state: ComponentState { component: state.component },
                    world,
                    last_change_tick,
                    change_tick,
                },
                slot,
            );
            item.entity == entity && item.component == state.component
        }),
        ({
            let context = Context {
                state: ComponentState::<TAG, SPARSE, false> { component: state.component },
                world,
                last_change_tick,
                change_tick,
            };
            let tick = world.changed@[entity.id as int]@[k];
            let age = if change_tick >= tick {
                change_tick - tick
            } else {
                change_tick - tick + 0x1_0000_0000
            };
            let span = if change_tick >= last_change_tick {
                change_tick - last_change_tick
            } else {
                change_tick - last_change_tick + 0x1_0000_0000
            };
            &&& <ChangedFetch<'w, C, TAG, SPARSE> as Fetch<'w, C>>::passes(context, slot) <==> age
                < span
            &&& <ChangedFetch<'w, C, TAG, SPARSE> as Fetch<'w, C>>::item(context, slot) <==> age
                < span
        }),
{
    entry_at(
        Context { state, world, last_change_tick, change_tick },
        slot,
        entity,
        location,
        k,
    );
    distance(change_tick, world.changed@[entity.id as int]@[k]);
    distance(change_tick, last_change_tick);
}

/// The query for entities gives the entity that stands at the row.
pub proof fn entity_is_the_one_at_the_row<'w, C: 'static>(
    context: Context<NoState, C>,
    slot: Slot,
)
    ensures
        <EntityFetch<'w, C> as Fetch<'w, C>>::item(context, slot) == match slot.place {
            Place::Table(table) => {
                context.world.tables@[table.0 as int].entities@[slot.row as int]
            },
            Place::Archetype(archetype) => {
                context.world.archetypes@[archetype.0 as int].entities@[slot.row as int]
            },
        },
{
}

impl<C: 'static, F: WorldQuery<C>> QueryState<C, Entity, F> {
    /// Asking the query for entities about an entity gives that entity.
    pub proof fn entity_is_its_own_answer<'w>(
        &self,
        world: World<C>,
        entity: Entity,
        last_change_tick: u32,
        change_tick: u32,
        item: Entity,
    )
        requires
            world.wf(),
            self.lookup::<EntityFetch<'w, C>>(world, entity, last_change_tick, change_tick) == Ok::<
                Entity,
                QueryEntityError,
            >(item),
        ensures
            item == entity,
    {
        assert(world.entity_wf(entity.id as int));
    }

    /// The results of the query for entities are the entities that exist, each once.
    pub proof fn entities_are_the_results<'w>(
        &self,
        world: World<C>,
        last_change_tick: u32,
        change_tick: u32,
    )
        requires
            world.wf(),
            self.complete(world),
        ensures
            ({
                let results = self.results::<EntityFetch<'w, C>>(
                    world,
                    last_change_tick,
                    change_tick,
                    Self::dense(),
                );
                &&& results.no_duplicates()
                &&& forall|i: int|
                    0 <= i < results.len() ==> world.locate(#[trigger] results[i]) is Some
                &&& forall|entity: Entity|
                    self.lookup::<EntityFetch<'w, C>>(
                        world,
                        entity,
                        last_change_tick,
                        change_tick,
                    ) is Ok <==> #[trigger] results.contains(entity)
            }),
    {
        let rows = self.rows(world, last_change_tick, change_tick, Self::dense());
        let results = self.results::<EntityFetch<'w, C>>(
            world,
            last_change_tick,
            change_tick,
            Self::dense(),
        );
        self.visits_what_it_finds::<EntityFetch<'w, C>>(world, last_change_tick, change_tick);
        assert forall|i: int| 0 <= i < results.len() implies results[i] == world.entity_at(
            rows[i],
        ) && world.locate(#[trigger] results[i]) is Some by {
            let entity = world.entity_at(rows[i]);
            self.entity_is_its_own_answer(
                world,
                entity,
                last_change_tick,
                change_tick,
                results[i],
            );
        }
        assert forall|i: int, j: int| 0 <= i < j < results.len() implies results[i]
            != results[j] by {
            self.visits_each_once(world, last_change_tick, change_tick, i, j);
        }
        assert forall|entity: Entity|
            self.lookup::<EntityFetch<'w, C>>(
                world,
                entity,
                last_change_tick,
                change_tick,
            ) is Ok <==> #[trigger] results.contains(entity) by {
            if self.lookup::<EntityFetch<'w, C>>(
                world,
                entity,
                last_change_tick,
                change_tick,
            ) is Ok {
                let i = choose|i: int|
                    0 <= i < rows.len() && world.entity_at(#[trigger] rows[i]) == entity;
                assert(results[i] == entity);
            }
            if results.contains(entity) {
                let i = choose|i: int| 0 <= i < results.len() && results[i] == entity;
                assert(self.lookup::<EntityFetch<'w, C>>(
                    world,
                    world.entity_at(rows[i]),
                    last_change_tick,
                    change_tick,
                ) is Ok);
            }
        }
    }
}

impl<C: 'static, const TAG: u64, const SPARSE: bool, F: WorldQuery<C>> QueryState<
    C,
    Read<TAG, SPARSE>,
    F,
> {
    /// A query for a component gives the value that the entity has at the entry of just that
    /// component.
    pub proof fn reads_its_own_component<'w>(
        &self,
        world: World<C>,
        entity: Entity,
        last_change_tick: u32,
        change_tick: u32,
        item: &'w C,
        location: EntityLocation,
        k: int,
    )
        requires
            world.wf(),
            self.valid_for(world),
            self.lookup::<ReadFetch<'w, C, TAG, SPARSE, false>>(
                world,
                entity,
                last_change_tick,
                change_tick,
            ) == Ok::<&C, QueryEntityError>(item),
            world.locate(entity) == Some(location),
            0 <= k < world.archetypes@[location.archetype_id.0 as int].components@.len(),
            world.components@[world.archetypes@[location.archetype_id.0 as int].components@[k].component.0 as int]
                == (ComponentKey { tag: TAG, sparse: SPARSE }),
        ensures
            *item == world.values@[entity.id as int]@[k],
            *item == world.value(
                ComponentCell { entity, component: self.fetch_state.component },
            ),
    {
        assert(world.entity_wf(entity.id as int));
        own_entry(self.fetch_state, world, location, k);
        world.cell_is_of_its_entry(entity, location, k);
    }
}

impl<C: 'static, const TAG: u64, const SPARSE: bool, F: WorldQuery<C>> QueryState<
    C,
    Write<TAG, SPARSE>,
    F,
> {
    /// A query for a component to write to gives, where it is read, the value that the entity has at
    /// the entry of just that component, and otherwise the cell of that entry.
    pub proof fn writes_its_own_component<'w>(
        &self,
        world: World<C>,
        entity: Entity,
        last_change_tick: u32,
        change_tick: u32,
        item: ComponentCell,
        read: &'w C,
        location: EntityLocation,
        k: int,
    )
        requires
            world.wf(),
            self.valid_for(world),
            self.lookup::<WriteFetch<'w, C, TAG, SPARSE>>(
                world,
                entity,
                last_change_tick,
                change_tick,
            ) == Ok::<ComponentCell, QueryEntityError>(item),
            self.lookup::<ReadFetch<'w, C, TAG, SPARSE, true>>(
                world,
                entity,
                last_change_tick,
                change_tick,
            ) == Ok::<&C, QueryEntityError>(read),
            world.locate(entity) == Some(location),
            0 <= k < world.archetypes@[location.archetype_id.0 as int].components@.len(),
            world.components@[world.archetypes@[location.archetype_id.0 as int].components@[k].component.0 as int]
                == (ComponentKey { tag: TAG, sparse: SPARSE }),
        ensures
            item.entity == entity,
            item.component
                == world.archetypes@[location.archetype_id.0 as int].components@[k].component,
            *read == world.values@[entity.id as int]@[k],
    {
        assert(world.entity_wf(entity.id as int));
        own_entry(self.fetch_state, world, location, k);
        world.cell_is_of_its_entry(entity, location, k);
    }
}

/// The entry that is of the component with the query's tag is of the query's component.
proof fn own_entry<
    C: 'static,
    const TAG: u64,
    const SPARSE: bool,
    const WRITES: bool,
>(
    state: ComponentState<TAG, SPARSE, WRITES>,
    world: World<C>,
    location: EntityLocation,
    k: int,
)
    requires
        world.wf(),
        <ComponentState<TAG, SPARSE, WRITES> as FetchState<C>>::ready(&state, world),
        location.archetype_id.0 < world.archetypes@.len(),
        0 <= k < world.archetypes@[location.archetype_id.0 as int].components@.len(),
        world.components@[world.archetypes@[location.archetype_id.0 as int].components@[k].component.0 as int]
            == (ComponentKey { tag: TAG, sparse: SPARSE }),
    ensures
        world.archetypes@[location.archetype_id.0 as int].components@[k].component
            == state.component,
{
    let a = location.archetype_id.0 as int;
    assert(world.archetype_shape_wf(a));
    let entry = world.archetypes@[a].components@[k];
    assert(world.entry_wf(entry));
    let i = entry.component.0 as int;
    let j = state.component.0 as int;
    if i < j {
        assert(world.components@[i] != world.components@[j]);
    }
    if j < i {
        assert(world.components@[j] != world.components@[i]);
    }
}

/// What the edit of each query changes: the query for a component to write to replaces the value at
/// its entry, if there is a new one, and the others change nothing.
pub proof fn edits_change_their_own<
    'w,
    C: 'static,
    const TAG: u64,
    const SPARSE: bool,
>(
    before: World<C>,
    after: World<C>,
    nothing: NoState,
    reading: ComponentState<TAG, SPARSE, false>,
    writing: ComponentState<TAG, SPARSE, true>,
    with: PresenceState<TAG, SPARSE, true>,
    without: PresenceState<TAG, SPARSE, false>,
    slot: Slot,
    edit: Option<C>,
)
    ensures
        <Entity as WorldQuery<C>>::edited(before, nothing, slot, (), after) <==> after == before,
        <() as WorldQuery<C>>::edited(before, nothing, slot, (), after) <==> after == before,
        <Read<TAG, SPARSE> as WorldQuery<C>>::edited(before, reading, slot, (), after) <==> after
            == before,
        <With<TAG, SPARSE> as WorldQuery<C>>::edited(before, with, slot, (), after) <==> after
            == before,
        <Without<TAG, SPARSE> as WorldQuery<C>>::edited(before, without, slot, (), after)
            <==> after == before,
        <Changed<TAG, SPARSE> as WorldQuery<C>>::edited(before, reading, slot, (), after)
            <==> after == before,
        <Write<TAG, SPARSE> as WorldQuery<C>>::edited(before, writing, slot, None, after)
            <==> after == before,
        edit matches Some(value) ==> (<Write<TAG, SPARSE> as WorldQuery<C>>::edited(
            before,
            writing,
            slot,
            edit,
            after,
        ) <==> after.written(
            before,
            ComponentCell {
                entity: match slot.place {
                    Place::Table(table) => {
                        before.tables@[table.0 as int].entities@[slot.row as int]
                    },
                    Place::Archetype(archetype) => {
                        before.archetypes@[archetype.0 as int].entities@[slot.row as int]
                    },
                },
                component: writing.component,
            },
            value,
        )),
{
}

/// The item to write to and the one to read agree just when both are of the same component: for
/// most queries they are the same, and a cell goes with the value that it has.
pub proof fn items_agree_by_component<'w, C: 'static, const TAG: u64, const SPARSE: bool>(
    world: World<C>,
    entity: Entity,
    other: Entity,
    value: &'w C,
    other_value: &'w C,
    cell: ComponentCell,
)
    ensures
        <Entity as WorldQuery<C>>::reads_as(world, entity, other) <==> entity == other,
        <Read<TAG, SPARSE> as WorldQuery<C>>::reads_as(world, value, other_value) <==> value
            == other_value,
        <Write<TAG, SPARSE> as WorldQuery<C>>::reads_as(world, cell, value) <==> world.has(cell)
            && *value == world.value(cell),
{
}

} // verus!
