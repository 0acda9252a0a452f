//! What a query is made of: which archetypes it matches, and what it takes from a row.
use vstd::prelude::*;
use crate::access::{Access, AccessView, FilteredAccess, FilteredAccessView};
use crate::ids::{ArchetypeId, ComponentId, Entity, TableId};
use crate::world::{component_set, Archetype, ArchetypeComponent, ComponentKey, World};

verus! {

/// A group of rows: those of a table, or those of an archetype.
#[derive(Clone, Copy, Debug, PartialEq, Eq, Structural)]
pub enum Place {
    Table(TableId),
    Archetype(ArchetypeId),
}

/// One row of a table or of an archetype.
#[derive(Clone, Copy, Debug, PartialEq, Eq, Structural)]
pub struct Slot {
    pub place: Place,
    pub row: usize,
}

impl<C: 'static> World<C> {
    pub open spec fn has_place(&self, place: Place) -> bool {
        match place {
            Place::Table(table) => table.0 < self.tables@.len(),
            Place::Archetype(archetype) => archetype.0 < self.archetypes@.len(),
        }
    }

    /// The entities of a place, by row.
    pub open spec fn entities_at(&self, place: Place) -> Seq<Entity> {
        match place {
            Place::Table(table) => self.tables@[table.0 as int].entities@,
            Place::Archetype(archetype) => self.archetypes@[archetype.0 as int].entities@,
        }
    }

    /// The rows of a place, in order.
    pub open spec fn slots_at(&self, place: Place) -> Seq<Slot> {
        Seq::new(self.entities_at(place).len(), |row: int| Slot { place, row: row as usize })
    }

    /// The rows of several places, one place after the other.
    pub open spec fn slots_in(&self, places: Seq<Place>) -> Seq<Slot>
        decreases places.len(),
    {
        if places.len() == 0 {
            Seq::empty()
        } else {
            self.slots_in(places.drop_last()) + self.slots_at(places.last())
        }
    }

    /// The row of an entity in its archetype.
    pub open spec fn row_of(&self, entity: Entity) -> Slot {
        let location = self.locate(entity)->0;
        Slot { place: Place::Archetype(location.archetype_id), row: location.index }
    }

    pub open spec fn has_slot(&self, slot: Slot) -> bool {
        self.has_place(slot.place) && slot.row < self.entities_at(slot.place).len()
    }
}

/// The runtime part of a query: what it asks of the archetypes of a world.
pub trait FetchState<C: 'static>: Sized {
    /// The state was made for this world.
    spec fn ready(&self, world: World<C>) -> bool;

    /// An archetype with these components has what the query asks for.
    spec fn matches(&self, components: Set<ComponentId>) -> bool;

    /// The components that the query reads or writes, and its conditions on others.
    spec fn component_access(&self) -> FilteredAccessView;

    /// The query can be part of one that already has this access.
    spec fn compatible(&self, access: FilteredAccessView) -> bool;

    /// What the query reads or writes in an archetype with these components.
    spec fn archetype_access(&self, components: Seq<ArchetypeComponent>) -> AccessView;

    /// The registry of components after a state was made, by what it was before.
    spec fn registered(components: Seq<ComponentKey>) -> Seq<ComponentKey>;

    /// Any two states for the same world ask for the same, also where the world has got more
    /// components in between.
    proof fn ready_alike(a: Self, b: Self, earlier: World<C>, later: World<C>)
        requires
            earlier.wf(),
            later.wf(),
            a.ready(earlier),
            b.ready(later),
            earlier.components@.is_prefix_of(later.components@),
        ensures
            forall|components: Set<ComponentId>| #[trigger]
                a.matches(components) == b.matches(components),
            a.component_access() == b.component_access(),
            forall|components: Seq<ArchetypeComponent>| #[trigger]
                a.archetype_access(components) == b.archetype_access(components),
    ;

    /// A state stays ready while its world grows.
    proof fn ready_persists(&self, before: World<C>, after: World<C>)
        requires
            self.ready(before),
            after.later_than(before),
        ensures
            self.ready(after),
    ;

    /// Makes the state for a world, and registers the components that it needs.
    fn init(world: &mut World<C>) -> (state: Self)
        requires
            old(world).wf(),
        ensures
            final(world).wf(),
            final(world).later_than(*old(world)),
            final(world).same_but_components(*old(world)),
            final(world).components@ == Self::registered(old(world).components@),
            state.ready(*final(world)),
    ;

    fn matches_component_set(&self, archetype: &Archetype) -> (matched: bool)
        ensures
            matched == self.matches(archetype.component_set()),
    ;

    fn update_component_access(&self, access: &mut FilteredAccess, world: &World<C>)
        requires
            self.ready(*world),
            self.compatible(old(access)@),
        ensures
            final(access)@ == old(access)@.union(self.component_access()),
    ;

    fn update_archetype_component_access(&self, archetype: &Archetype, access: &mut Access)
        requires
            archetype.wf(),
            self.matches(archetype.component_set()),
        ensures
            final(access)@ == old(access)@.union(self.archetype_access(archetype.components@)),
    ;
}

/// What a fetch was made from.
pub struct Context<S, C: 'static> {
    pub state: S,
    pub world: World<C>,
    pub last_change_tick: u32,
    pub change_tick: u32,
}

/// Some archetype of the table has what a query asks for.
pub open spec fn table_matched<C: 'static, S: FetchState<C>>(
    state: S,
    world: World<C>,
    table: TableId,
) -> bool {
    exists|a: int| table_matched_by(state, world, table, a)
}

pub open spec fn table_matched_by<C: 'static, S: FetchState<C>>(
    state: S,
    world: World<C>,
    table: TableId,
    a: int,
) -> bool {
    &&& 0 <= a < world.archetypes@.len()
    &&& world.archetypes@[a].table_id == table
    &&& state.matches(world.archetypes@[a].component_set())
}

/// Whether a query may be asked about the rows of a place.
pub open spec fn place_matched<C: 'static, S: FetchState<C>>(
    state: S,
    world: World<C>,
    place: Place,
) -> bool {
    &&& world.has_place(place)
    &&& match place {
        Place::Table(table) => table_matched(state, world, table),
        Place::Archetype(archetype) => state.matches(
            world.archetypes@[archetype.0 as int].component_set(),
        ),
    }
}

/// A fetch from this context is pointed at a place that has the row.
pub open spec fn pointed_at<C: 'static, S: FetchState<C>>(
    context: Context<S, C>,
    place: Option<Place>,
    row: usize,
) -> bool {
    &&& context.world.wf()
    &&& context.state.ready(context.world)
    &&& place is Some
    &&& place_matched(context.state, context.world, place->0)
    &&& row < context.world.entities_at(place->0).len()
}

/// Takes items from rows: is pointed at a place first, then asked row by row.
pub trait Fetch<'w, C: 'static>: Sized {
    type State: FetchState<C>;

    type Item;

    /// Whether rows can be taken from whole tables. Otherwise they are taken by archetype.
    spec fn dense() -> bool;

    /// Whether the row is let through when this fetch is used as a filter.
    spec fn passes(context: Context<Self::State, C>, slot: Slot) -> bool;

    /// What is taken from the row.
    spec fn item(context: Context<Self::State, C>, slot: Slot) -> Self::Item;

    spec fn context(&self) -> Context<Self::State, C>;

    spec fn place(&self) -> Option<Place>;

    /// A dense fetch tells no two archetypes of the same table apart.
    proof fn dense_matching(state: Self::State, world: World<C>, a: int, b: int)
        requires
            Self::dense(),
            world.wf(),
            state.ready(world),
            0 <= a < world.archetypes@.len(),
            0 <= b < world.archetypes@.len(),
            world.archetypes@[a].table_id == world.archetypes@[b].table_id,
        ensures
            state.matches(world.archetypes@[a].component_set()) == state.matches(
                world.archetypes@[b].component_set(),
            ),
    ;

    /// A dense fetch takes the same from an entity by table as by archetype.
    proof fn dense_rows(context: Context<Self::State, C>, a: ArchetypeId, index: usize)
        requires
            Self::dense(),
            context.world.wf(),
            context.state.ready(context.world),
            a.0 < context.world.archetypes@.len(),
            index < context.world.archetypes@[a.0 as int].entities@.len(),
            context.state.matches(context.world.archetypes@[a.0 as int].component_set()),
        ensures
            ({
                let archetype = context.world.archetypes@[a.0 as int];
                let by_archetype = Slot { place: Place::Archetype(a), row: index };
                let by_table = Slot {
                    place: Place::Table(archetype.table_id),
                    row: archetype.rows@[index as int],
                };
                &&& Self::passes(context, by_table) == Self::passes(context, by_archetype)
                &&& Self::item(context, by_table) == Self::item(context, by_archetype)
            }),
    ;

    fn is_dense() -> (dense: bool)
        ensures
            dense == Self::dense(),
    ;

    fn init(
        world: &'w World<C>,
        state: &Self::State,
        last_change_tick: u32,
        change_tick: u32,
    ) -> (fetch: Self)
        requires
            world.wf(),
            state.ready(*world),
        ensures
            fetch.context() == (Context {
                state: *state,
                world: *world,
                last_change_tick,
                change_tick,
            }),
            fetch.place() is None,
    ;

    fn set_table(&mut self, state: &Self::State, table: TableId)
        requires
            Self::dense(),
            *state == old(self).context().state,
            state.ready(old(self).context().world),
            old(self).context().world.wf(),
            place_matched(*state, old(self).context().world, Place::Table(table)),
        ensures
            final(self).context() == old(self).context(),
            final(self).place() == Some(Place::Table(table)),
    ;

    fn set_archetype(&mut self, state: &Self::State, archetype: ArchetypeId)
        requires
            *state == old(self).context().state,
            state.ready(old(self).context().world),
            old(self).context().world.wf(),
            place_matched(*state, old(self).context().world, Place::Archetype(archetype)),
        ensures
            final(self).context() == old(self).context(),
            final(self).place() == Some(Place::Archetype(archetype)),
    ;

    fn table_filter_fetch(&mut self, row: usize) -> (passes: bool)
        requires
            Self::dense(),
            pointed_at(old(self).context(), old(self).place(), row),
            old(self).place()->0 is Table,
        ensures
            final(self).context() == old(self).context(),
            final(self).place() == old(self).place(),
            passes == Self::passes(
                old(self).context(),
                Slot { place: old(self).place()->0, row },
            ),
    ;

    fn archetype_filter_fetch(&mut self, index: usize) -> (passes: bool)
        requires
            pointed_at(old(self).context(), old(self).place(), index),
            old(self).place()->0 is Archetype,
        ensures
            final(self).context() == old(self).context(),
            final(self).place() == old(self).place(),
            passes == Self::passes(
                old(self).context(),
                Slot { place: old(self).place()->0, row: index },
            ),
    ;

    fn table_fetch(&mut self, row: usize) -> (item: Self::Item)
        requires
            Self::dense(),
            pointed_at(old(self).context(), old(self).place(), row),
            old(self).place()->0 is Table,
        ensures
            final(self).context() == old(self).context(),
            final(self).place() == old(self).place(),
            item == Self::item(old(self).context(), Slot { place: old(self).place()->0, row }),
    ;

    fn archetype_fetch(&mut self, index: usize) -> (item: Self::Item)
        requires
            pointed_at(old(self).context(), old(self).place(), index),
            old(self).place()->0 is Archetype,
        ensures
            final(self).context() == old(self).context(),
            final(self).place() == old(self).place(),
            item == Self::item(
                old(self).context(),
                Slot { place: old(self).place()->0, row: index },
            ),
    ;
}

/// A query, or the filter of one.
pub trait WorldQuery<C: 'static>: Sized {
    type State: FetchState<C>;

    /// Takes items that may be written to.
    type Fetch<'w>: Fetch<'w, C, State = Self::State>;

    /// Takes the same items for reading only.
    type ReadOnlyFetch<'w>: Fetch<'w, C, State = Self::State>;

    /// What a function that is run on an item can ask to be changed in the world.
    type Edit;

    /// The two items are of the same components, and what is read is what the world has there.
    spec fn reads_as<'w>(
        world: World<C>,
        item: <Self::Fetch<'w> as Fetch<'w, C>>::Item,
        read: <Self::ReadOnlyFetch<'w> as Fetch<'w, C>>::Item,
    ) -> bool;

    /// `after` is `before` after the edit was made through the item of a row.
    spec fn edited(
        before: World<C>,
        state: Self::State,
        slot: Slot,
        edit: Self::Edit,
        after: World<C>,
    ) -> bool;

    /// Both ways of taking items take the same components of a row.
    proof fn items_agree<'w>(context: Context<Self::State, C>, slot: Slot)
        requires
            pointed_at(context, Some(slot.place), slot.row),
            slot.place is Table ==> <Self::Fetch<'w> as Fetch<'w, C>>::dense(),
        ensures
            Self::reads_as(
                context.world,
                <Self::Fetch<'w> as Fetch<'w, C>>::item(context, slot),
                <Self::ReadOnlyFetch<'w> as Fetch<'w, C>>::item(context, slot),
            ),
    ;

    /// Makes an edit through the item of a row.
    fn apply<'w>(world: &mut World<C>, state: &Self::State, slot: Slot, edit: Self::Edit)
        requires
            old(world).wf(),
            state.ready(*old(world)),
            place_matched(*state, *old(world), slot.place),
            old(world).has_slot(slot),
            slot.place is Table ==> <Self::Fetch<'w> as Fetch<'w, C>>::dense(),
        ensures
            final(world).wf(),
            final(world).same_but_values(*old(world)),
            Self::edited(*old(world), *state, slot, edit, *final(world)),
    ;

    /// Both ways of taking items go through the rows in the same way.
    proof fn read_only_is_as_dense<'w>()
        ensures
            <Self::Fetch<'w> as Fetch<'w, C>>::dense() == <Self::ReadOnlyFetch<'w> as Fetch<
                'w,
                C,
            >>::dense(),
    ;
}

} // verus!
