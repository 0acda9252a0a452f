//! The queries that the library comes with.
use vstd::prelude::*;
use crate::access::{Access, AccessView, FilteredAccess, FilteredAccessView};
use crate::fetch::{
    pointed_at, table_matched_by, Context, Fetch, FetchState, Place, Slot, WorldQuery,
};
use crate::ids::{ArchetypeId, ComponentId, Entity, TableId};
use crate::state::push_new;
use crate::world::{
    component_position, component_set, Archetype, ArchetypeComponent, ComponentCell, ComponentKey,
    World,
};

verus! {

impl<C: 'static> World<C> {
    /// The entity at a row.
    pub open spec fn entity_at(&self, slot: Slot) -> Entity {
        self.entities_at(slot.place)[slot.row as int]
    }

    /// The entity at a row.
    pub fn slot_entity(&self, slot: Slot) -> (entity: Entity)
        requires
            self.has_slot(slot),
        ensures
            entity == self.entity_at(slot),
    {
        match slot.place {
            Place::Table(table) => self.tables[table.0].entities[slot.row],
            Place::Archetype(archetype) => self.archetypes[archetype.0].entities[slot.row],
        }
    }

    /// An entity has the same place by archetype as by table.
    pub proof fn same_entity_in_table(&self, a: ArchetypeId, index: usize)
        requires
            self.wf(),
            a.0 < self.archetypes@.len(),
            index < self.archetypes@[a.0 as int].entities@.len(),
        ensures
            self.entity_at(
                Slot {
                    place: Place::Table(self.archetypes@[a.0 as int].table_id),
                    row: self.archetypes@[a.0 as int].rows@[index as int],
                },
            ) == self.entity_at(Slot { place: Place::Archetype(a), row: index }),
    {
        assert(self.archetype_row_wf(a.0 as int, index as int));
    }

    /// Archetypes of the same table have the same components among those that are not sparse.
    pub proof fn same_table_same_components(&self, a: int, b: int, component: ComponentId)
        requires
            self.wf(),
            component.0 < self.components@.len(),
            !self.components@[component.0 as int].sparse,
            0 <= a < self.archetypes@.len(),
            0 <= b < self.archetypes@.len(),
            self.archetypes@[a].table_id == self.archetypes@[b].table_id,
        ensures
            self.archetypes@[a].component_set().contains(component)
                == self.archetypes@[b].component_set().contains(component),
    {
        assert(self.archetype_shape_wf(a));
        assert(self.archetype_shape_wf(b));
        let table = self.tables@[self.archetypes@[a].table_id.0 as int];
        assert(table.components@.contains(component) <==> self.archetypes@[a].component_set().contains(component));
        assert(table.components@.contains(component) <==> self.archetypes@[b].component_set().contains(component));
    }

    /// The entity at a row of an archetype, or of a table, has the components that the archetype,
    /// or some archetype of the table, has.
    pub proof fn slot_has_component(&self, slot: Slot, component: ComponentId, a: int)
        requires
            self.wf(),
            self.has_slot(slot),
            component.0 < self.components@.len(),
            0 <= a < self.archetypes@.len(),
            self.archetypes@[a].component_set().contains(component),
            match slot.place {
                Place::Table(table) => self.archetypes@[a].table_id == table
                    && !self.components@[component.0 as int].sparse,
                Place::Archetype(archetype) => archetype.0 == a,
            },
        ensures
            self.has(ComponentCell { entity: self.entity_at(slot), component }),
    {
        let entity = self.entity_at(slot);
        match slot.place {
            Place::Table(table) => {
                assert(self.table_row_wf(table.0 as int, slot.row as int));
                assert(self.entity_wf(entity.id as int));
                let b = self.entities@[entity.id as int].location->0.archetype_id.0 as int;
                self.same_table_same_components(a, b, component);
            },
            Place::Archetype(archetype) => {
                assert(self.archetype_row_wf(a, slot.row as int));
                assert(self.archetype_shape_wf(a));
            },
        }
    }
}

/// The state of a query that needs nothing of a world.
#[derive(Clone, Copy, Debug, PartialEq, Eq, Structural)]
pub struct NoState;

impl<C: 'static> FetchState<C> for NoState {
    open spec fn ready(&self, world: World<C>) -> bool {
        true
    }

    open spec fn matches(&self, components: Set<ComponentId>) -> bool {
        true
    }

    open spec fn component_access(&self) -> FilteredAccessView {
        FilteredAccessView::empty()
    }

    open spec fn compatible(&self, access: FilteredAccessView) -> bool {
        true
    }

    open spec fn archetype_access(&self, components: Seq<ArchetypeComponent>) -> AccessView {
        AccessView::empty()
    }

    open spec fn registered(components: Seq<ComponentKey>) -> Seq<ComponentKey> {
        components
    }

    proof fn ready_alike(a: Self, b: Self, earlier: World<C>, later: World<C>) {
    }

    proof fn ready_persists(&self, before: World<C>, after: World<C>) {
    }

    /// There is nothing to register, so the world stays as it is.
    fn init(world: &mut World<C>) -> (state: Self)
        ensures
            *final(world) == *old(world),
    {
        NoState
    }

    fn matches_component_set(&self, archetype: &Archetype) -> (matched: bool) {
        true
    }

    fn update_component_access(&self, access: &mut FilteredAccess, world: &World<C>) {
        assert(access@ =~= access@.union(FilteredAccessView::empty()));
    }

    fn update_archetype_component_access(&self, archetype: &Archetype, access: &mut Access) {
        assert(access@ =~= access@.union(AccessView::empty()));
    }
}

/// Takes the entity of each row.
pub struct EntityFetch<'w, C: 'static> {
    pub world: &'w World<C>,
    pub last_change_tick: u32,
    pub change_tick: u32,
    pub place: Option<Place>,
}

impl<'w, C: 'static> Fetch<'w, C> for EntityFetch<'w, C> {
    type State = NoState;

    type Item = Entity;

    open spec fn dense() -> bool {
        true
    }

    open spec fn passes(context: Context<NoState, C>, slot: Slot) -> bool {
        true
    }

    open spec fn item(context: Context<NoState, C>, slot: Slot) -> Entity {
        context.world.entity_at(slot)
    }

    open spec fn context(&self) -> Context<NoState, C> {
        Context {
            state: NoState,
            world: *self.world,
            last_change_tick: self.last_change_tick,
            change_tick: self.change_tick,
        }
    }

    open spec fn place(&self) -> Option<Place> {
        self.place
    }

    proof fn dense_matching(state: NoState, world: World<C>, a: int, b: int) {
    }

    proof fn dense_rows(context: Context<NoState, C>, a: ArchetypeId, index: usize) {
        context.world.same_entity_in_table(a, index);
    }

    fn is_dense() -> (dense: bool) {
        true
    }

    fn init(
        world: &'w World<C>,
        state: &NoState,
        last_change_tick: u32,
        change_tick: u32,
    ) -> (fetch: Self) {
        EntityFetch { world, last_change_tick, change_tick, place: None }
    }

    fn set_table(&mut self, state: &NoState, table: TableId) {
        self.place = Some(Place::Table(table));
    }

    fn set_archetype(&mut self, state: &NoState, archetype: ArchetypeId) {
        self.place = Some(Place::Archetype(archetype));
    }

    fn table_filter_fetch(&mut self, row: usize) -> (passes: bool) {
        true
    }

    fn archetype_filter_fetch(&mut self, index: usize) -> (passes: bool) {
        true
    }

    fn table_fetch(&mut self, row: usize) -> (item: Entity) {
        self.world.slot_entity(Slot { place: self.place.unwrap(), row })
    }

    fn archetype_fetch(&mut self, index: usize) -> (item: Entity) {
        self.world.slot_entity(Slot { place: self.place.unwrap(), row: index })
    }
}

/// The query for the entities themselves.
impl<C: 'static> WorldQuery<C> for Entity {
    type State = NoState;

    type Fetch<'w> = EntityFetch<'w, C>;

    type ReadOnlyFetch<'w> = EntityFetch<'w, C>;

    type Edit = ();

    open spec fn reads_as<'w>(world: World<C>, item: Entity, read: Entity) -> bool {
        item == read
    }

    open spec fn edited(
        before: World<C>,
        state: NoState,
        slot: Slot,
        edit: (),
        after: World<C>,
    ) -> bool {
        after == before
    }

    proof fn items_agree<'w>(context: Context<NoState, C>, slot: Slot) {
    }

    fn apply<'w>(world: &mut World<C>, state: &NoState, slot: Slot, edit: ()) {
    }

    proof fn read_only_is_as_dense<'w>() {
    }
}

/// Lets every row through and takes nothing.
pub struct UnitFetch<'w, C: 'static> {
    pub world: &'w World<C>,
    pub state: NoState,
    pub last_change_tick: u32,
    pub change_tick: u32,
    pub place: Option<Place>,
}

impl<'w, C: 'static> Fetch<'w, C> for UnitFetch<'w, C> {
    type State = NoState;

    type Item = ();

    open spec fn dense() -> bool {
        true
    }

    open spec fn passes(context: Context<NoState, C>, slot: Slot) -> bool {
        true
    }

    open spec fn item(context: Context<NoState, C>, slot: Slot) -> () {
        ()
    }

    open spec fn context(&self) -> Context<NoState, C> {
        Context {
            state: self.state,
            world: *self.world,
            last_change_tick: self.last_change_tick,
            change_tick: self.change_tick,
        }
    }

    open spec fn place(&self) -> Option<Place> {
        self.place
    }

    proof fn dense_matching(state: NoState, world: World<C>, a: int, b: int) {
    }

    proof fn dense_rows(context: Context<NoState, C>, a: ArchetypeId, index: usize) {
    }

    fn is_dense() -> (dense: bool) {
        true
    }

    fn init(
        world: &'w World<C>,
        state: &NoState,
        last_change_tick: u32,
        change_tick: u32,
    ) -> (fetch: Self) {
        UnitFetch { world, state: *state, last_change_tick, change_tick, place: None }
    }

    fn set_table(&mut self, state: &NoState, table: TableId) {
        self.place = Some(Place::Table(table));
    }

    fn set_archetype(&mut self, state: &NoState, archetype: ArchetypeId) {
        self.place = Some(Place::Archetype(archetype));
    }

    fn table_filter_fetch(&mut self, row: usize) -> (passes: bool) {
        true
    }

    fn archetype_filter_fetch(&mut self, index: usize) -> (passes: bool) {
        true
    }

    fn table_fetch(&mut self, row: usize) -> (item: ()) {
        ()
    }

    fn archetype_fetch(&mut self, index: usize) -> (item: ()) {
        ()
    }
}

/// The filter that lets everything through.
impl<C: 'static> WorldQuery<C> for () {
    type State = NoState;

    type Fetch<'w> = UnitFetch<'w, C>;

    type ReadOnlyFetch<'w> = UnitFetch<'w, C>;

    type Edit = ();

    open spec fn reads_as<'w>(world: World<C>, item: (), read: ()) -> bool {
        item == read
    }

    open spec fn edited(
        before: World<C>,
        state: NoState,
        slot: Slot,
        edit: (),
        after: World<C>,
    ) -> bool {
        after == before
    }

    proof fn items_agree<'w>(context: Context<NoState, C>, slot: Slot) {
    }

    fn apply<'w>(world: &mut World<C>, state: &NoState, slot: Slot, edit: ()) {
    }

    proof fn read_only_is_as_dense<'w>() {
    }
}

/// Goes through the rows as query `Q` does, without a filter, and takes nothing from them.
pub struct NopFetch<'w, C: 'static, Q: WorldQuery<C>> {
    pub world: &'w World<C>,
    pub context: Ghost<Context<Q::State, C>>,
    pub place: Option<Place>,
}

impl<'w, C: 'static, Q: WorldQuery<C>> Fetch<'w, C> for NopFetch<'w, C, Q> {
    type State = Q::State;

    type Item = ();

    open spec fn dense() -> bool {
        <Q::Fetch<'w> as Fetch<'w, C>>::dense()
    }

    open spec fn passes(context: Context<Q::State, C>, slot: Slot) -> bool {
        true
    }

    open spec fn item(context: Context<Q::State, C>, slot: Slot) -> () {
        ()
    }

    open spec fn context(&self) -> Context<Q::State, C> {
        self.context@
    }

    open spec fn place(&self) -> Option<Place> {
        self.place
    }

    proof fn dense_matching(state: Q::State, world: World<C>, a: int, b: int) {
        <Q::Fetch<'w> as Fetch<'w, C>>::dense_matching(state, world, a, b);
    }

    proof fn dense_rows(context: Context<Q::State, C>, a: ArchetypeId, index: usize) {
    }

    fn is_dense() -> (dense: bool) {
        <Q::Fetch<'w> as Fetch<'w, C>>::is_dense()
    }

    fn init(
        world: &'w World<C>,
        state: &Q::State,
        last_change_tick: u32,
        change_tick: u32,
    ) -> (fetch: Self) {
        NopFetch {
            world,
            context: Ghost(Context { state: *state, world: *world, last_change_tick, change_tick }),
            place: None,
        }
    }

    fn set_table(&mut self, state: &Q::State, table: TableId) {
        self.place = Some(Place::Table(table));
    }

    fn set_archetype(&mut self, state: &Q::State, archetype: ArchetypeId) {
        self.place = Some(Place::Archetype(archetype));
    }

    fn table_filter_fetch(&mut self, row: usize) -> (passes: bool) {
        true
    }

    fn archetype_filter_fetch(&mut self, index: usize) -> (passes: bool) {
        true
    }

    fn table_fetch(&mut self, row: usize) -> (item: ()) {
        ()
    }

    fn archetype_fetch(&mut self, index: usize) -> (item: ()) {
        ()
    }
}

/// The state of a query that reads, or writes, one component.
#[derive(Clone, Copy, Debug)]
pub struct ComponentState<const TAG: u64, const SPARSE: bool, const WRITES: bool> {
    pub component: ComponentId,
}

/// The access to one component, which must be present.
pub open spec fn component_view(component: ComponentId, writes: bool) -> FilteredAccessView {
    FilteredAccessView {
        access: if writes {
            AccessView::write(component.0)
        } else {
            AccessView::read(component.0)
        },
        with: Set::empty().insert(component.0),
        without: Set::empty(),
    }
}

impl<C: 'static, const TAG: u64, const SPARSE: bool, const WRITES: bool> FetchState<
    C,
> for ComponentState<TAG, SPARSE, WRITES> {
    open spec fn ready(&self, world: World<C>) -> bool {
        &&& self.component.0 < world.components@.len()
        &&& world.components@[self.component.0 as int] == (ComponentKey {
            tag: TAG,
            sparse: SPARSE,
        })
    }

    open spec fn matches(&self, components: Set<ComponentId>) -> bool {
        components.contains(self.component)
    }

    open spec fn component_access(&self) -> FilteredAccessView {
        component_view(self.component, WRITES)
    }

    open spec fn compatible(&self, access: FilteredAccessView) -> bool {
        if WRITES {
            !access.access.reads_and_writes.contains(self.component.0)
        } else {
            !access.access.writes.contains(self.component.0)
        }
    }

    open spec fn archetype_access(&self, components: Seq<ArchetypeComponent>) -> AccessView {
        let entry = components[component_position(components, self.component)];
        if WRITES {
            AccessView::write(entry.archetype_component.0)
        } else {
            AccessView::read(entry.archetype_component.0)
        }
    }

    open spec fn registered(components: Seq<ComponentKey>) -> Seq<ComponentKey> {
        push_new(components, ComponentKey { tag: TAG, sparse: SPARSE })
    }

    proof fn ready_alike(a: Self, b: Self, earlier: World<C>, later: World<C>) {
        assert(later.components@[a.component.0 as int] == later.components@[b.component.0 as int]);
    }

    proof fn ready_persists(&self, before: World<C>, after: World<C>) {
    }

    fn init(world: &mut World<C>) -> (state: Self) {
        ComponentState { component: world.init_component(ComponentKey { tag: TAG, sparse: SPARSE }) }
    }

    fn matches_component_set(&self, archetype: &Archetype) -> (matched: bool) {
        archetype.contains(self.component)
    }

    fn update_component_access(&self, access: &mut FilteredAccess, world: &World<C>) {
        assert(world.components.len() <= usize::MAX);
        if WRITES {
            access.add_write(self.component.0);
        } else {
            access.add_read(self.component.0);
        }
        assert(access@ =~= old(access)@.union(component_view(self.component, WRITES)));
    }

    fn update_archetype_component_access(&self, archetype: &Archetype, access: &mut Access) {
        let position = archetype.position(self.component).unwrap();
        let index = archetype.components[position].archetype_component.0;
        if WRITES {
            access.add_write(index);
        } else {
            access.add_read(index);
        }
    }
}

/// Takes a reference to one component of each row.
pub struct ReadFetch<
    'w,
    C: 'static,
    const TAG: u64,
    const SPARSE: bool,
    const WRITES: bool,
> {
    pub world: &'w World<C>,
    pub state: ComponentState<TAG, SPARSE, WRITES>,
    pub last_change_tick: u32,
    pub change_tick: u32,
    pub place: Option<Place>,
}

/// The entity at a row that a query for a component may be asked about has that component.
pub proof fn component_at_slot<
    C: 'static,
    const TAG: u64,
    const SPARSE: bool,
    const WRITES: bool,
>(context: Context<ComponentState<TAG, SPARSE, WRITES>, C>, place: Place, row: usize)
    requires
        pointed_at(context, Some(place), row),
        place is Table ==> !SPARSE,
    ensures
        context.world.has(
            ComponentCell {
                entity: context.world.entity_at(Slot { place, row }),
                component: context.state.component,
            },
        ),
{
    let a = match place {
        Place::Table(table) => choose|a: int|
            table_matched_by(context.state, context.world, table, a),
        Place::Archetype(archetype) => archetype.0 as int,
    };
    context.world.slot_has_component(Slot { place, row }, context.state.component, a);
}

impl<
    'w,
    C: 'static,
    const TAG: u64,
    const SPARSE: bool,
    const WRITES: bool,
> Fetch<'w, C> for ReadFetch<'w, C, TAG, SPARSE, WRITES> {
    type State = ComponentState<TAG, SPARSE, WRITES>;

    type Item = &'w C;

    open spec fn dense() -> bool {
        !SPARSE
    }

    open spec fn passes(
        context: Context<ComponentState<TAG, SPARSE, WRITES>, C>,
        slot: Slot,
    ) -> bool {
        true
    }

    open spec fn item(
        context: Context<ComponentState<TAG, SPARSE, WRITES>, C>,
        slot: Slot,
    ) -> &'w C {
        &context.world.value(
            ComponentCell {
                entity: context.world.entity_at(slot),
                component: context.state.component,
            },
        )
    }

    open spec fn context(&self) -> Context<ComponentState<TAG, SPARSE, WRITES>, C> {
        Context {
            state: self.state,
            world: *self.world,
            last_change_tick: self.last_change_tick,
            change_tick: self.change_tick,
        }
    }

    open spec fn place(&self) -> Option<Place> {
        self.place
    }

    proof fn dense_matching(
        state: ComponentState<TAG, SPARSE, WRITES>,
        world: World<C>,
        a: int,
        b: int,
    ) {
        world.same_table_same_components(a, b, state.component);
    }

    proof fn dense_rows(
        context: Context<ComponentState<TAG, SPARSE, WRITES>, C>,
        a: ArchetypeId,
        index: usize,
    ) {
        context.world.same_entity_in_table(a, index);
    }

    fn is_dense() -> (dense: bool) {
        !SPARSE
    }

    fn init(
        world: &'w World<C>,
        state: &ComponentState<TAG, SPARSE, WRITES>,
        last_change_tick: u32,
        change_tick: u32,
    ) -> (fetch: Self) {
        ReadFetch { world, state: *state, last_change_tick, change_tick, place: None }
    }

    fn set_table(&mut self, state: &ComponentState<TAG, SPARSE, WRITES>, table: TableId) {
        self.place = Some(Place::Table(table));
    }

    fn set_archetype(&mut self, state: &ComponentState<TAG, SPARSE, WRITES>, archetype: ArchetypeId) {
        self.place = Some(Place::Archetype(archetype));
    }

    fn table_filter_fetch(&mut self, row: usize) -> (passes: bool) {
        true
    }

    fn archetype_filter_fetch(&mut self, index: usize) -> (passes: bool) {
        true
    }

    fn table_fetch(&mut self, row: usize) -> (item: &'w C) {
        let place = self.place.unwrap();
        proof {
            component_at_slot(self.context(), place, row);
        }
        let entity = self.world.slot_entity(Slot { place, row });
        self.world.read(ComponentCell { entity, component: self.state.component })
    }

    fn archetype_fetch(&mut self, index: usize) -> (item: &'w C) {
        let place = self.place.unwrap();
        proof {
            component_at_slot(self.context(), place, index);
        }
        let entity = self.world.slot_entity(Slot { place, row: index });
        self.world.read(ComponentCell { entity, component: self.state.component })
    }
}

/// Takes one component of each row as a cell, through which the world can be written.
pub struct WriteFetch<'w, C: 'static, const TAG: u64, const SPARSE: bool> {
    pub world: &'w World<C>,
    pub state: ComponentState<TAG, SPARSE, true>,
    pub last_change_tick: u32,
    pub change_tick: u32,
    pub place: Option<Place>,
}

impl<'w, C: 'static, const TAG: u64, const SPARSE: bool> Fetch<'w, C> for WriteFetch<
    'w,
    C,
    TAG,
    SPARSE,
> {
    type State = ComponentState<TAG, SPARSE, true>;

    type Item = ComponentCell;

    open spec fn dense() -> bool {
        !SPARSE
    }

    open spec fn passes(context: Context<ComponentState<TAG, SPARSE, true>, C>, slot: Slot) -> bool {
        true
    }

    open spec fn item(
        context: Context<ComponentState<TAG, SPARSE, true>, C>,
        slot: Slot,
    ) -> ComponentCell {
        ComponentCell {
            entity: context.world.entity_at(slot),
            component: context.state.component,
        }
    }

    open spec fn context(&self) -> Context<ComponentState<TAG, SPARSE, true>, C> {
        Context {
            state: self.state,
            world: *self.world,
            last_change_tick: self.last_change_tick,
            change_tick: self.change_tick,
        }
    }

    open spec fn place(&self) -> Option<Place> {
        self.place
    }

    proof fn dense_matching(
        state: ComponentState<TAG, SPARSE, true>,
        world: World<C>,
        a: int,
        b: int,
    ) {
        world.same_table_same_components(a, b, state.component);
    }

    proof fn dense_rows(
        context: Context<ComponentState<TAG, SPARSE, true>, C>,
        a: ArchetypeId,
        index: usize,
    ) {
        context.world.same_entity_in_table(a, index);
    }

    fn is_dense() -> (dense: bool) {
        !SPARSE
    }

    fn init(
        world: &'w World<C>,
        state: &ComponentState<TAG, SPARSE, true>,
        last_change_tick: u32,
        change_tick: u32,
    ) -> (fetch: Self) {
        WriteFetch { world, state: *state, last_change_tick, change_tick, place: None }
    }

    fn set_table(&mut self, state: &ComponentState<TAG, SPARSE, true>, table: TableId) {
        self.place = Some(Place::Table(table));
    }

    fn set_archetype(&mut self, state: &ComponentState<TAG, SPARSE, true>, archetype: ArchetypeId) {
        self.place = Some(Place::Archetype(archetype));
    }

    fn table_filter_fetch(&mut self, row: usize) -> (passes: bool) {
        true
    }

    fn archetype_filter_fetch(&mut self, index: usize) -> (passes: bool) {
        true
    }

    fn table_fetch(&mut self, row: usize) -> (item: ComponentCell) {
        let entity = self.world.slot_entity(Slot { place: self.place.unwrap(), row });
        ComponentCell { entity, component: self.state.component }
    }

    fn archetype_fetch(&mut self, index: usize) -> (item: ComponentCell) {
        let entity = self.world.slot_entity(Slot { place: self.place.unwrap(), row: index });
        ComponentCell { entity, component: self.state.component }
    }
}

/// The query for the component of a tag, to be read.
pub struct Read<const TAG: u64, const SPARSE: bool>;

impl<C: 'static, const TAG: u64, const SPARSE: bool> WorldQuery<C> for Read<TAG, SPARSE> {
    type State = ComponentState<TAG, SPARSE, false>;

    type Fetch<'w> = ReadFetch<'w, C, TAG, SPARSE, false>;

    type ReadOnlyFetch<'w> = ReadFetch<'w, C, TAG, SPARSE, false>;

    type Edit = ();

    open spec fn reads_as<'w>(world: World<C>, item: &'w C, read: &'w C) -> bool {
        item == read
    }

    open spec fn edited(
        before: World<C>,
        state: ComponentState<TAG, SPARSE, false>,
        slot: Slot,
        edit: (),
        after: World<C>,
    ) -> bool {
        after == before
    }

    proof fn items_agree<'w>(context: Context<ComponentState<TAG, SPARSE, false>, C>, slot: Slot) {
    }

    fn apply<'w>(world: &mut World<C>, state: &ComponentState<TAG, SPARSE, false>, slot: Slot, edit: ()) {
    }

    proof fn read_only_is_as_dense<'w>() {
    }
}

/// The query for the component of a tag, to be written.
pub struct Write<const TAG: u64, const SPARSE: bool>;

impl<C: 'static, const TAG: u64, const SPARSE: bool> WorldQuery<C> for Write<TAG, SPARSE> {
    type State = ComponentState<TAG, SPARSE, true>;

    type Fetch<'w> = WriteFetch<'w, C, TAG, SPARSE>;

    type ReadOnlyFetch<'w> = ReadFetch<'w, C, TAG, SPARSE, true>;

    /// The new value, or none where the value is to stay.
    type Edit = Option<C>;

    open spec fn reads_as<'w>(world: World<C>, item: ComponentCell, read: &'w C) -> bool {
        world.has(item) && *read == world.value(item)
    }

    open spec fn edited(
        before: World<C>,
        state: ComponentState<TAG, SPARSE, true>,
        slot: Slot,
        edit: Option<C>,
        after: World<C>,
    ) -> bool {
        match edit {
            Some(value) => after.written(
                before,
                ComponentCell { entity: before.entity_at(slot), component: state.component },
                value,
            ),
            None => after == before,
        }
    }

    proof fn items_agree<'w>(context: Context<ComponentState<TAG, SPARSE, true>, C>, slot: Slot) {
        component_at_slot(context, slot.place, slot.row);
    }

    fn apply<'w>(
        world: &mut World<C>,
        state: &ComponentState<TAG, SPARSE, true>,
        slot: Slot,
        edit: Option<C>,
    ) {
        if let Some(value) = edit {
            proof {
                component_at_slot(
                    Context { state: *state, world: *world, last_change_tick: 0, change_tick: 0 },
                    slot.place,
                    slot.row,
                );
            }
            let entity = world.slot_entity(slot);
            world.write(ComponentCell { entity, component: state.component }, value);
        }
    }

    proof fn read_only_is_as_dense<'w>() {
    }
}

/// The state of a filter on the presence of one component.
#[derive(Clone, Copy, Debug)]
pub struct PresenceState<const TAG: u64, const SPARSE: bool, const PRESENT: bool> {
    pub component: ComponentId,
}

impl<C: 'static, const TAG: u64, const SPARSE: bool, const PRESENT: bool> FetchState<
    C,
> for PresenceState<TAG, SPARSE, PRESENT> {
    open spec fn ready(&self, world: World<C>) -> bool {
        &&& self.component.0 < world.components@.len()
        &&& world.components@[self.component.0 as int] == (ComponentKey {
            tag: TAG,
            sparse: SPARSE,
        })
    }

    open spec fn matches(&self, components: Set<ComponentId>) -> bool {
        components.contains(self.component) == PRESENT
    }

    open spec fn component_access(&self) -> FilteredAccessView {
        let only = Set::empty().insert(self.component.0);
        if PRESENT {
            FilteredAccessView { with: only, ..FilteredAccessView::empty() }
        } else {
            FilteredAccessView { without: only, ..FilteredAccessView::empty() }
        }
    }

    open spec fn compatible(&self, access: FilteredAccessView) -> bool {
        true
    }

    open spec fn archetype_access(&self, components: Seq<ArchetypeComponent>) -> AccessView {
        AccessView::empty()
    }

    open spec fn registered(components: Seq<ComponentKey>) -> Seq<ComponentKey> {
        push_new(components, ComponentKey { tag: TAG, sparse: SPARSE })
    }

    proof fn ready_alike(a: Self, b: Self, earlier: World<C>, later: World<C>) {
        assert(later.components@[a.component.0 as int] == later.components@[b.component.0 as int]);
    }

    proof fn ready_persists(&self, before: World<C>, after: World<C>) {
    }

    fn init(world: &mut World<C>) -> (state: Self) {
        PresenceState { component: world.init_component(ComponentKey { tag: TAG, sparse: SPARSE }) }
    }

    fn matches_component_set(&self, archetype: &Archetype) -> (matched: bool) {
        archetype.contains(self.component) == PRESENT
    }

    fn update_component_access(&self, access: &mut FilteredAccess, world: &World<C>) {
        assert(world.components.len() <= usize::MAX);
        if PRESENT {
            access.add_with(self.component.0);
        } else {
            access.add_without(self.component.0);
        }
        assert(access@ =~= old(access)@.union(
            <Self as FetchState<C>>::component_access(self),
        ));
    }

    fn update_archetype_component_access(&self, archetype: &Archetype, access: &mut Access) {
        assert(access@ =~= access@.union(AccessView::empty()));
    }
}

/// Lets every row of the matched archetypes through and takes nothing.
pub struct PresenceFetch<
    'w,
    C: 'static,
    const TAG: u64,
    const SPARSE: bool,
    const PRESENT: bool,
> {
    pub world: &'w World<C>,
    pub state: PresenceState<TAG, SPARSE, PRESENT>,
    pub last_change_tick: u32,
    pub change_tick: u32,
    pub place: Option<Place>,
}

impl<
    'w,
    C: 'static,
    const TAG: u64,
    const SPARSE: bool,
    const PRESENT: bool,
> Fetch<'w, C> for PresenceFetch<'w, C, TAG, SPARSE, PRESENT> {
    type State = PresenceState<TAG, SPARSE, PRESENT>;

    type Item = ();

    open spec fn dense() -> bool {
        !SPARSE
    }

    open spec fn passes(
        context: Context<PresenceState<TAG, SPARSE, PRESENT>, C>,
        slot: Slot,
    ) -> bool {
        true
    }

    open spec fn item(context: Context<PresenceState<TAG, SPARSE, PRESENT>, C>, slot: Slot) -> () {
        ()
    }

    open spec fn context(&self) -> Context<PresenceState<TAG, SPARSE, PRESENT>, C> {
        Context {
            state: self.state,
            world: *self.world,
            last_change_tick: self.last_change_tick,
            change_tick: self.change_tick,
        }
    }

    open spec fn place(&self) -> Option<Place> {
        self.place
    }

    proof fn dense_matching(
        state: PresenceState<TAG, SPARSE, PRESENT>,
        world: World<C>,
        a: int,
        b: int,
    ) {
        world.same_table_same_components(a, b, state.component);
    }

    proof fn dense_rows(
        context: Context<PresenceState<TAG, SPARSE, PRESENT>, C>,
        a: ArchetypeId,
        index: usize,
    ) {
    }

    fn is_dense() -> (dense: bool) {
        !SPARSE
    }

    fn init(
        world: &'w World<C>,
        state: &PresenceState<TAG, SPARSE, PRESENT>,
        last_change_tick: u32,
        change_tick: u32,
    ) -> (fetch: Self) {
        PresenceFetch { world, state: *state, last_change_tick, change_tick, place: None }
    }

    fn set_table(&mut self, state: &PresenceState<TAG, SPARSE, PRESENT>, table: TableId) {
        self.place = Some(Place::Table(table));
    }

    fn set_archetype(&mut self, state: &PresenceState<TAG, SPARSE, PRESENT>, archetype: ArchetypeId) {
        self.place = Some(Place::Archetype(archetype));
    }

    fn table_filter_fetch(&mut self, row: usize) -> (passes: bool) {
        true
    }

    fn archetype_filter_fetch(&mut self, index: usize) -> (passes: bool) {
        true
    }

    fn table_fetch(&mut self, row: usize) -> (item: ()) {
        ()
    }

    fn archetype_fetch(&mut self, index: usize) -> (item: ()) {
        ()
    }
}

/// The filter for the archetypes that have the component of a tag.
pub struct With<const TAG: u64, const SPARSE: bool>;

impl<C: 'static, const TAG: u64, const SPARSE: bool> WorldQuery<C> for With<TAG, SPARSE> {
    type State = PresenceState<TAG, SPARSE, true>;

    type Fetch<'w> = PresenceFetch<'w, C, TAG, SPARSE, true>;

    type ReadOnlyFetch<'w> = PresenceFetch<'w, C, TAG, SPARSE, true>;

    type Edit = ();

    open spec fn reads_as<'w>(world: World<C>, item: (), read: ()) -> bool {
        item == read
    }

    open spec fn edited(
        before: World<C>,
        state: PresenceState<TAG, SPARSE, true>,
        slot: Slot,
        edit: (),
        after: World<C>,
    ) -> bool {
        after == before
    }

    proof fn items_agree<'w>(context: Context<PresenceState<TAG, SPARSE, true>, C>, slot: Slot) {
    }

    fn apply<'w>(world: &mut World<C>, state: &PresenceState<TAG, SPARSE, true>, slot: Slot, edit: ()) {
    }

    proof fn read_only_is_as_dense<'w>() {
    }
}

/// The filter for the archetypes that do not have the component of a tag.
pub struct Without<const TAG: u64, const SPARSE: bool>;

impl<C: 'static, const TAG: u64, const SPARSE: bool> WorldQuery<C> for Without<TAG, SPARSE> {
    type State = PresenceState<TAG, SPARSE, false>;

    type Fetch<'w> = PresenceFetch<'w, C, TAG, SPARSE, false>;

    type ReadOnlyFetch<'w> = PresenceFetch<'w, C, TAG, SPARSE, false>;

    type Edit = ();

    open spec fn reads_as<'w>(world: World<C>, item: (), read: ()) -> bool {
        item == read
    }

    open spec fn edited(
        before: World<C>,
        state: PresenceState<TAG, SPARSE, false>,
        slot: Slot,
        edit: (),
        after: World<C>,
    ) -> bool {
        after == before
    }

    proof fn items_agree<'w>(context: Context<PresenceState<TAG, SPARSE, false>, C>, slot: Slot) {
    }

    fn apply<'w>(world: &mut World<C>, state: &PresenceState<TAG, SPARSE, false>, slot: Slot, edit: ()) {
    }

    proof fn read_only_is_as_dense<'w>() {
    }
}

} // verus!
