//! A filter on rows: whether a component was written of late.
use vstd::prelude::*;
use crate::fetch::{Context, Fetch, Place, Slot, WorldQuery};
use crate::ids::{ArchetypeId, TableId};
use crate::queries::{component_at_slot, ComponentState};
use crate::world::{ComponentCell, World};

verus! {

/// What was written at `tick` was written after `last_change_tick`, as seen from `change_tick`.
///
/// Ticks wrap around, so both are taken by their distance from the current one.
pub open spec fn is_newer(tick: u32, last_change_tick: u32, change_tick: u32) -> bool {
    change_tick.wrapping_sub(tick) < change_tick.wrapping_sub(last_change_tick)
}

/// Tells of each row whether one component was written since the last change tick.
pub struct ChangedFetch<'w, C: 'static, const TAG: u64, const SPARSE: bool> {
    pub world: &'w World<C>,
    pub state: ComponentState<TAG, SPARSE, false>,
    pub last_change_tick: u32,
    pub change_tick: u32,
    pub place: Option<Place>,
}

impl<'w, C: 'static, const TAG: u64, const SPARSE: bool> ChangedFetch<'w, C, TAG, SPARSE> {
    /// Whether the component was written, at a row of the place that the fetch is pointed at.
    fn newer_at(&self, row: usize) -> (newer: bool)
        requires
            self.place is Some,
            self.world.wf(),
            self.world.has_slot(Slot { place: self.place->0, row }),
            self.world.has(
                ComponentCell {
                    entity: self.world.entity_at(Slot { place: self.place->0, row }),
                    component: self.state.component,
                },
            ),
        ensures
            newer == <Self as Fetch<'w, C>>::passes(
                <Self as Fetch<'w, C>>::context(self),
                Slot { place: self.place->0, row },
            ),
    {
        let entity = self.world.slot_entity(Slot { place: self.place.unwrap(), row });
        let tick = self.world.read_changed(
            ComponentCell { entity, component: self.state.component },
        );
        self.change_tick.wrapping_sub(tick) < self.change_tick.wrapping_sub(self.last_change_tick)
    }
}

impl<'w, C: 'static, const TAG: u64, const SPARSE: bool> Fetch<'w, C> for ChangedFetch<
    'w,
    C,
    TAG,
    SPARSE,
> {
    type State = ComponentState<TAG, SPARSE, false>;

    type Item = bool;

    open spec fn dense() -> bool {
        !SPARSE
    }

    open spec fn passes(
        context: Context<ComponentState<TAG, SPARSE, false>, C>,
        slot: Slot,
    ) -> bool {
        is_newer(
            context.world.changed_tick(
                ComponentCell {
                    entity: context.world.entity_at(slot),
                    component: context.state.component,
                },
            ),
            context.last_change_tick,
            context.change_tick,
        )
    }

    open spec fn item(context: Context<ComponentState<TAG, SPARSE, false>, C>, slot: Slot) -> bool {
        <Self as Fetch<'w, C>>::passes(context, slot)
    }

    open spec fn context(&self) -> Context<ComponentState<TAG, SPARSE, false>, C> {
        Context {
            state: self.state,
            world: *self.world,
            last_change_tick: self.last_change_tick,
            change_tick: self.change_tick,
        }
    }

    open spec fn place(&self) -> Option<Place> {
        self.place
    }

    proof fn dense_matching(
        state: ComponentState<TAG, SPARSE, false>,
        world: World<C>,
        a: int,
        b: int,
    ) {
        world.same_table_same_components(a, b, state.component);
    }

    proof fn dense_rows(
        context: Context<ComponentState<TAG, SPARSE, false>, C>,
        a: ArchetypeId,
        index: usize,
    ) {
        context.world.same_entity_in_table(a, index);
    }

    fn is_dense() -> (dense: bool) {
        !SPARSE
    }

    fn init(
        world: &'w World<C>,
        state: &ComponentState<TAG, SPARSE, false>,
        last_change_tick: u32,
        change_tick: u32,
    ) -> (fetch: Self) {
        ChangedFetch { world, state: *state, last_change_tick, change_tick, place: None }
    }

    fn set_table(&mut self, state: &ComponentState<TAG, SPARSE, false>, table: TableId) {
        self.place = Some(Place::Table(table));
    }

    fn set_archetype(&mut self, state: &ComponentState<TAG, SPARSE, false>, archetype: ArchetypeId) {
        self.place = Some(Place::Archetype(archetype));
    }

    fn table_filter_fetch(&mut self, row: usize) -> (passes: bool) {
        proof {
            component_at_slot(self.context(), self.place->0, row);
        }
        self.newer_at(row)
    }

    fn archetype_filter_fetch(&mut self, index: usize) -> (passes: bool) {
        proof {
            component_at_slot(self.context(), self.place->0, index);
        }
        self.newer_at(index)
    }

    fn table_fetch(&mut self, row: usize) -> (item: bool) {
        proof {
            component_at_slot(self.context(), self.place->0, row);
        }
        self.newer_at(row)
    }

    fn archetype_fetch(&mut self, index: usize) -> (item: bool) {
        proof {
            component_at_slot(self.context(), self.place->0, index);
        }
        self.newer_at(index)
    }
}

/// The filter for the rows whose component of a tag was written since the last change tick.
pub struct Changed<const TAG: u64, const SPARSE: bool>;

impl<C: 'static, const TAG: u64, const SPARSE: bool> WorldQuery<C> for Changed<TAG, SPARSE> {
    type State = ComponentState<TAG, SPARSE, false>;

    type Fetch<'w> = ChangedFetch<'w, C, TAG, SPARSE>;

    type ReadOnlyFetch<'w> = ChangedFetch<'w, C, TAG, SPARSE>;

    type Edit = ();

    open spec fn reads_as<'w>(world: World<C>, item: bool, read: bool) -> bool {
        item == read
    }

    open spec fn edited(
        before: World<C>,
        state: ComponentState<TAG, SPARSE, false>,
        slot: Slot,
        edit: (),
        after: World<C>,
    ) -> bool {
        after == before
    }

    proof fn items_agree<'w>(context: Context<ComponentState<TAG, SPARSE, false>, C>, slot: Slot) {
    }

    fn apply<'w>(world: &mut World<C>, state: &ComponentState<TAG, SPARSE, false>, slot: Slot, edit: ()) {
    }

    proof fn read_only_is_as_dense<'w>() {
    }
}

} // verus!
