//! The state of a query: the archetypes and tables it has matched so far.
use vstd::pervasive::runtime_assert;
use vstd::prelude::*;
use fixedbitset::FixedBitSet;
use crate::access::{Access, AccessView, FilteredAccess, FilteredAccessView};
use crate::bits::{empty_bits, ones, tight};
use crate::fetch::{FetchState, WorldQuery};
use crate::ids::{ArchetypeGeneration, ArchetypeId, TableId, WorldId};
use crate::world::{Archetype, ComponentKey, World};

verus! {

/// The archetypes and tables that a query has matched, in the order in which it met them, and what
/// it accesses in them.
#[verifier::ext_equal]
pub struct Matched {
    pub archetypes: Seq<ArchetypeId>,
    pub tables: Seq<TableId>,
    pub access: AccessView,
}

/// A sequence with one more element at its end, unless it has that element already.
pub open spec fn push_new<T>(s: Seq<T>, x: T) -> Seq<T> {
    if s.contains(x) {
        s
    } else {
        s.push(x)
    }
}

/// Both the query and its filter match the archetype.
pub open spec fn both_match<C: 'static, S: FetchState<C>, T: FetchState<C>>(
    fetch_state: S,
    filter_state: T,
    archetype: Archetype,
) -> bool {
    fetch_state.matches(archetype.component_set()) && filter_state.matches(
        archetype.component_set(),
    )
}

impl Matched {
    /// Nothing is matched.
    pub open spec fn empty() -> Matched {
        Matched { archetypes: Seq::empty(), tables: Seq::empty(), access: AccessView::empty() }
    }

    /// What is matched after one more archetype was met.
    pub open spec fn absorb<C: 'static, S: FetchState<C>, T: FetchState<C>>(
        self,
        fetch_state: S,
        filter_state: T,
        archetype: Archetype,
    ) -> Matched {
        if both_match(fetch_state, filter_state, archetype) {
            Matched {
                archetypes: push_new(self.archetypes, archetype.id),
                tables: push_new(self.tables, archetype.table_id),
                access: self.access.union(
                    fetch_state.archetype_access(archetype.components@),
                ).union(filter_state.archetype_access(archetype.components@)),
            }
        } else {
            self
        }
    }

    /// What is matched after the archetypes from `low` up to `high` were met.
    pub open spec fn absorb_range<C: 'static, S: FetchState<C>, T: FetchState<C>>(
        self,
        fetch_state: S,
        filter_state: T,
        archetypes: Seq<Archetype>,
        low: int,
        high: int,
    ) -> Matched
        decreases high - low,
    {
        if high <= low {
            self
        } else {
            self.absorb_range(fetch_state, filter_state, archetypes, low, high - 1).absorb(
                fetch_state,
                filter_state,
                archetypes[high - 1],
            )
        }
    }
}

/// An archetype of the world that both the query and the filter match.
pub open spec fn archetype_fits<C: 'static, S: FetchState<C>, T: FetchState<C>>(
    fetch_state: S,
    filter_state: T,
    world: World<C>,
    archetype: ArchetypeId,
) -> bool {
    &&& archetype.0 < world.archetypes@.len()
    &&& both_match(fetch_state, filter_state, world.archetypes@[archetype.0 as int])
}

impl Matched {
    /// The archetypes are archetypes of the world that fit, and the tables are theirs.
    pub open spec fn fits_in<C: 'static, S: FetchState<C>, T: FetchState<C>>(
        self,
        fetch_state: S,
        filter_state: T,
        world: World<C>,
    ) -> bool {
        &&& forall|i: int|
            0 <= i < self.archetypes.len() ==> archetype_fits(
                fetch_state,
                filter_state,
                world,
                #[trigger] self.archetypes[i],
            )
        &&& forall|i: int|
            0 <= i < self.archetypes.len() ==> self.tables.contains(
                world.archetypes@[(#[trigger] self.archetypes[i]).0 as int].table_id,
            )
        &&& forall|j: int|
            0 <= j < self.tables.len() ==> self.table_owned(world, #[trigger] self.tables[j])
    }

    /// The table is the one of some archetype that is matched.
    pub open spec fn table_owned<C: 'static>(self, world: World<C>, table: TableId) -> bool {
        exists|i: int| #[trigger] self.table_owned_by(world, table, i)
    }

    /// The table is the one of the archetype at `i`.
    pub open spec fn table_owned_by<C: 'static>(
        self,
        world: World<C>,
        table: TableId,
        i: int,
    ) -> bool {
        &&& 0 <= i < self.archetypes.len()
        &&& world.archetypes@[self.archetypes[i].0 as int].table_id == table
    }

    /// Meeting archetypes of a world keeps what is matched in accord with that world.
    pub proof fn absorb_range_fits<C: 'static, S: FetchState<C>, T: FetchState<C>>(
        self,
        fetch_state: S,
        filter_state: T,
        world: World<C>,
        low: int,
        high: int,
    )
        requires
            world.wf(),
            self.fits_in(fetch_state, filter_state, world),
            0 <= low,
            high <= world.archetypes@.len(),
        ensures
            self.absorb_range(fetch_state, filter_state, world.archetypes@, low, high).fits_in(
                fetch_state,
                filter_state,
                world,
            ),
        decreases high - low,
    {
        if low < high {
            self.absorb_range_fits(fetch_state, filter_state, world, low, high - 1);
            let before = self.absorb_range(
                fetch_state,
                filter_state,
                world.archetypes@,
                low,
                high - 1,
            );
            let archetype = world.archetypes@[high - 1];
            let after = before.absorb(fetch_state, filter_state, archetype);
            assert(world.archetype_shape_wf(high - 1));
            if both_match(fetch_state, filter_state, archetype) {
                push_new_contains(before.archetypes, archetype.id);
                push_new_contains(before.tables, archetype.table_id);
                assert forall|j: int| 0 <= j < after.tables.len() implies after.table_owned(
                    world,
                    #[trigger] after.tables[j],
                ) by {
                    let table = after.tables[j];
                    if j < before.tables.len() {
                        assert(before.table_owned(world, before.tables[j]));
                        let i = choose|i: int| #[trigger] before.table_owned_by(world, table, i);
                        assert(after.table_owned_by(world, table, i));
                    } else {
                        let i = choose|i: int|
                            0 <= i < after.archetypes.len() && after.archetypes[i] == archetype.id;
                        assert(after.table_owned_by(world, table, i));
                    }
                }
            }
        }
    }
}

/// What `push_new` gives has the element, and all that was there before, in its place.
pub proof fn push_new_contains<T>(s: Seq<T>, x: T)
    ensures
        push_new(s, x).contains(x),
        forall|y: T| #[trigger] s.contains(y) ==> push_new(s, x).contains(y),
        s.is_prefix_of(push_new(s, x)),
{
    if !s.contains(x) {
        assert(s.push(x)[s.len() as int] == x);
        assert forall|y: T| #[trigger] s.contains(y) implies s.push(x).contains(y) by {
            let i = choose|i: int| 0 <= i < s.len() && s[i] == y;
            assert(s.push(x)[i] == y);
        }
    }
}

/// No query state of this kind conflicts with itself.
pub open spec fn conflict_free<C: 'static, S: FetchState<C>>() -> bool {
    forall|state: S, world: World<C>| #[trigger]
        state.ready(world) ==> state.compatible(FilteredAccessView::empty())
}

/// Provides access to a world according to a query and a filter.
///
/// Keeps the archetypes and tables of its world that the query and the filter match, so that they
/// are looked for only once.
pub struct QueryState<C: 'static, Q: WorldQuery<C>, F: WorldQuery<C> = ()> {
    pub world_id: WorldId,
    pub archetype_generation: ArchetypeGeneration,
    pub matched_tables: FixedBitSet,
    pub matched_archetypes: FixedBitSet,
    pub archetype_component_access: Access,
    pub component_access: FilteredAccess,
    // Both a set and a vector of table ids are kept because iterating the vector is faster.
    pub matched_table_ids: Vec<TableId>,
    // Both a set and a vector of archetype ids are kept because iterating the vector is faster.
    pub matched_archetype_ids: Vec<ArchetypeId>,
    pub fetch_state: Q::State,
    pub filter_state: F::State,
}

impl<C: 'static, Q: WorldQuery<C>, F: WorldQuery<C>> QueryState<C, Q, F> {
    /// What the query has matched.
    pub open spec fn matched(&self) -> Matched {
        Matched {
            archetypes: self.matched_archetype_ids@,
            tables: self.matched_table_ids@,
            access: self.archetype_component_access@,
        }
    }

    /// The sets and the vectors hold the same ids, no vector holds an id twice, and no set is longer
    /// than it must be.
    pub open spec fn wf(&self) -> bool {
        &&& self.matched_archetype_ids@.no_duplicates()
        &&& self.matched_table_ids@.no_duplicates()
        &&& forall|i: usize| #[trigger]
            ones(self.matched_archetypes).contains(i) <==> self.matched_archetype_ids@.contains(
                ArchetypeId(i),
            )
        &&& forall|i: usize| #[trigger]
            ones(self.matched_tables).contains(i) <==> self.matched_table_ids@.contains(TableId(i))
        &&& tight(self.matched_archetypes)
        &&& tight(self.matched_tables)
    }

    /// Everything is the same but what has been matched, and when.
    pub open spec fn same_query(&self, other: QueryState<C, Q, F>) -> bool {
        &&& self.world_id == other.world_id
        &&& self.component_access == other.component_access
        &&& self.fetch_state == other.fetch_state
        &&& self.filter_state == other.filter_state
    }

    /// Both states were made for the world.
    pub open spec fn ready(&self, world: World<C>) -> bool {
        self.fetch_state.ready(world) && self.filter_state.ready(world)
    }

    /// The query was made for this world: what it has matched are archetypes of the world that
    /// fit, and their tables.
    pub open spec fn valid_for(&self, world: World<C>) -> bool {
        &&& self.wf()
        &&& self.world_id == world.id
        &&& self.ready(world)
        &&& self.matched().fits_in(self.fetch_state, self.filter_state, world)
    }

    /// The query has noted what it and its filter access, and has matched just what it should have,
    /// among the archetypes that it has met.
    pub open spec fn tracks(&self, world: World<C>) -> bool {
        &&& self.wf()
        &&& self.world_id == world.id
        &&& self.ready(world)
        &&& self.component_access@ == self.fetch_state.component_access().union(
            self.filter_state.component_access(),
        )
        &&& self.archetype_generation.0 <= world.archetypes@.len()
        &&& self.matched() == Matched::empty().absorb_range(
            self.fetch_state,
            self.filter_state,
            world.archetypes@,
            0,
            self.archetype_generation.0 as int,
        )
    }

    /// This is the query `before` after it has met the archetypes that the world has got since.
    pub open spec fn updated_from(&self, before: QueryState<C, Q, F>, world: World<C>) -> bool {
        &&& self.wf()
        &&& self.same_query(before)
        &&& self.archetype_generation.0 == world.archetypes@.len()
        &&& self.matched() == before.matched().absorb_range(
            before.fetch_state,
            before.filter_state,
            world.archetypes@,
            before.archetype_generation.0 as int,
            world.archetypes@.len() as int,
        )
    }

    /// The registry of components after the query was made, by what it was before.
    pub open spec fn registered(components: Seq<ComponentKey>) -> Seq<ComponentKey> {
        <F::State as FetchState<C>>::registered(<Q::State as FetchState<C>>::registered(components))
    }

    /// Makes a query for a world and matches the archetypes that the world has so far.
    ///
    /// The filter may ask for what the query itself accesses: it is evaluated before anything is
    /// taken from a row, so its access is checked on its own, and then added.
    pub fn new(world: &mut World<C>) -> (state: QueryState<C, Q, F>)
        requires
            old(world).wf(),
            conflict_free::<C, Q::State>(),
            conflict_free::<C, F::State>(),
        ensures
            final(world).wf(),
            final(world).later_than(*old(world)),
            final(world).same_but_components(*old(world)),
            final(world).components@ == Self::registered(old(world).components@),
            state.tracks(*final(world)),
            state.valid_for(*final(world)),
            state.archetype_generation.0 == final(world).archetypes@.len(),
            state.component_access@ == state.fetch_state.component_access().union(
                state.filter_state.component_access(),
            ),
    {
        let fetch_state = <Q::State as FetchState<C>>::init(world);
        let ghost middle = *world;
        let filter_state = <F::State as FetchState<C>>::init(world);
        proof {
            fetch_state.ready_persists(middle, *world);
            world.later_than_transitive(middle, *old(world));
        }

        let mut component_access = FilteredAccess::new();
        fetch_state.update_component_access(&mut component_access, world);

        // A separate access for the filter keeps it from conflicting with the query's own.
        let mut filter_component_access = FilteredAccess::new();
        filter_state.update_component_access(&mut filter_component_access, world);

        component_access.extend(&filter_component_access);
        assert(component_access@ =~= fetch_state.component_access().union(
            filter_state.component_access(),
        ));

        let mut state = QueryState {
            world_id: world.id(),
            archetype_generation: ArchetypeGeneration::initial(),
            matched_table_ids: Vec::new(),
            matched_archetype_ids: Vec::new(),
            fetch_state,
            filter_state,
            component_access,
            matched_tables: empty_bits(),
            matched_archetypes: empty_bits(),
            archetype_component_access: Access::new(),
        };
        assert(state.matched() =~= Matched::empty());
        state.update_archetypes(world);
        state
    }

    /// Makes a query for a world, as [`QueryState::new`] does.
    pub fn from_world(world: &mut World<C>) -> (state: QueryState<C, Q, F>)
        requires
            old(world).wf(),
            conflict_free::<C, Q::State>(),
            conflict_free::<C, F::State>(),
        ensures
            final(world).wf(),
            final(world).later_than(*old(world)),
            final(world).same_but_components(*old(world)),
            final(world).components@ == Self::registered(old(world).components@),
            state.tracks(*final(world)),
            state.valid_for(*final(world)),
            state.archetype_generation.0 == final(world).archetypes@.len(),
            state.component_access@ == state.fetch_state.component_access().union(
                state.filter_state.component_access(),
            ),
    {
        world.query_filtered::<Q, F>()
    }

    /// Tells whether the query was made for this world, by its id.
    pub fn is_for_world(&self, world: &World<C>) -> (made_for: bool)
        ensures
            made_for == (world.id == self.world_id),
    {
        world.id() == self.world_id
    }

    /// Asserts that the query was made for this world: a query can only be used with the world that
    /// it was made for.
    ///
    /// Where that cannot be proved, [`QueryState::is_for_world`] tells beforehand.
    pub fn validate_world(&self, world: &World<C>)
        requires
            world.id == self.world_id,
    {
        runtime_assert(self.is_for_world(world));
    }

    /// Takes note of an archetype: if the query and the filter match it, it and its table are
    /// matched from now on, and the access to its components is recorded.
    pub fn new_archetype(&mut self, archetype: &Archetype)
        requires
            old(self).wf(),
            archetype.wf(),
        ensures
            final(self).wf(),
            final(self).same_query(*old(self)),
            final(self).archetype_generation == old(self).archetype_generation,
            final(self).matched() == old(self).matched().absorb(
                old(self).fetch_state,
                old(self).filter_state,
                *archetype,
            ),
            !both_match(old(self).fetch_state, old(self).filter_state, *archetype)
                ==> *final(self) == *old(self),
    {
        if self.fetch_state.matches_component_set(archetype)
            && self.filter_state.matches_component_set(archetype) {
            self.fetch_state.update_archetype_component_access(
                archetype,
                &mut self.archetype_component_access,
            );
            self.filter_state.update_archetype_component_access(
                archetype,
                &mut self.archetype_component_access,
            );
            let archetype_index = archetype.id().index();
            if !self.matched_archetypes.contains(archetype_index) {
                self.matched_archetypes.grow(archetype_index + 1);
                self.matched_archetypes.set(archetype_index, true);
                self.matched_archetype_ids.push(archetype.id());
                proof {
                    push_keeps_set(
                        old(self).matched_archetype_ids@,
                        archetype.id,
                    );
                }
            }
            let table_index = archetype.table_id().index();
            if !self.matched_tables.contains(table_index) {
                self.matched_tables.grow(table_index + 1);
                self.matched_tables.set(table_index, true);
                self.matched_table_ids.push(archetype.table_id());
                proof {
                    push_keeps_set(old(self).matched_table_ids@, archetype.table_id);
                }
            }
        }
    }

    /// Takes note of the archetypes that the world has got since the last time.
    pub fn update_archetypes(&mut self, world: &World<C>)
        requires
            old(self).wf(),
            world.wf(),
            old(self).world_id == world.id,
        ensures
            final(self).updated_from(*old(self), *world),
            old(self).valid_for(*world) ==> final(self).valid_for(*world),
    {
        proof {
            if self.valid_for(*world) {
                self.matched().absorb_range_fits(
                    self.fetch_state,
                    self.filter_state,
                    *world,
                    self.archetype_generation.0 as int,
                    world.archetypes@.len() as int,
                );
            }
        }
        self.validate_world(world);
        let new_generation = world.archetype_generation();
        let old_generation = self.archetype_generation;
        self.archetype_generation = new_generation;
        let mut archetype_index = old_generation.value();
        while archetype_index < new_generation.value()
            invariant
                self.wf(),
                world.wf(),
                self.same_query(*old(self)),
                self.archetype_generation == new_generation,
                new_generation.0 == world.archetypes@.len(),
                old_generation == old(self).archetype_generation,
                old_generation.0 <= archetype_index,
                archetype_index == old_generation.0 || archetype_index <= new_generation.0,
                self.matched() == old(self).matched().absorb_range(
                    old(self).fetch_state,
                    old(self).filter_state,
                    world.archetypes@,
                    old_generation.0 as int,
                    archetype_index as int,
                ),
            decreases new_generation.0 - archetype_index,
        {
            proof {
                world.archetype_is_wf(archetype_index as int);
            }
            self.new_archetype(&world.archetypes[ArchetypeId::new(archetype_index).index()]);
            archetype_index = archetype_index + 1;
        }
    }
}

/// Adding a new element to a sequence without duplicates adds that element to its set.
proof fn push_keeps_set<T>(s: Seq<T>, x: T)
    requires
        s.no_duplicates(),
        !s.contains(x),
    ensures
        s.push(x).no_duplicates(),
        forall|y: T| #[trigger] s.push(x).contains(y) <==> s.contains(y) || y == x,
{
    assert forall|y: T| s.contains(y) || y == x implies #[trigger] s.push(x).contains(y) by {
        if s.contains(y) {
            let i = choose|i: int| 0 <= i < s.len() && s[i] == y;
            assert(s.push(x)[i] == y);
        } else {
            assert(s.push(x)[s.len() as int] == y);
        }
    }
}

impl<C: 'static> World<C> {
    /// Makes a query without a filter.
    pub fn query<Q: WorldQuery<C>>(&mut self) -> (state: QueryState<C, Q, ()>)
        requires
            old(self).wf(),
            conflict_free::<C, Q::State>(),
        ensures
            final(self).wf(),
            final(self).later_than(*old(self)),
            final(self).same_but_components(*old(self)),
            final(self).components@ == QueryState::<C, Q, ()>::registered(old(self).components@),
            state.tracks(*final(self)),
            state.valid_for(*final(self)),
            state.archetype_generation.0 == final(self).archetypes@.len(),
            state.component_access@ == state.fetch_state.component_access(),
    {
        let state = self.query_filtered::<Q, ()>();
        assert(state.component_access@ =~= state.fetch_state.component_access());
        state
    }

    /// Makes a query with a filter.
    pub fn query_filtered<Q: WorldQuery<C>, F: WorldQuery<C>>(&mut self) -> (state: QueryState<
        C,
        Q,
        F,
    >)
        requires
            old(self).wf(),
            conflict_free::<C, Q::State>(),
            conflict_free::<C, F::State>(),
        ensures
            final(self).wf(),
            final(self).later_than(*old(self)),
            final(self).same_but_components(*old(self)),
            final(self).components@ == QueryState::<C, Q, F>::registered(old(self).components@),
            state.tracks(*final(self)),
            state.valid_for(*final(self)),
            state.archetype_generation.0 == final(self).archetypes@.len(),
            state.component_access@ == state.fetch_state.component_access().union(
                state.filter_state.component_access(),
            ),
    {
        QueryState::<C, Q, F>::new(self)
    }

    /// The archetypes of a world are well formed on their own.
    pub proof fn archetype_is_wf(&self, a: int)
        requires
            self.wf(),
            0 <= a < self.archetypes@.len(),
        ensures
            self.archetypes@[a].wf(),
    {
        assert(self.archetype_shape_wf(a));
        assert(self.archetypes.len() <= usize::MAX);
        assert(self.tables.len() <= usize::MAX);
        let archetype = self.archetypes@[a];
        assert forall|k: int| 0 <= k < archetype.components@.len() implies (
        #[trigger] archetype.components@[k]).archetype_component.0 < usize::MAX by {
            assert(self.entry_wf(archetype.components@[k]));
        }
    }
}

} // verus!
