//! What a query matches of its world, and how that follows the world as it grows.
use vstd::prelude::*;
use crate::fetch::{FetchState, WorldQuery};
use crate::ids::{ArchetypeId, TableId};
use crate::state::{archetype_fits, both_match, push_new_contains, Matched, QueryState};
use crate::world::{Archetype, World};

verus! {

/// The archetypes matched out of the first `high` of a world are the ones that fit, each once and
/// in increasing order.
proof fn absorbed_archetypes<C: 'static, S: FetchState<C>, T: FetchState<C>>(
    fetch_state: S,
    filter_state: T,
    world: World<C>,
    high: int,
)
    requires
        world.wf(),
        0 <= high <= world.archetypes@.len(),
    ensures
        ({
            let ids = Matched::empty().absorb_range(
                fetch_state,
                filter_state,
                world.archetypes@,
                0,
                high,
            ).archetypes;
            &&& forall|i: int| 0 <= i < ids.len() ==> (#[trigger] ids[i]).0 < high
            &&& forall|i: int, j: int|
                0 <= i < j < ids.len() ==> (#[trigger] ids[i]).0 < (#[trigger] ids[j]).0
            &&& forall|id: ArchetypeId| #[trigger]
                ids.contains(id) <==> id.0 < high && both_match(
                    fetch_state,
                    filter_state,
                    world.archetypes@[id.0 as int],
                )
        }),
    decreases high,
{
    if high > 0 {
        absorbed_archetypes(fetch_state, filter_state, world, high - 1);
        let before = Matched::empty().absorb_range(
            fetch_state,
            filter_state,
            world.archetypes@,
            0,
            high - 1,
        ).archetypes;
        let archetype = world.archetypes@[high - 1];
        let after = Matched::empty().absorb_range(
            fetch_state,
            filter_state,
            world.archetypes@,
            0,
            high,
        ).archetypes;
        assert(world.archetype_shape_wf(high - 1));
        if both_match(fetch_state, filter_state, archetype) {
            assert(!before.contains(archetype.id));
            assert(after == before.push(archetype.id));
            assert forall|id: ArchetypeId| #[trigger]
                after.contains(id) <==> id.0 < high && both_match(
                    fetch_state,
                    filter_state,
                    world.archetypes@[id.0 as int],
                ) by {
                if before.contains(id) {
                    let i = choose|i: int| 0 <= i < before.len() && before[i] == id;
                    assert(after[i] == id);
                }
                if id == archetype.id {
                    assert(after[before.len() as int] == id);
                }
                if after.contains(id) {
                    let i = choose|i: int| 0 <= i < after.len() && after[i] == id;
                    if i < before.len() {
                        assert(before[i] == id);
                    }
                }
            }
        }
    }
}

/// Meeting archetypes of the same shape gives the same matches.
proof fn absorb_same_shape<C: 'static, S: FetchState<C>, T: FetchState<C>>(
    matched: Matched,
    fetch_state: S,
    filter_state: T,
    earlier: World<C>,
    later: World<C>,
    low: int,
    high: int,
)
    requires
        later.later_than(earlier),
        0 <= low,
        high <= earlier.archetypes@.len(),
    ensures
        matched.absorb_range(fetch_state, filter_state, later.archetypes@, low, high)
            == matched.absorb_range(fetch_state, filter_state, earlier.archetypes@, low, high),
    decreases high - low,
{
    if low < high {
        absorb_same_shape(matched, fetch_state, filter_state, earlier, later, low, high - 1);
        assert(later.archetypes@[high - 1].same_shape(earlier.archetypes@[high - 1]));
    }
}

/// Meeting some archetypes and then those behind them is meeting all of them.
proof fn absorb_in_two_steps<C: 'static, S: FetchState<C>, T: FetchState<C>>(
    matched: Matched,
    fetch_state: S,
    filter_state: T,
    archetypes: Seq<Archetype>,
    low: int,
    middle: int,
    high: int,
)
    requires
        low <= middle <= high,
    ensures
        matched.absorb_range(fetch_state, filter_state, archetypes, low, middle).absorb_range(
            fetch_state,
            filter_state,
            archetypes,
            middle,
            high,
        ) == matched.absorb_range(fetch_state, filter_state, archetypes, low, high),
    decreases high - middle,
{
    if middle < high {
        absorb_in_two_steps(
            matched,
            fetch_state,
            filter_state,
            archetypes,
            low,
            middle,
            high - 1,
        );
    }
}

/// Meeting archetypes keeps what was matched before, and matches those of them that fit.
proof fn absorb_keeps<C: 'static, S: FetchState<C>, T: FetchState<C>>(
    fetch_state: S,
    filter_state: T,
    world: World<C>,
    matched: Matched,
    low: int,
    high: int,
)
    requires
        world.wf(),
        0 <= low <= high <= world.archetypes@.len(),
    ensures
        ({
            let ids = matched.absorb_range(
                fetch_state,
                filter_state,
                world.archetypes@,
                low,
                high,
            ).archetypes;
            &&& forall|id: ArchetypeId| #[trigger]
                matched.archetypes.contains(id) ==> ids.contains(id)
            &&& forall|id: ArchetypeId|
                low <= id.0 < high && both_match(
                    fetch_state,
                    filter_state,
                    world.archetypes@[id.0 as int],
                ) ==> #[trigger] ids.contains(id)
        }),
    decreases high,
{
    if low < high {
        absorb_keeps(fetch_state, filter_state, world, matched, low, high - 1);
        let before = matched.absorb_range(
            fetch_state,
            filter_state,
            world.archetypes@,
            low,
            high - 1,
        ).archetypes;
        let archetype = world.archetypes@[high - 1];
        assert(world.archetype_shape_wf(high - 1));
        push_new_contains(before, archetype.id);
        let ids = matched.absorb_range(
            fetch_state,
            filter_state,
            world.archetypes@,
            low,
            high,
        ).archetypes;
        assert forall|id: ArchetypeId|
            low <= id.0 < high && both_match(
                fetch_state,
                filter_state,
                world.archetypes@[id.0 as int],
            ) implies #[trigger] ids.contains(id) by {
            if id.0 < high - 1 {
                assert(before.contains(id));
            }
        }
        assert forall|id: ArchetypeId| #[trigger] matched.archetypes.contains(id) implies ids.contains(
            id,
        ) by {
            assert(before.contains(id));
        }
    }
}

impl<C: 'static, Q: WorldQuery<C>, F: WorldQuery<C>> QueryState<C, Q, F> {
    /// The query has met all the archetypes of the world.
    pub open spec fn current(&self, world: World<C>) -> bool {
        self.tracks(world) && self.archetype_generation.0 == world.archetypes@.len()
    }

    /// Of the archetypes that the query has met it has matched all that fit. It may have been told of
    /// others out of turn.
    pub open spec fn covers(&self, world: World<C>) -> bool {
        &&& self.valid_for(world)
        &&& self.archetype_generation.0 <= world.archetypes@.len()
        &&& forall|id: ArchetypeId|
            id.0 < self.archetype_generation.0 && both_match(
                self.fetch_state,
                self.filter_state,
                world.archetypes@[id.0 as int],
            ) ==> #[trigger] self.matched_archetype_ids@.contains(id)
    }

    /// The query has matched all the archetypes of the world that fit.
    pub open spec fn complete(&self, world: World<C>) -> bool {
        self.covers(world) && self.archetype_generation.0 == world.archetypes@.len()
    }

    /// A query that was only ever updated has matched all that fit among what it has met.
    pub proof fn tracking_covers(&self, world: World<C>)
        requires
            world.wf(),
            self.tracks(world),
        ensures
            self.covers(world),
    {
        self.tracking_is_valid(world);
        self.matched_are_the_fitting(world);
    }

    /// What a complete query has matched are the archetypes that fit, and no others.
    pub proof fn complete_matches(&self, world: World<C>)
        requires
            self.complete(world),
        ensures
            forall|id: ArchetypeId| #[trigger]
                self.matched_archetype_ids@.contains(id) <==> archetype_fits(
                    self.fetch_state,
                    self.filter_state,
                    world,
                    id,
                ),
    {
        assert forall|id: ArchetypeId| #[trigger]
            self.matched_archetype_ids@.contains(id) <==> archetype_fits(
                self.fetch_state,
                self.filter_state,
                world,
                id,
            ) by {
            if self.matched_archetype_ids@.contains(id) {
                let i = choose|i: int|
                    0 <= i < self.matched_archetype_ids@.len() && self.matched_archetype_ids@[i]
                        == id;
                assert(self.matched().archetypes[i] == id);
            }
        }
    }

    /// Telling a query of an archetype of its world, in or out of turn, loses nothing.
    ///
    /// This is the query `before` after [`QueryState::new_archetype`].
    pub proof fn telling_keeps_cover(&self, before: QueryState<C, Q, F>, world: World<C>, a: int)
        requires
            world.wf(),
            before.covers(world),
            0 <= a < world.archetypes@.len(),
            self.wf(),
            self.same_query(before),
            self.archetype_generation == before.archetype_generation,
            self.matched() == before.matched().absorb(
                before.fetch_state,
                before.filter_state,
                world.archetypes@[a],
            ),
        ensures
            self.covers(world),
    {
        let matched = before.matched();
        matched.absorb_range_fits(before.fetch_state, before.filter_state, world, a, a + 1);
        assert(matched.absorb_range(before.fetch_state, before.filter_state, world.archetypes@, a, a)
            == matched);
        assert(self.matched() == matched.absorb_range(
            before.fetch_state,
            before.filter_state,
            world.archetypes@,
            a,
            a + 1,
        ));
        absorb_keeps(before.fetch_state, before.filter_state, world, matched, a, a + 1);
        assert forall|id: ArchetypeId|
            id.0 < self.archetype_generation.0 && both_match(
                self.fetch_state,
                self.filter_state,
                world.archetypes@[id.0 as int],
            ) implies #[trigger] self.matched_archetype_ids@.contains(id) by {
            assert(before.matched_archetype_ids@.contains(id));
            assert(matched.archetypes.contains(id));
            assert(self.matched().archetypes.contains(id));
        }
    }

    /// An update makes a query complete.
    pub proof fn update_completes(&self, before: QueryState<C, Q, F>, world: World<C>)
        requires
            world.wf(),
            before.covers(world),
            self.updated_from(before, world),
        ensures
            self.complete(world),
    {
        let low = before.archetype_generation.0 as int;
        let high = world.archetypes@.len() as int;
        before.matched().absorb_range_fits(
            before.fetch_state,
            before.filter_state,
            world,
            low,
            high,
        );
        absorb_keeps(before.fetch_state, before.filter_state, world, before.matched(), low, high);
        assert forall|id: ArchetypeId|
            id.0 < high && both_match(
                self.fetch_state,
                self.filter_state,
                world.archetypes@[id.0 as int],
            ) implies #[trigger] self.matched_archetype_ids@.contains(id) by {
            if id.0 < low {
                assert(before.matched_archetype_ids@.contains(id));
                assert(before.matched().archetypes.contains(id));
            }
            assert(self.matched().archetypes.contains(id));
        }
    }

    /// A query that has matched what it should can be used with its world.
    pub proof fn tracking_is_valid(&self, world: World<C>)
        requires
            world.wf(),
            self.tracks(world),
        ensures
            self.valid_for(world),
    {
        Matched::empty().absorb_range_fits(
            self.fetch_state,
            self.filter_state,
            world,
            0,
            self.archetype_generation.0 as int,
        );
    }

    /// A query stays usable, and what it has matched stays right, while its world grows.
    pub proof fn growth_keeps_query(&self, earlier: World<C>, later: World<C>)
        requires
            later.later_than(earlier),
        ensures
            self.valid_for(earlier) ==> self.valid_for(later),
            self.tracks(earlier) ==> self.tracks(later),
            self.covers(earlier) ==> self.covers(later),
    {
        if self.ready(earlier) {
            self.fetch_state.ready_persists(earlier, later);
            self.filter_state.ready_persists(earlier, later);
        }
        if self.valid_for(earlier) {
            let matched = self.matched();
            assert forall|i: int| 0 <= i < matched.archetypes.len() implies archetype_fits(
                self.fetch_state,
                self.filter_state,
                later,
                #[trigger] matched.archetypes[i],
            ) && matched.tables.contains(
                later.archetypes@[matched.archetypes[i].0 as int].table_id,
            ) by {
                let a = matched.archetypes[i];
                assert(archetype_fits(self.fetch_state, self.filter_state, earlier, a));
                assert(later.archetypes@[a.0 as int].same_shape(earlier.archetypes@[a.0 as int]));
            }
            assert forall|j: int| 0 <= j < matched.tables.len() implies matched.table_owned(
                later,
                #[trigger] matched.tables[j],
            ) by {
                let table = matched.tables[j];
                assert(matched.table_owned(earlier, table));
                let i = choose|i: int| #[trigger] matched.table_owned_by(earlier, table, i);
                let a = matched.archetypes[i];
                assert(archetype_fits(self.fetch_state, self.filter_state, earlier, a));
                assert(later.archetypes@[a.0 as int].same_shape(earlier.archetypes@[a.0 as int]));
                assert(matched.table_owned_by(later, table, i));
            }
        }
        if self.covers(earlier) {
            assert forall|id: ArchetypeId|
                id.0 < self.archetype_generation.0 && both_match(
                    self.fetch_state,
                    self.filter_state,
                    later.archetypes@[id.0 as int],
                ) implies #[trigger] self.matched_archetype_ids@.contains(id) by {
                assert(later.archetypes@[id.0 as int].same_shape(
                    earlier.archetypes@[id.0 as int],
                ));
            }
        }
        if self.tracks(earlier) {
            absorb_same_shape(
                Matched::empty(),
                self.fetch_state,
                self.filter_state,
                earlier,
                later,
                0,
                self.archetype_generation.0 as int,
            );
        }
    }

    /// Updating step by step matches just what a new query would match at once: after an update the
    /// query has met all the archetypes of the world, and matched those that fit.
    pub proof fn update_catches_up(&self, before: QueryState<C, Q, F>, world: World<C>)
        requires
            before.tracks(world),
            self.updated_from(before, world),
        ensures
            self.current(world),
    {
        absorb_in_two_steps(
            Matched::empty(),
            self.fetch_state,
            self.filter_state,
            world.archetypes@,
            0,
            before.archetype_generation.0 as int,
            world.archetypes@.len() as int,
        );
    }

    /// Updating a second time changes nothing.
    pub proof fn update_twice_is_once(&self, before: QueryState<C, Q, F>, world: World<C>)
        requires
            before.archetype_generation.0 == world.archetypes@.len(),
            self.updated_from(before, world),
        ensures
            self.matched() == before.matched(),
            self.same_query(before),
            self.archetype_generation == before.archetype_generation,
    {
    }

    /// Archetype `a` is one that the query has met and that fits, and the query or its filter
    /// accesses `index` there.
    pub open spec fn reads_at(&self, world: World<C>, a: int, index: usize) -> bool {
        &&& 0 <= a < self.archetype_generation.0
        &&& both_match(self.fetch_state, self.filter_state, world.archetypes@[a])
        &&& {
            let components = world.archetypes@[a].components@;
            ||| self.fetch_state.archetype_access(components).reads_and_writes.contains(index)
            ||| self.filter_state.archetype_access(components).reads_and_writes.contains(index)
        }
    }

    /// Archetype `a` is one that the query has met and that fits, and the query or its filter
    /// writes `index` there.
    pub open spec fn writes_at(&self, world: World<C>, a: int, index: usize) -> bool {
        &&& 0 <= a < self.archetype_generation.0
        &&& both_match(self.fetch_state, self.filter_state, world.archetypes@[a])
        &&& {
            let components = world.archetypes@[a].components@;
            ||| self.fetch_state.archetype_access(components).writes.contains(index)
            ||| self.filter_state.archetype_access(components).writes.contains(index)
        }
    }

    proof fn absorbed_access(&self, world: World<C>, high: int, index: usize)
        requires
            0 <= high <= self.archetype_generation.0,
        ensures
            ({
                let access = Matched::empty().absorb_range(
                    self.fetch_state,
                    self.filter_state,
                    world.archetypes@,
                    0,
                    high,
                ).access;
                &&& access.reads_and_writes.contains(index) <==> exists|a: int|
                    a < high && #[trigger] self.reads_at(world, a, index)
                &&& access.writes.contains(index) <==> exists|a: int|
                    a < high && #[trigger] self.writes_at(world, a, index)
            }),
        decreases high,
    {
        if high > 0 {
            self.absorbed_access(world, high - 1, index);
            let before = Matched::empty().absorb_range(
                self.fetch_state,
                self.filter_state,
                world.archetypes@,
                0,
                high - 1,
            ).access;
            let after = Matched::empty().absorb_range(
                self.fetch_state,
                self.filter_state,
                world.archetypes@,
                0,
                high,
            ).access;
            assert(after.reads_and_writes.contains(index) <==> before.reads_and_writes.contains(
                index,
            ) || self.reads_at(world, high - 1, index));
            assert(after.writes.contains(index) <==> before.writes.contains(index)
                || self.writes_at(world, high - 1, index));
        }
    }

    /// The access that a query has noted is what it and its filter access in the archetypes that it
    /// has met and that fit, and nothing else.
    pub proof fn access_is_of_the_fitting(&self, world: World<C>, index: usize)
        requires
            self.tracks(world),
        ensures
            self.archetype_component_access@.reads_and_writes.contains(index) <==> exists|a: int|
                #[trigger] self.reads_at(world, a, index),
            self.archetype_component_access@.writes.contains(index) <==> exists|a: int|
                #[trigger] self.writes_at(world, a, index),
    {
        self.absorbed_access(world, self.archetype_generation.0 as int, index);
    }

    /// What a query has matched: of the archetypes that it has met, those that fit, each once and in
    /// increasing order, and the tables of those, each once.
    pub proof fn matched_are_the_fitting(&self, world: World<C>)
        requires
            world.wf(),
            self.tracks(world),
        ensures
            forall|i: int, j: int|
                0 <= i < j < self.matched_archetype_ids@.len() ==> (
                #[trigger] self.matched_archetype_ids@[i]).0 < (
                #[trigger] self.matched_archetype_ids@[j]).0,
            forall|id: ArchetypeId| #[trigger]
                self.matched_archetype_ids@.contains(id) <==> id.0 < self.archetype_generation.0
                    && both_match(
                    self.fetch_state,
                    self.filter_state,
                    world.archetypes@[id.0 as int],
                ),
            self.matched_table_ids@.no_duplicates(),
            forall|table: TableId| #[trigger]
                self.matched_table_ids@.contains(table) <==> self.matched().table_owned(
                    world,
                    table,
                ),
    {
        absorbed_archetypes(
            self.fetch_state,
            self.filter_state,
            world,
            self.archetype_generation.0 as int,
        );
        self.tracking_is_valid(world);
        assert forall|table: TableId| #[trigger]
            self.matched_table_ids@.contains(table) <==> self.matched().table_owned(
                world,
                table,
            ) by {
            if self.matched_table_ids@.contains(table) {
                let j = choose|j: int|
                    0 <= j < self.matched_table_ids@.len() && self.matched_table_ids@[j] == table;
                assert(self.matched().table_owned(world, self.matched().tables[j]));
            }
            if self.matched().table_owned(world, table) {
                let i = choose|i: int| #[trigger] self.matched().table_owned_by(world, table, i);
                let a = self.matched().archetypes[i];
                assert(self.matched().tables.contains(
                    world.archetypes@[a.0 as int].table_id,
                ));
            }
        }
    }
}

} // verus!
