//! What a query has matched, archetype by archetype.
use vstd::prelude::*;
use crate::bits::{bit_len, ones};
use crate::fetch::{FetchState, WorldQuery};
use crate::ids::{ArchetypeId, TableId};
use crate::state::{both_match, push_new_contains, Matched, QueryState};
use crate::world::{Archetype, ComponentKey, World};

verus! {

/// A query and its filter fit an archetype just when each of them matches its components.
pub proof fn both_must_match<C: 'static, S: FetchState<C>, T: FetchState<C>>(
    fetch_state: S,
    filter_state: T,
    archetype: Archetype,
)
    ensures
        both_match(fetch_state, filter_state, archetype) <==> fetch_state.matches(
            archetype.component_set(),
        ) && filter_state.matches(archetype.component_set()),
{
}

/// Meeting an archetype that fits adds its id and the id of its table at the end, unless they are
/// there already, and what the query and its filter access there. Meeting any other changes nothing.
pub proof fn meeting_one<C: 'static, S: FetchState<C>, T: FetchState<C>>(
    matched: Matched,
    fetch_state: S,
    filter_state: T,
    archetype: Archetype,
    x: usize,
)
    ensures
        ({
            let after = matched.absorb(fetch_state, filter_state, archetype);
            if fetch_state.matches(archetype.component_set()) && filter_state.matches(
                archetype.component_set(),
            ) {
                &&& after.archetypes == if matched.archetypes.contains(archetype.id) {
                    matched.archetypes
                } else {
                    matched.archetypes.push(archetype.id)
                }
                &&& after.tables == if matched.tables.contains(archetype.table_id) {
                    matched.tables
                } else {
                    matched.tables.push(archetype.table_id)
                }
                &&& after.access.reads_and_writes.contains(x)
                    <==> matched.access.reads_and_writes.contains(x)
                    || fetch_state.archetype_access(archetype.components@).reads_and_writes.contains(
                    x,
                ) || filter_state.archetype_access(archetype.components@).reads_and_writes.contains(x)
                &&& after.access.writes.contains(x) <==> matched.access.writes.contains(x)
                    || fetch_state.archetype_access(archetype.components@).writes.contains(x)
                    || filter_state.archetype_access(archetype.components@).writes.contains(x)
            } else {
                after == matched
            }
        }),
{
}

/// Meeting archetypes one after the other: what was matched stays in front, and there come just the
/// ids, the tables and the accesses of those that fit.
pub proof fn meeting_many<C: 'static, S: FetchState<C>, T: FetchState<C>>(
    matched: Matched,
    fetch_state: S,
    filter_state: T,
    archetypes: Seq<Archetype>,
    low: int,
    high: int,
    id: ArchetypeId,
    table: TableId,
    x: usize,
)
    ensures
        ({
            let after = matched.absorb_range(fetch_state, filter_state, archetypes, low, high);
            &&& matched.archetypes.is_prefix_of(after.archetypes)
            &&& matched.tables.is_prefix_of(after.tables)
            &&& after.archetypes.contains(id) <==> matched.archetypes.contains(id) || exists|a: int|
                low <= a < high && (#[trigger] archetypes[a]).id == id && fetch_state.matches(
                    archetypes[a].component_set(),
                ) && filter_state.matches(archetypes[a].component_set())
            &&& after.tables.contains(table) <==> matched.tables.contains(table) || exists|a: int|
                low <= a < high && (#[trigger] archetypes[a]).table_id == table
                    && fetch_state.matches(archetypes[a].component_set()) && filter_state.matches(
                    archetypes[a].component_set(),
                )
            &&& after.access.reads_and_writes.contains(x)
                <==> matched.access.reads_and_writes.contains(x) || exists|a: int|
                low <= a < high && fetch_state.matches((#[trigger] archetypes[a]).component_set())
                    && filter_state.matches(archetypes[a].component_set()) && (
                fetch_state.archetype_access(archetypes[a].components@).reads_and_writes.contains(x)
                    || filter_state.archetype_access(
                    archetypes[a].components@,
                ).reads_and_writes.contains(x))
            &&& after.access.writes.contains(x) <==> matched.access.writes.contains(x)
                || exists|a: int|
                low <= a < high && fetch_state.matches((#[trigger] archetypes[a]).component_set())
                    && filter_state.matches(archetypes[a].component_set()) && (
                fetch_state.archetype_access(archetypes[a].components@).writes.contains(x)
                    || filter_state.archetype_access(archetypes[a].components@).writes.contains(x))
        }),
    decreases high - low,
{
    if low < high {
        meeting_many(
            matched,
            fetch_state,
            filter_state,
            archetypes,
            low,
            high - 1,
            id,
            table,
            x,
        );
        let before = matched.absorb_range(fetch_state, filter_state, archetypes, low, high - 1);
        let last = archetypes[high - 1];
        meeting_one(before, fetch_state, filter_state, last, x);
        push_new_contains(before.archetypes, last.id);
        push_new_contains(before.tables, last.table_id);
        let after = matched.absorb_range(fetch_state, filter_state, archetypes, low, high);
        if after.archetypes.contains(id) && !before.archetypes.contains(id) {
            let i = choose|i: int| 0 <= i < after.archetypes.len() && after.archetypes[i] == id;
            assert(i < before.archetypes.len() ==> before.archetypes[i] == id);
            assert(last.id == id);
        }
        if after.tables.contains(table) && !before.tables.contains(table) {
            let i = choose|i: int| 0 <= i < after.tables.len() && after.tables[i] == table;
            assert(i < before.tables.len() ==> before.tables[i] == table);
            assert(last.table_id == table);
        }
    }
}

impl<C: 'static, Q: WorldQuery<C>, F: WorldQuery<C>> QueryState<C, Q, F> {
    /// Making a query registers what the query itself needs, and then what its filter needs.
    pub proof fn query_registers_before_filter(components: Seq<ComponentKey>)
        ensures
            Self::registered(components) == <F::State as FetchState<C>>::registered(
                <Q::State as FetchState<C>>::registered(components),
            ),
    {
    }

    /// The sets hold just the ids of the vectors and are no longer than these need, and no vector
    /// holds an id twice.
    pub proof fn sets_hold_the_ids(&self, i: usize)
        requires
            self.wf(),
        ensures
            ones(self.matched_archetypes).contains(i) <==> self.matched_archetype_ids@.contains(
                ArchetypeId(i),
            ),
            ones(self.matched_tables).contains(i) <==> self.matched_table_ids@.contains(TableId(i)),
            self.matched_archetype_ids@.no_duplicates(),
            self.matched_table_ids@.no_duplicates(),
            ones(self.matched_archetypes).contains(i) ==> i < bit_len(self.matched_archetypes),
            ones(self.matched_tables).contains(i) ==> i < bit_len(self.matched_tables),
            bit_len(self.matched_archetypes) > 0 ==> self.matched_archetype_ids@.contains(
                ArchetypeId((bit_len(self.matched_archetypes) - 1) as usize),
            ),
            bit_len(self.matched_tables) > 0 ==> self.matched_table_ids@.contains(
                TableId((bit_len(self.matched_tables) - 1) as usize),
            ),
    {
    }

    /// A query that was made for a world and has kept up with it has matched, of the archetypes that
    /// it has met, just those that it and its filter match, and their tables, and accesses just what
    /// the two access.
    pub proof fn tracking_matches_what_fits(
        &self,
        world: World<C>,
        id: ArchetypeId,
        table: TableId,
        x: usize,
    )
        requires
            world.wf(),
            self.tracks(world),
        ensures
            self.world_id == world.id,
            self.archetype_generation.0 <= world.archetypes@.len(),
            self.matched_archetype_ids@.contains(id) <==> id.0 < self.archetype_generation.0
                && self.fetch_state.matches(world.archetypes@[id.0 as int].component_set())
                && self.filter_state.matches(world.archetypes@[id.0 as int].component_set()),
            self.matched_table_ids@.contains(table) <==> exists|a: int|
                0 <= a < self.archetype_generation.0 && (#[trigger] world.archetypes@[a]).table_id
                    == table && self.fetch_state.matches(world.archetypes@[a].component_set())
                    && self.filter_state.matches(world.archetypes@[a].component_set()),
            self.archetype_component_access@.reads_and_writes.contains(x) <==> exists|a: int|
                0 <= a < self.archetype_generation.0 && self.fetch_state.matches(
                    (#[trigger] world.archetypes@[a]).component_set(),
                ) && self.filter_state.matches(world.archetypes@[a].component_set()) && (
                self.fetch_state.archetype_access(
                    world.archetypes@[a].components@,
                ).reads_and_writes.contains(x) || self.filter_state.archetype_access(
                    world.archetypes@[a].components@,
                ).reads_and_writes.contains(x)),
            self.archetype_component_access@.writes.contains(x) <==> exists|a: int|
                0 <= a < self.archetype_generation.0 && self.fetch_state.matches(
                    (#[trigger] world.archetypes@[a]).component_set(),
                ) && self.filter_state.matches(world.archetypes@[a].component_set()) && (
                self.fetch_state.archetype_access(world.archetypes@[a].components@).writes.contains(
                    x,
                ) || self.filter_state.archetype_access(
                    world.archetypes@[a].components@,
                ).writes.contains(x)),
            self.component_access@.access.reads_and_writes.contains(x)
                <==> self.fetch_state.component_access().access.reads_and_writes.contains(x)
                || self.filter_state.component_access().access.reads_and_writes.contains(x),
            self.component_access@.access.writes.contains(x)
                <==> self.fetch_state.component_access().access.writes.contains(x)
                || self.filter_state.component_access().access.writes.contains(x),
            self.component_access@.with.contains(x)
                <==> self.fetch_state.component_access().with.contains(x)
                || self.filter_state.component_access().with.contains(x),
            self.component_access@.without.contains(x)
                <==> self.fetch_state.component_access().without.contains(x)
                || self.filter_state.component_access().without.contains(x),
    {
        let high = self.archetype_generation.0 as int;
        meeting_many(
            Matched::empty(),
            self.fetch_state,
            self.filter_state,
            world.archetypes@,
            0,
            high,
            id,
            table,
            x,
        );
        assert(self.matched().archetypes == self.matched_archetype_ids@);
        assert(self.matched().tables == self.matched_table_ids@);
        if self.matched_archetype_ids@.contains(id) {
            let a = choose|a: int|
                0 <= a < high && (#[trigger] world.archetypes@[a]).id == id
                    && self.fetch_state.matches(world.archetypes@[a].component_set())
                    && self.filter_state.matches(world.archetypes@[a].component_set());
            assert(world.archetype_shape_wf(a));
        }
        if id.0 < high {
            assert(world.archetype_shape_wf(id.0 as int));
            assert(world.archetypes@[id.0 as int].id == id);
        }
    }

    /// An update changes nothing of a query but what it has met and matched: what was matched stays
    /// in front, and there come just those of the archetypes not met before that fit, their tables
    /// and what is accessed there.
    pub proof fn update_adds_what_fits(
        &self,
        before: QueryState<C, Q, F>,
        world: World<C>,
        id: ArchetypeId,
        table: TableId,
        x: usize,
    )
        requires
            world.wf(),
            self.updated_from(before, world),
        ensures
            self.world_id == before.world_id,
            self.component_access == before.component_access,
            self.fetch_state == before.fetch_state,
            self.filter_state == before.filter_state,
            self.archetype_generation.0 == world.archetypes@.len(),
            before.matched_archetype_ids@.is_prefix_of(self.matched_archetype_ids@),
            before.matched_table_ids@.is_prefix_of(self.matched_table_ids@),
            self.matched_archetype_ids@.contains(id) <==> before.matched_archetype_ids@.contains(id)
                || before.archetype_generation.0 <= id.0 < world.archetypes@.len()
                && self.fetch_state.matches(world.archetypes@[id.0 as int].component_set())
                && self.filter_state.matches(world.archetypes@[id.0 as int].component_set()),
            self.matched_table_ids@.contains(table) <==> before.matched_table_ids@.contains(table)
                || exists|a: int|
                before.archetype_generation.0 <= a < world.archetypes@.len() && (
                #[trigger] world.archetypes@[a]).table_id == table && self.fetch_state.matches(
                    world.archetypes@[a].component_set(),
                ) && self.filter_state.matches(world.archetypes@[a].component_set()),
            self.archetype_component_access@.reads_and_writes.contains(x)
                <==> before.archetype_component_access@.reads_and_writes.contains(x)
                || exists|a: int|
                before.archetype_generation.0 <= a < world.archetypes@.len()
                    && self.fetch_state.matches((#[trigger] world.archetypes@[a]).component_set())
                    && self.filter_state.matches(world.archetypes@[a].component_set()) && (
                self.fetch_state.archetype_access(
                    world.archetypes@[a].components@,
                ).reads_and_writes.contains(x) || self.filter_state.archetype_access(
                    world.archetypes@[a].components@,
                ).reads_and_writes.contains(x)),
            self.archetype_component_access@.writes.contains(x)
                <==> before.archetype_component_access@.writes.contains(x) || exists|a: int|
                before.archetype_generation.0 <= a < world.archetypes@.len()
                    && self.fetch_state.matches((#[trigger] world.archetypes@[a]).component_set())
                    && self.filter_state.matches(world.archetypes@[a].component_set()) && (
                self.fetch_state.archetype_access(world.archetypes@[a].components@).writes.contains(
                    x,
                ) || self.filter_state.archetype_access(
                    world.archetypes@[a].components@,
                ).writes.contains(x)),
    {
        let low = before.archetype_generation.0 as int;
        let high = world.archetypes@.len() as int;
        meeting_many(
            before.matched(),
            before.fetch_state,
            before.filter_state,
            world.archetypes@,
            low,
            high,
            id,
            table,
            x,
        );
        assert(self.matched().archetypes == self.matched_archetype_ids@);
        assert(self.matched().tables == self.matched_table_ids@);
        assert(before.matched().archetypes == before.matched_archetype_ids@);
        assert(before.matched().tables == before.matched_table_ids@);
        if self.matched_archetype_ids@.contains(id) && !before.matched_archetype_ids@.contains(id) {
            let a = choose|a: int|
                low <= a < high && (#[trigger] world.archetypes@[a]).id == id
                    && self.fetch_state.matches(world.archetypes@[a].component_set())
                    && self.filter_state.matches(world.archetypes@[a].component_set());
            assert(world.archetype_shape_wf(a));
        }
        if low <= id.0 < high {
            assert(world.archetype_shape_wf(id.0 as int));
            assert(world.archetypes@[id.0 as int].id == id);
        }
    }

    /// Where two tables are matched one before the other, the first archetype of the one that fits
    /// comes before every archetype of the other that does.
    pub proof fn tables_come_as_met(&self, world: World<C>, i: int, j: int) -> (a: int)
        requires
            self.tracks(world),
            0 <= i < j < self.matched_table_ids@.len(),
        ensures
            0 <= a < self.archetype_generation.0,
            world.archetypes@[a].table_id == self.matched_table_ids@[i],
            self.fetch_state.matches(world.archetypes@[a].component_set()),
            self.filter_state.matches(world.archetypes@[a].component_set()),
            forall|b: int|
                0 <= b < self.archetype_generation.0 && (#[trigger] world.archetypes@[b]).table_id
                    == self.matched_table_ids@[j] && self.fetch_state.matches(
                    world.archetypes@[b].component_set(),
                ) && self.filter_state.matches(world.archetypes@[b].component_set()) ==> a < b,
    {
        assert(self.matched().tables == self.matched_table_ids@);
        self.first_owner(world, self.archetype_generation.0 as int, i, j)
    }

    proof fn first_owner(&self, world: World<C>, high: int, i: int, j: int) -> (a: int)
        requires
            0 <= high,
            ({
                let tables = Matched::empty().absorb_range(
                    self.fetch_state,
                    self.filter_state,
                    world.archetypes@,
                    0,
                    high,
                ).tables;
                0 <= i < j < tables.len()
            }),
        ensures
            ({
                let tables = Matched::empty().absorb_range(
                    self.fetch_state,
                    self.filter_state,
                    world.archetypes@,
                    0,
                    high,
                ).tables;
                &&& 0 <= a < high
                &&& world.archetypes@[a].table_id == tables[i]
                &&& self.fetch_state.matches(world.archetypes@[a].component_set())
                &&& self.filter_state.matches(world.archetypes@[a].component_set())
                &&& forall|b: int|
                    0 <= b < high && (#[trigger] world.archetypes@[b]).table_id == tables[j]
                        && self.fetch_state.matches(world.archetypes@[b].component_set())
                        && self.filter_state.matches(world.archetypes@[b].component_set()) ==> a < b
            }),
        decreases high,
    {
        if high == 0 {
            0
        } else {
            let before = Matched::empty().absorb_range(
                self.fetch_state,
                self.filter_state,
                world.archetypes@,
                0,
                high - 1,
            );
            let last = world.archetypes@[high - 1];
            let after = before.absorb(self.fetch_state, self.filter_state, last);
            push_new_contains(before.tables, last.table_id);
            if j < before.tables.len() {
                let a = self.first_owner(world, high - 1, i, j);
                a
            } else {
                // The last archetype brought the later table: no archetype before it was of that.
                let table = before.tables[i];
                meeting_many(
                    Matched::empty(),
                    self.fetch_state,
                    self.filter_state,
                    world.archetypes@,
                    0,
                    high - 1,
                    last.id,
                    table,
                    0,
                );
                meeting_many(
                    Matched::empty(),
                    self.fetch_state,
                    self.filter_state,
                    world.archetypes@,
                    0,
                    high - 1,
                    last.id,
                    last.table_id,
                    0,
                );
                assert(before.tables.contains(table));
                let a = choose|a: int|
                    0 <= a < high - 1 && (#[trigger] world.archetypes@[a]).table_id == table
                        && self.fetch_state.matches(world.archetypes@[a].component_set())
                        && self.filter_state.matches(world.archetypes@[a].component_set());
                a
            }
        }
    }
}

} // verus!
