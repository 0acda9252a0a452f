//! Queries of the same kind for the same world are alike, however they came to be.
use vstd::prelude::*;
use crate::bits::{bit_len, ones, tight_alike};
use crate::fetch::{FetchState, WorldQuery};
use crate::ids::{ArchetypeId, TableId};
use crate::state::{both_match, Matched, QueryState};
use crate::world::{Archetype, World};

verus! {

impl<C: 'static, Q: WorldQuery<C>, F: WorldQuery<C>> QueryState<C, Q, F> {
    /// The two are for the same world, have met and matched the same, and access the same.
    pub open spec fn alike(&self, other: QueryState<C, Q, F>) -> bool {
        &&& self.world_id == other.world_id
        &&& self.archetype_generation == other.archetype_generation
        &&& self.matched_archetype_ids@ == other.matched_archetype_ids@
        &&& self.matched_table_ids@ == other.matched_table_ids@
        &&& ones(self.matched_archetypes) == ones(other.matched_archetypes)
        &&& bit_len(self.matched_archetypes) == bit_len(other.matched_archetypes)
        &&& ones(self.matched_tables) == ones(other.matched_tables)
        &&& bit_len(self.matched_tables) == bit_len(other.matched_tables)
        &&& self.archetype_component_access@ == other.archetype_component_access@
        &&& self.component_access@ == other.component_access@
        &&& self.matches_alike(other)
    }

    /// The two, and their filters, match the same archetypes and access the same there.
    pub open spec fn matches_alike(&self, other: QueryState<C, Q, F>) -> bool {
        forall|archetype: Archetype|
            {
                &&& both_match(self.fetch_state, self.filter_state, archetype) == #[trigger] both_match(
                    other.fetch_state,
                    other.filter_state,
                    archetype,
                )
                &&& self.fetch_state.archetype_access(archetype.components@)
                    == other.fetch_state.archetype_access(archetype.components@)
                &&& self.filter_state.archetype_access(archetype.components@)
                    == other.filter_state.archetype_access(archetype.components@)
            }
    }

    proof fn absorb_alike(
        &self,
        other: QueryState<C, Q, F>,
        earlier: World<C>,
        later: World<C>,
        high: int,
    )
        requires
            self.matches_alike(other),
            later.later_than(earlier),
            0 <= high <= earlier.archetypes@.len(),
        ensures
            Matched::empty().absorb_range(
                self.fetch_state,
                self.filter_state,
                earlier.archetypes@,
                0,
                high,
            ) == Matched::empty().absorb_range(
                other.fetch_state,
                other.filter_state,
                later.archetypes@,
                0,
                high,
            ),
        decreases high,
    {
        if high > 0 {
            self.absorb_alike(other, earlier, later, high - 1);
            let archetype = earlier.archetypes@[high - 1];
            assert(later.archetypes@[high - 1].same_shape(archetype));
            assert(both_match(other.fetch_state, other.filter_state, archetype) == both_match(
                self.fetch_state,
                self.filter_state,
                archetype,
            ));
        }
    }

    /// Two queries of the same kind that have met all the archetypes of a world are alike. The world
    /// may have got components in between.
    pub proof fn current_are_alike(
        &self,
        other: QueryState<C, Q, F>,
        earlier: World<C>,
        later: World<C>,
    )
        requires
            earlier.wf(),
            later.wf(),
            later.later_than(earlier),
            later.archetypes@.len() == earlier.archetypes@.len(),
            self.current(earlier),
            other.current(later),
        ensures
            self.alike(other),
    {
        <Q::State as FetchState<C>>::ready_alike(
            self.fetch_state,
            other.fetch_state,
            earlier,
            later,
        );
        <F::State as FetchState<C>>::ready_alike(
            self.filter_state,
            other.filter_state,
            earlier,
            later,
        );
        self.absorb_alike(other, earlier, later, earlier.archetypes@.len() as int);
        assert(self.matched() == other.matched());
        assert forall|i: usize| #[trigger]
            ones(self.matched_archetypes).contains(i) <==> ones(
                other.matched_archetypes,
            ).contains(i) by {
            assert(self.matched_archetype_ids@.contains(ArchetypeId(i))
                == other.matched_archetype_ids@.contains(ArchetypeId(i)));
        }
        assert(ones(self.matched_archetypes) =~= ones(other.matched_archetypes));
        tight_alike(self.matched_archetypes, other.matched_archetypes);
        assert forall|i: usize| #[trigger]
            ones(self.matched_tables).contains(i) <==> ones(other.matched_tables).contains(i) by {
            assert(self.matched_table_ids@.contains(TableId(i))
                == other.matched_table_ids@.contains(TableId(i)));
        }
        assert(ones(self.matched_tables) =~= ones(other.matched_tables));
        tight_alike(self.matched_tables, other.matched_tables);
    }

    /// [`QueryState::from_world`] makes what [`QueryState::new`] makes: two queries that were made
    /// from one world are alike.
    ///
    /// `made` and `other_made` are the world `before` after the one and after the other was made.
    pub proof fn made_are_alike(
        &self,
        other: QueryState<C, Q, F>,
        before: World<C>,
        made: World<C>,
        other_made: World<C>,
    )
        requires
            made.wf(),
            made.same_but_components(before),
            made.components@ == Self::registered(before.components@),
            self.current(made),
            other_made.wf(),
            other_made.same_but_components(before),
            other_made.components@ == Self::registered(before.components@),
            other.current(other_made),
        ensures
            self.alike(other),
    {
        assert(other_made.later_than(made));
        self.current_are_alike(other, made, other_made);
    }

    /// Catching up is starting afresh: a query that was made earlier and is now updated is like one
    /// that is made now.
    ///
    /// `earlier` is the world that the query has kept up with `before`, `now` the one it is updated
    /// for, and `after` the one that making the other query has left.
    pub proof fn catching_up_is_starting_afresh(
        &self,
        before: QueryState<C, Q, F>,
        fresh: QueryState<C, Q, F>,
        earlier: World<C>,
        now: World<C>,
        after: World<C>,
    )
        requires
            before.tracks(earlier),
            now.wf(),
            now.later_than(earlier),
            self.updated_from(before, now),
            after.wf(),
            after.later_than(now),
            after.same_but_components(now),
            fresh.current(after),
        ensures
            self.alike(fresh),
    {
        before.growth_keeps_query(earlier, now);
        self.update_catches_up(before, now);
        self.current_are_alike(fresh, now, after);
    }
}

} // verus!
