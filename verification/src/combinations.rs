//! Going through the combinations of the results of a query.
use vstd::prelude::*;
use crate::arrays::array_from_vec;
use crate::fetch::{Fetch, Place, Slot, WorldQuery};
use crate::rows::{passing, passing_push, taken};
use crate::state::QueryState;
use crate::world::World;

verus! {

/// A choice of `k` out of `n` positions, in increasing order.
pub open spec fn is_combination(choice: Seq<usize>, n: int, k: int) -> bool {
    &&& choice.len() == k
    &&& forall|i: int| 0 <= i < choice.len() ==> (#[trigger] choice[i]) < n
    &&& forall|i: int, j: int|
        0 <= i < j < choice.len() ==> (#[trigger] choice[i]) < (#[trigger] choice[j])
}

/// At position `d` the sequences differ for the first time, and there the first is smaller.
pub open spec fn less_at(a: Seq<usize>, b: Seq<usize>, d: int) -> bool {
    &&& 0 <= d < a.len()
    &&& d < b.len()
    &&& a[d] < b[d]
    &&& forall|j: int| 0 <= j < d ==> a[j] == b[j]
}

/// The order of sequences by the first position at which they differ.
pub open spec fn lex_less(a: Seq<usize>, b: Seq<usize>) -> bool {
    exists|d: int| less_at(a, b, d)
}

/// Of two different sequences of the same length one comes before the other.
proof fn lex_total(a: Seq<usize>, b: Seq<usize>, d: int)
    requires
        a.len() == b.len(),
        0 <= d <= a.len(),
        forall|j: int| 0 <= j < d ==> a[j] == b[j],
    ensures
        a == b || lex_less(a, b) || lex_less(b, a),
    decreases a.len() - d,
{
    if d == a.len() {
        assert(a =~= b);
    } else if a[d] == b[d] {
        lex_total(a, b, d + 1);
    } else if a[d] < b[d] {
        assert(less_at(a, b, d));
    } else {
        assert(less_at(b, a, d));
    }
}

proof fn lex_asymmetric(a: Seq<usize>, b: Seq<usize>)
    requires
        lex_less(a, b),
    ensures
        !lex_less(b, a),
        a != b,
{
    let d = choose|d: int| less_at(a, b, d);
    if lex_less(b, a) {
        let e = choose|e: int| less_at(b, a, e);
        assert(d < e || e < d || d == e);
    }
}

proof fn lex_transitive(a: Seq<usize>, b: Seq<usize>, c: Seq<usize>)
    requires
        lex_less(a, b),
        lex_less(b, c),
        a.len() == b.len() == c.len(),
    ensures
        lex_less(a, c),
{
    let d = choose|d: int| less_at(a, b, d);
    let e = choose|e: int| less_at(b, c, e);
    if d <= e {
        assert(less_at(a, c, d));
    } else {
        assert(less_at(a, c, e));
    }
}

/// The positions of a combination are spread out by at least one each.
pub proof fn combination_spread(choice: Seq<usize>, n: int, k: int, i: int, j: int)
    requires
        is_combination(choice, n, k),
        0 <= i <= j < k,
    ensures
        choice[j] >= choice[i] + (j - i),
    decreases j - i,
{
    if i < j {
        combination_spread(choice, n, k, i, j - 1);
        assert(choice[j - 1] < choice[j]);
    }
}

/// A position of a combination leaves room for those behind it.
pub proof fn combination_bound(choice: Seq<usize>, n: int, k: int, i: int)
    requires
        is_combination(choice, n, k),
        0 <= i < k,
    ensures
        choice[i] <= n - k + i,
{
    combination_spread(choice, n, k, i, k - 1);
    assert(choice[k - 1] < n);
}

/// Position `i` is the last one that can be moved on; `next` moves it on by one and puts those
/// behind it as close as can be.
pub open spec fn is_successor(
    choice: Seq<usize>,
    next: Seq<usize>,
    n: int,
    k: int,
    i: int,
) -> bool {
    &&& 0 <= i < k
    &&& next.len() == k
    &&& choice[i] < n - k + i
    &&& forall|j: int| i < j < k ==> (#[trigger] choice[j]) == n - k + j
    &&& forall|j: int| 0 <= j < i ==> (#[trigger] next[j]) == choice[j]
    &&& forall|j: int| i <= j < k ==> (#[trigger] next[j]) == choice[i] + 1 + (j - i)
}

/// The successor of a combination is the least one that comes after it.
proof fn successor_is_next(
    choice: Seq<usize>,
    next: Seq<usize>,
    n: int,
    k: int,
    i: int,
    other: Seq<usize>,
)
    requires
        is_combination(choice, n, k),
        is_successor(choice, next, n, k, i),
        is_combination(other, n, k),
    ensures
        is_combination(next, n, k),
        !lex_less(other, next) <==> !lex_less(other, choice) && other != choice,
{
    assert(less_at(choice, next, i));
    assert forall|j: int| 0 <= j < next.len() implies (#[trigger] next[j]) < n by {
        combination_bound(choice, n, k, j);
    }
    assert forall|j: int, l: int| 0 <= j < l < next.len() implies (#[trigger] next[j]) < (
    #[trigger] next[l]) by {
        if j < i {
            assert(choice[j] < choice[i]);
            if l < i {
                assert(choice[j] < choice[l]);
            }
        }
    }
    if lex_less(choice, other) && other != next && !lex_less(next, other) {
        lex_total(next, other, 0);
        assert(lex_less(other, next));
        let d = choose|d: int| less_at(choice, other, d);
        combination_bound(other, n, k, d);
        assert(d <= i);
        if d < i {
            assert(less_at(next, other, d));
        } else {
            let e = choose|e: int| less_at(other, next, e);
            if e < i {
                assert(other[e] == choice[e]);
            } else {
                combination_spread(other, n, k, i, e);
            }
        }
        assert(false);
    }
    if other == next {
        lex_asymmetric(choice, next);
        if lex_less(next, next) {
            lex_asymmetric(next, next);
        }
    }
    if lex_less(next, other) {
        lex_transitive(choice, next, other);
        lex_asymmetric(next, other);
    }
    if lex_less(choice, other) {
        lex_asymmetric(choice, other);
    }
    if lex_less(other, next) {
        lex_asymmetric(other, next);
    }
    lex_total(choice, other, 0);
    if lex_less(other, choice) {
        lex_transitive(other, choice, next);
    }
}

/// Nothing comes after a combination of which no position can be moved on.
proof fn last_is_last(choice: Seq<usize>, n: int, k: int, other: Seq<usize>)
    requires
        is_combination(choice, n, k),
        forall|j: int| 0 <= j < k ==> (#[trigger] choice[j]) == n - k + j,
        is_combination(other, n, k),
        other != choice,
    ensures
        lex_less(other, choice),
{
    lex_total(other, choice, 0);
    if lex_less(choice, other) {
        let d = choose|d: int| less_at(choice, other, d);
        combination_bound(other, n, k, d);
        assert(false);
    }
}

/// Nothing comes before the combination of the first positions.
proof fn first_is_first(choice: Seq<usize>, n: int, k: int, other: Seq<usize>)
    requires
        choice.len() == k,
        forall|j: int| 0 <= j < k ==> (#[trigger] choice[j]) == j,
        is_combination(other, n, k),
    ensures
        !lex_less(other, choice),
{
    if lex_less(other, choice) {
        let d = choose|d: int| less_at(other, choice, d);
        combination_spread(other, n, k, 0, d);
        assert(false);
    }
}

/// All the choices of `k` out of `n` positions.
pub open spec fn combinations(n: int, k: int) -> Set<Seq<usize>> {
    Set::new(|choice: Seq<usize>| is_combination(choice, n, k))
}

/// The combinations of `K` results of a query that have not been taken yet.
pub struct QueryCombinationIter<
    'w,
    's,
    C: 'static,
    Q: WorldQuery<C>,
    F: WorldQuery<C>,
    QF,
    const K: usize,
> {
    pub world: &'w World<C>,
    pub query: &'s QueryState<C, Q, F>,
    pub fetch: QF,
    /// The rows of the query that its filter lets through.
    pub rows: Vec<Slot>,
    /// The next combination, as positions among the rows.
    pub choice: Vec<usize>,
    /// Whether all combinations have been taken.
    pub done: bool,
}

impl<
    'w,
    's,
    C: 'static,
    Q: WorldQuery<C>,
    F: WorldQuery<C>,
    QF: Fetch<'w, C, State = Q::State>,
    const K: usize,
> QueryCombinationIter<'w, 's, C, Q, F, QF, K> {
    pub open spec fn wf(&self) -> bool {
        let context = self.fetch.context();
        &&& self.world.wf()
        &&& self.query.valid_for(*self.world)
        &&& context == self.query.fetch_context(
            *self.world,
            context.last_change_tick,
            context.change_tick,
        )
        &&& forall|i: int|
            0 <= i < self.rows@.len() ==> self.query.row_fits(*self.world, #[trigger] self.rows@[i])
                && (self.rows@[i].place is Table ==> QF::dense())
        &&& !self.done ==> is_combination(self.choice@, self.rows@.len() as int, K as int)
    }

    /// The results that are combined.
    pub open spec fn results(&self) -> Seq<QF::Item> {
        taken::<C, QF>(self.fetch.context(), self.rows@)
    }

    /// The combinations that are left, as positions among the results.
    pub open spec fn remaining(&self) -> Set<Seq<usize>> {
        Set::new(
            |choice: Seq<usize>|
                !self.done && is_combination(choice, self.rows@.len() as int, K as int)
                    && !lex_less(choice, self.choice@),
        )
    }

    /// The results at the next combination.
    fn fetch_choice(&mut self) -> (items: [QF::Item; K])
        requires
            old(self).wf(),
            !old(self).done,
        ensures
            final(self).wf(),
            final(self).world == old(self).world,
            final(self).query == old(self).query,
            final(self).fetch.context() == old(self).fetch.context(),
            final(self).rows == old(self).rows,
            final(self).choice == old(self).choice,
            final(self).done == old(self).done,
            items@ == old(self).choice@.map_values(|i: usize| old(self).results()[i as int]),
    {
        let ghost wanted = self.choice@.map_values(|i: usize| self.results()[i as int]);
        let mut items: Vec<QF::Item> = Vec::new();
        let mut j: usize = 0;
        while j < K
            invariant
                j <= K,
                self.wf(),
                !self.done,
                self.world == old(self).world,
                self.query == old(self).query,
                self.fetch.context() == old(self).fetch.context(),
                self.rows == old(self).rows,
                self.choice == old(self).choice,
                self.done == old(self).done,
                wanted == old(self).choice@.map_values(
                    |i: usize| old(self).results()[i as int],
                ),
                items@ == wanted.take(j as int),
            decreases K - j,
        {
            assert(self.choice@[j as int] < self.rows@.len());
            let slot = self.rows[self.choice[j]];
            assert(self.query.row_fits(*self.world, slot));
            let item = match slot.place {
                Place::Table(table) => {
                    QF::set_table(&mut self.fetch, &self.query.fetch_state, table);
                    self.fetch.table_fetch(slot.row)
                },
                Place::Archetype(archetype) => {
                    QF::set_archetype(&mut self.fetch, &self.query.fetch_state, archetype);
                    self.fetch.archetype_fetch(slot.row)
                },
            };
            items.push(item);
            assert(item == wanted[j as int]);
            assert(wanted.take(j + 1) =~= wanted.take(j as int).push(item));
            j = j + 1;
        }
        assert(wanted.take(K as int) =~= wanted);
        array_from_vec(items).unwrap()
    }

    /// Moves on to the next combination, if there is one.
    fn advance(&mut self)
        requires
            old(self).wf(),
            !old(self).done,
        ensures
            final(self).wf(),
            final(self).world == old(self).world,
            final(self).query == old(self).query,
            final(self).fetch == old(self).fetch,
            final(self).rows == old(self).rows,
            final(self).remaining() == old(self).remaining().remove(old(self).choice@),
    {
        let n = self.rows.len();
        let ghost choice = self.choice@;
        proof {
            if K > 0 {
                combination_bound(choice, n as int, K as int, 0);
            }
        }
        let mut i: usize = K;
        while i > 0
            invariant
                i <= K,
                K > 0 ==> K <= n,
                n == self.rows@.len(),
                *self == *old(self),
                self.wf(),
                !self.done,
                choice == self.choice@,
                forall|j: int| i <= j < K ==> (#[trigger] choice[j]) == n - K + j,
            decreases i,
        {
            let position = i - 1;
            proof {
                combination_bound(choice, n as int, K as int, position as int);
            }
            if self.choice[position] < n - K + position {
                let base = self.choice[position];
                let mut j: usize = position;
                while j < K
                    invariant
                        position <= j <= K <= n,
                        base < n - K + position,
                        base == choice[position as int],
                        self.choice@.len() == K,
                        self.world == old(self).world,
                        self.query == old(self).query,
                        self.fetch == old(self).fetch,
                        self.rows == old(self).rows,
                        self.done == old(self).done,
                        forall|l: int|
                            0 <= l < position ==> (#[trigger] self.choice@[l]) == choice[l],
                        forall|l: int|
                            position <= l < j ==> (#[trigger] self.choice@[l]) == base + 1 + (l
                                - position),
                    decreases K - j,
                {
                    self.choice.set(j, base + 1 + (j - position));
                    j = j + 1;
                }
                proof {
                    assert(is_successor(
                        choice,
                        self.choice@,
                        n as int,
                        K as int,
                        position as int,
                    ));
                    successor_is_next(
                        choice,
                        self.choice@,
                        n as int,
                        K as int,
                        position as int,
                        choice,
                    );
                    assert forall|other: Seq<usize>| #[trigger]
                        self.remaining().contains(other) <==> old(self).remaining().remove(
                            choice,
                        ).contains(other) by {
                        if is_combination(other, n as int, K as int) {
                            successor_is_next(
                                choice,
                                self.choice@,
                                n as int,
                                K as int,
                                position as int,
                                other,
                            );
                        }
                    }
                    assert(self.remaining() =~= old(self).remaining().remove(choice));
                }
                return;
            }
            i = position;
        }
        self.done = true;
        proof {
            assert forall|other: Seq<usize>| !old(self).remaining().remove(choice).contains(
                other,
            ) by {
                if is_combination(other, n as int, K as int) && other != choice {
                    last_is_last(choice, n as int, K as int, other);
                }
            }
            assert(self.remaining() =~= old(self).remaining().remove(choice));
        }
    }

    /// The next combination, in the order of the positions of its results, if there is one left.
    pub fn next(&mut self) -> (items: Option<[QF::Item; K]>)
        requires
            old(self).wf(),
        ensures
            final(self).wf(),
            final(self).world == old(self).world,
            final(self).query == old(self).query,
            final(self).results() == old(self).results(),
            items is None ==> old(self).remaining() == Set::<Seq<usize>>::empty(),
            items is None ==> final(self).remaining() == old(self).remaining(),
            items matches Some(array) ==> exists|choice: Seq<usize>| #[trigger]
                old(self).is_first(choice) && array@ == choice.map_values(
                    |i: usize| old(self).results()[i as int],
                ) && final(self).remaining() == old(self).remaining().remove(choice),
    {
        if self.done {
            assert(self.remaining() =~= Set::empty());
            return None;
        }
        let ghost choice = self.choice@;
        proof {
            if lex_less(choice, choice) {
                lex_asymmetric(choice, choice);
            }
            assert forall|other: Seq<usize>| #[trigger]
                self.remaining().contains(other) && other != choice implies lex_less(
                choice,
                other,
            ) by {
                lex_total(choice, other, 0);
            }
            assert(old(self).is_first(choice));
        }
        let items = self.fetch_choice();
        proof {
            assert(self.remaining() =~= old(self).remaining());
            assert(self.results() == old(self).results());
        }
        self.advance();
        assert(self.results() == old(self).results());
        Some(items)
    }

    /// The first of the combinations that are left.
    pub open spec fn is_first(&self, choice: Seq<usize>) -> bool {
        &&& self.remaining().contains(choice)
        &&& forall|other: Seq<usize>| #[trigger]
            self.remaining().contains(other) && other != choice ==> lex_less(choice, other)
    }
}

impl<C: 'static, Q: WorldQuery<C>, F: WorldQuery<C>> QueryState<C, Q, F> {
    /// The query may be asked about the row.
    pub open spec fn row_fits(&self, world: World<C>, slot: Slot) -> bool {
        self.place_fits(world, slot.place) && world.has_slot(slot)
    }

    /// The rows of the query that its filter lets through, in order.
    fn collect_rows<'w>(
        &self,
        world: &'w World<C>,
        dense: bool,
        last_change_tick: u32,
        change_tick: u32,
    ) -> (rows: Vec<Slot>)
        requires
            world.wf(),
            self.valid_for(*world),
            dense ==> <F::Fetch<'w> as Fetch<'w, C>>::dense(),
        ensures
            rows@ == self.rows(*world, last_change_tick, change_tick, dense),
            forall|i: int|
                0 <= i < rows@.len() ==> self.row_fits(*world, #[trigger] rows@[i]) && (
                rows@[i].place is Table ==> dense),
    {
        let mut filter = <F::Fetch<'w> as Fetch<'w, C>>::init(
            world,
            &self.filter_state,
            last_change_tick,
            change_tick,
        );
        let count = if dense {
            self.matched_table_ids.len()
        } else {
            self.matched_archetype_ids.len()
        };
        let ghost fx = self.filter_context(*world, last_change_tick, change_tick);
        let ghost places = self.places(dense);
        let mut rows: Vec<Slot> = Vec::new();
        let mut i: usize = 0;
        proof {
            reveal(Seq::filter);
            assert(world.slots_in(places.take(0)) =~= Seq::empty());
            assert(rows@ =~= passing::<C, F::Fetch<'w>>(fx, world.slots_in(places.take(0))));
        }
        while i < count
            invariant
                i <= count,
                count == places.len(),
                places == self.places(dense),
                dense ==> <F::Fetch<'w> as Fetch<'w, C>>::dense(),
                world.wf(),
                self.valid_for(*world),
                fx == self.filter_context(*world, last_change_tick, change_tick),
                filter.context() == fx,
                rows@ == passing::<C, F::Fetch<'w>>(fx, world.slots_in(places.take(i as int))),
                forall|j: int|
                    0 <= j < rows@.len() ==> self.row_fits(*world, #[trigger] rows@[j]) && (
                    rows@[j].place is Table ==> dense),
            decreases count - i,
        {
            let place = if dense {
                Place::Table(self.matched_table_ids[i])
            } else {
                Place::Archetype(self.matched_archetype_ids[i])
            };
            proof {
                assert(place == places[i as int]);
                self.places_fit(*world, dense, i as int);
                world.slots_in_next(places, i as int);
            }
            let len = match place {
                Place::Table(table) => {
                    <F::Fetch<'w> as Fetch<'w, C>>::set_table(
                        &mut filter,
                        &self.filter_state,
                        table,
                    );
                    world.tables[table.index()].len()
                },
                Place::Archetype(archetype) => {
                    <F::Fetch<'w> as Fetch<'w, C>>::set_archetype(
                        &mut filter,
                        &self.filter_state,
                        archetype,
                    );
                    world.archetypes[archetype.index()].len()
                },
            };
            let ghost before = world.slots_in(places.take(i as int));
            let ghost slots = world.slots_at(place);
            let mut row: usize = 0;
            assert(before + slots.take(0) =~= before);
            while row < len
                invariant
                    row <= len,
                    len == slots.len(),
                    slots == world.slots_at(place),
                    self.place_fits(*world, place),
                    place is Table ==> dense,
                    dense ==> <F::Fetch<'w> as Fetch<'w, C>>::dense(),
                    world.wf(),
                    self.valid_for(*world),
                    fx == self.filter_context(*world, last_change_tick, change_tick),
                    filter.context() == fx,
                    filter.place() == Some(place),
                    rows@ == passing::<C, F::Fetch<'w>>(fx, before + slots.take(row as int)),
                    forall|j: int|
                        0 <= j < rows@.len() ==> self.row_fits(*world, #[trigger] rows@[j]) && (
                        rows@[j].place is Table ==> dense),
                decreases len - row,
            {
                let slot = Slot { place, row };
                proof {
                    assert(before + slots.take(row + 1) =~= (before + slots.take(row as int)).push(
                        slot,
                    ));
                    passing_push::<C, F::Fetch<'w>>(fx, before + slots.take(row as int), slot);
                }
                let passes = match place {
                    Place::Table(_) => filter.table_filter_fetch(row),
                    Place::Archetype(_) => filter.archetype_filter_fetch(row),
                };
                if passes {
                    rows.push(slot);
                }
                row = row + 1;
            }
            assert(slots.take(len as int) =~= slots);
            i = i + 1;
        }
        assert(places.take(count as int) =~= places);
        rows
    }

    /// Goes through all possible combinations of `K` query results without repetition, where the
    /// last change and the current change tick are given.
    pub fn iter_combinations_unchecked_manual<
        'w,
        's,
        QF: Fetch<'w, C, State = Q::State>,
        const K: usize,
    >(
        &'s self,
        world: &'w World<C>,
        last_change_tick: u32,
        change_tick: u32,
    ) -> (iter: QueryCombinationIter<'w, 's, C, Q, F, QF, K>)
        requires
            world.wf(),
            self.valid_for(*world),
        ensures
            iter.wf(),
            iter.remaining() == combinations(iter.results().len() as int, K as int),
            iter.results() == self.results::<QF>(
                *world,
                last_change_tick,
                change_tick,
                QF::dense() && <F::Fetch<'w> as Fetch<'w, C>>::dense(),
            ),
    {
        let dense = QF::is_dense() && <F::Fetch<'w> as Fetch<'w, C>>::is_dense();
        let rows = self.collect_rows(world, dense, last_change_tick, change_tick);
        let fetch = QF::init(world, &self.fetch_state, last_change_tick, change_tick);
        let mut choice: Vec<usize> = Vec::new();
        let mut i: usize = 0;
        while i < K
            invariant
                i <= K,
                choice@.len() == i,
                forall|j: int| 0 <= j < i ==> (#[trigger] choice@[j]) == j,
            decreases K - i,
        {
            choice.push(i);
            i = i + 1;
        }
        let done = K > rows.len();
        let iter = QueryCombinationIter { world, query: self, fetch, rows, choice, done };
        proof {
            let n = rows@.len() as int;
            assert forall|other: Seq<usize>| #[trigger]
                iter.remaining().contains(other) <==> combinations(n, K as int).contains(other) by {
                if is_combination(other, n, K as int) {
                    first_is_first(choice@, n, K as int, other);
                    if K > 0 {
                        combination_bound(other, n, K as int, 0);
                    }
                }
            }
            assert(iter.remaining() =~= combinations(n, K as int));
        }
        iter
    }

    /// Goes through all possible combinations of `K` query results without repetition.
    ///
    /// For combinations of size `K` of a query with `N` results, there are:
    /// - if `K == N`: one combination, of all query results
    /// - if `K < N`: all possible `K`-sized combinations of query results, without repetition
    /// - if `K > N`: none
    ///
    /// This takes items for reading; see [`QueryState::iter_combinations_mut`] for those that may be
    /// written to.
    pub fn iter_combinations<'w, 's, const K: usize>(&'s mut self, world: &'w World<C>) -> (iter:
        QueryCombinationIter<'w, 's, C, Q, F, Q::ReadOnlyFetch<'w>, K>)
        requires
            world.wf(),
            old(self).valid_for(*world),
        ensures
            final(self).updated_from(*old(self), *world),
            final(self).valid_for(*world),
            iter.wf(),
            iter.remaining() == combinations(iter.results().len() as int, K as int),
            iter.results() == final(self).results::<Q::ReadOnlyFetch<'w>>(
                *world,
                world.last_change_tick,
                world.change_tick,
                Self::dense(),
            ),
    {
        self.update_archetypes(world);
        proof {
            Q::read_only_is_as_dense();
        }
        let last_change_tick = world.last_change_tick();
        let change_tick = world.read_change_tick();
        self.iter_combinations_unchecked_manual::<Q::ReadOnlyFetch<'w>, K>(
            world,
            last_change_tick,
            change_tick,
        )
    }

    /// Goes through all possible combinations of `K` query results without repetition.
    ///
    /// For combinations of size `K` of a query with `N` results, there are:
    /// - if `K == N`: one combination, of all query results
    /// - if `K < N`: all possible `K`-sized combinations of query results, without repetition
    /// - if `K > N`: none
    pub fn iter_combinations_mut<'w, 's, const K: usize>(&'s mut self, world: &'w mut World<C>) -> (iter:
        QueryCombinationIter<'w, 's, C, Q, F, Q::Fetch<'w>, K>)
        requires
            old(world).wf(),
            old(self).valid_for(*old(world)),
        ensures
            *final(world) == *old(world),
            final(self).updated_from(*old(self), *old(world)),
            final(self).valid_for(*old(world)),
            iter.wf(),
            iter.remaining() == combinations(iter.results().len() as int, K as int),
            iter.results() == final(self).results::<Q::Fetch<'w>>(
                *old(world),
                old(world).last_change_tick,
                old(world).change_tick,
                Self::dense(),
            ),
    {
        self.update_archetypes(world);
        let last_change_tick = world.last_change_tick();
        let change_tick = world.read_change_tick();
        self.iter_combinations_unchecked_manual::<Q::Fetch<'w>, K>(
            world,
            last_change_tick,
            change_tick,
        )
    }

    /// Goes through all possible combinations of `K` query results without repetition, without
    /// exclusive access to the world.
    pub fn iter_combinations_unchecked<'w, 's, const K: usize>(&'s mut self, world: &'w World<C>) -> (iter:
        QueryCombinationIter<'w, 's, C, Q, F, Q::Fetch<'w>, K>)
        requires
            world.wf(),
            old(self).valid_for(*world),
        ensures
            final(self).updated_from(*old(self), *world),
            final(self).valid_for(*world),
            iter.wf(),
            iter.remaining() == combinations(iter.results().len() as int, K as int),
            iter.results() == final(self).results::<Q::Fetch<'w>>(
                *world,
                world.last_change_tick,
                world.change_tick,
                Self::dense(),
            ),
    {
        self.update_archetypes(world);
        let last_change_tick = world.last_change_tick();
        let change_tick = world.read_change_tick();
        self.iter_combinations_unchecked_manual::<Q::Fetch<'w>, K>(
            world,
            last_change_tick,
            change_tick,
        )
    }
}

} // verus!
