//! How many combinations of results there are.
use vstd::prelude::*;
use crate::combinations::{
    combination_bound, combination_spread, combinations, is_combination, less_at, lex_less,
    QueryCombinationIter,
};
use crate::fetch::{Fetch, WorldQuery};

verus! {

/// In how many ways `k` of `n` things can be chosen.
pub open spec fn binomial(n: int, k: int) -> nat
    decreases n,
{
    if k == 0 {
        1
    } else if n <= 0 {
        0
    } else {
        binomial(n - 1, k) + binomial(n - 1, k - 1)
    }
}

/// There are just so many combinations as there are ways to choose.
pub proof fn number_of_combinations(n: int, k: int)
    requires
        0 <= n <= usize::MAX,
        0 <= k,
    ensures
        combinations(n, k).finite(),
        combinations(n, k).len() == binomial(n, k),
    decreases n,
{
    if k == 0 {
        let none = Seq::<usize>::empty();
        assert(combinations(n, k) =~= Set::empty().insert(none)) by {
            assert forall|choice: Seq<usize>| #[trigger]
                combinations(n, k).contains(choice) <==> choice == none by {
                if choice.len() == 0 {
                    assert(choice =~= none);
                }
            }
        }
    } else if n == 0 {
        none_of_too_many(n, k);
    } else {
        let top = (n - 1) as usize;
        let without = combinations(n - 1, k);
        let fewer = combinations(n - 1, k - 1);
        let add_top = |choice: Seq<usize>| choice.push(top);
        let with = fewer.map(add_top);
        number_of_combinations(n - 1, k);
        number_of_combinations(n - 1, k - 1);
        assert(vstd::relations::injective(add_top)) by {
            assert forall|a: Seq<usize>, b: Seq<usize>|
                #[trigger] add_top(a) == #[trigger] add_top(b) implies a == b by {
                assert(a =~= a.push(top).drop_last());
                assert(b =~= b.push(top).drop_last());
            }
        }
        vstd::set_lib::lemma_map_size(fewer, with, add_top);
        assert(without.disjoint(with)) by {
            assert forall|choice: Seq<usize>| !(#[trigger] without.contains(choice)
                && with.contains(choice)) by {
                if with.contains(choice) {
                    let rest = choose|rest: Seq<usize>|
                        fewer.contains(rest) && choice == add_top(rest);
                    assert(choice[k - 1] == top);
                }
            }
        }
        assert(combinations(n, k) =~= without.union(with)) by {
            assert forall|choice: Seq<usize>| #[trigger]
                combinations(n, k).contains(choice) <==> without.union(with).contains(choice) by {
                if combinations(n, k).contains(choice) {
                    if choice[k - 1] == top {
                        let rest = choice.drop_last();
                        assert(choice =~= add_top(rest));
                        assert forall|i: int| 0 <= i < rest.len() implies (#[trigger] rest[i])
                            < n - 1 by {
                            assert(choice[i] < choice[k - 1]);
                        }
                        assert(fewer.contains(rest));
                    } else {
                        assert forall|i: int| 0 <= i < choice.len() implies (#[trigger] choice[i])
                            < n - 1 by {
                            assert(choice[k - 1] < n);
                            assert(i < k - 1 ==> choice[i] < choice[k - 1]);
                        }
                    }
                }
                if with.contains(choice) {
                    let rest = choose|rest: Seq<usize>|
                        fewer.contains(rest) && choice == add_top(rest);
                    assert(choice == rest.push(top));
                }
            }
        }
        vstd::set_lib::lemma_set_disjoint_lens(without, with);
    }
}

/// There is no combination of more results than there are.
pub proof fn none_of_too_many(n: int, k: int)
    requires
        0 <= n < k,
    ensures
        combinations(n, k) == Set::<Seq<usize>>::empty(),
{
    assert forall|choice: Seq<usize>| !combinations(n, k).contains(choice) by {
        if is_combination(choice, n, k) {
            combination_spread(choice, n, k, 0, k - 1);
        }
    }
    assert(combinations(n, k) =~= Set::empty());
}

/// There is one combination of all the results.
pub proof fn one_of_all(n: int)
    requires
        0 <= n <= usize::MAX,
    ensures
        combinations(n, n) == Set::empty().insert(Seq::new(n as nat, |i: int| i as usize)),
{
    let all = Seq::new(n as nat, |i: int| i as usize);
    assert forall|choice: Seq<usize>| #[trigger] combinations(n, n).contains(choice) <==> choice
        == all by {
        if is_combination(choice, n, n) {
            assert forall|i: int| 0 <= i < n implies choice[i] == all[i] by {
                combination_spread(choice, n, n, 0, i);
                combination_bound(choice, n, n, i);
            }
            assert(choice =~= all);
        }
    }
    assert(combinations(n, n) =~= Set::empty().insert(all));
}

/// A combination is a choice of as many positions as asked for, each among those of the results and
/// greater than the one before.
pub proof fn combinations_increase(n: int, k: int, choice: Seq<usize>)
    ensures
        combinations(n, k).contains(choice) <==> choice.len() == k && (forall|i: int|
            0 <= i < choice.len() ==> (#[trigger] choice[i]) < n) && (forall|i: int, j: int|
            0 <= i < j < choice.len() ==> (#[trigger] choice[i]) < (#[trigger] choice[j])),
{
}

/// Which of two choices comes first is decided by the first position at which they differ.
pub proof fn first_difference_decides(a: Seq<usize>, b: Seq<usize>)
    ensures
        lex_less(a, b) <==> exists|d: int|
            0 <= d < a.len() && d < b.len() && (#[trigger] a[d]) < b[d] && (forall|j: int|
                0 <= j < d ==> (#[trigger] a[j]) == b[j]),
        !lex_less(a, a),
        a.len() == b.len() && a != b ==> lex_less(a, b) != lex_less(b, a),
{
    if lex_less(a, b) {
        let d = choose|d: int| less_at(a, b, d);
        assert(a[d] < b[d]);
    }
    assert forall|d: int|
        0 <= d < a.len() && d < b.len() && (#[trigger] a[d]) < b[d] && (forall|j: int|
            0 <= j < d ==> (#[trigger] a[j]) == b[j]) implies lex_less(a, b) by {
        assert(less_at(a, b, d));
    }
    if a.len() == b.len() && a != b {
        assert(exists|i: int| 0 <= i < a.len() && a[i] != b[i]) by {
            if forall|i: int| 0 <= i < a.len() ==> a[i] == b[i] {
                assert(a =~= b);
            }
        }
        let i = choose|i: int| 0 <= i < a.len() && a[i] != b[i];
        let d = differ_first(a, b, i);
        if a[d] < b[d] {
            assert(less_at(a, b, d));
        } else {
            assert(less_at(b, a, d));
        }
        if lex_less(a, b) && lex_less(b, a) {
            let x = choose|x: int| less_at(a, b, x);
            let y = choose|y: int| less_at(b, a, y);
            assert(x == y || x < y || y < x);
        }
    }
}

/// The first position at which two sequences differ.
proof fn differ_first(a: Seq<usize>, b: Seq<usize>, i: int) -> (d: int)
    requires
        0 <= i < a.len(),
        a.len() == b.len(),
        a[i] != b[i],
    ensures
        0 <= d <= i,
        a[d] != b[d],
        forall|j: int| 0 <= j < d ==> a[j] == b[j],
    decreases i,
{
    if forall|j: int| 0 <= j < i ==> a[j] == b[j] {
        i
    } else {
        let j = choose|j: int| 0 <= j < i && a[j] != b[j];
        differ_first(a, b, j)
    }
}

impl<
    'w,
    's,
    C: 'static,
    Q: WorldQuery<C>,
    F: WorldQuery<C>,
    QF: Fetch<'w, C, State = Q::State>,
    const K: usize,
> QueryCombinationIter<'w, 's, C, Q, F, QF, K> {
    /// Of the combinations that are left, the first is one of them, and is smaller than each other
    /// one at the first position at which they differ.
    pub proof fn first_left_is_least(&self, choice: Seq<usize>, other: Seq<usize>)
        requires
            self.is_first(choice),
        ensures
            self.remaining().contains(choice),
            self.remaining().contains(other) && other != choice ==> exists|d: int|
                0 <= d < choice.len() && d < other.len() && (#[trigger] choice[d]) < other[d] && (
                forall|j: int| 0 <= j < d ==> (#[trigger] choice[j]) == other[j]),
    {
        first_difference_decides(choice, other);
    }

    /// The results that are combined are what the query takes from the rows, one for each.
    pub proof fn combines_what_rows_give(&self, i: int)
        ensures
            self.results().len() == self.rows@.len(),
            0 <= i < self.rows@.len() ==> self.results()[i] == QF::item(
                self.fetch.context(),
                self.rows@[i],
            ),
    {
    }
}

/// No two combinations consist of the same results.
pub proof fn no_repetition(n: int, k: int, a: Seq<usize>, b: Seq<usize>)
    requires
        combinations(n, k).contains(a),
        combinations(n, k).contains(b),
        forall|x: usize| #[trigger] a.contains(x) <==> b.contains(x),
    ensures
        a == b,
    decreases k,
{
    if k > 0 {
        let x = a[k - 1];
        let y = b[k - 1];
        assert(a.contains(x));
        assert(b.contains(y) && a.contains(y));
        let i = choose|i: int| 0 <= i < b.len() && b[i] == x;
        let j = choose|j: int| 0 <= j < a.len() && a[j] == y;
        assert(x == y);
        let c = a.drop_last();
        let d = b.drop_last();
        assert(is_combination(c, n, k - 1));
        assert(is_combination(d, n, k - 1));
        assert forall|z: usize| #[trigger] c.contains(z) <==> d.contains(z) by {
            if c.contains(z) {
                let l = choose|l: int| 0 <= l < c.len() && c[l] == z;
                assert(a[l] == z);
                assert(a.contains(z));
                let m = choose|m: int| 0 <= m < b.len() && b[m] == z;
                assert(d[m] == z);
            }
            if d.contains(z) {
                let l = choose|l: int| 0 <= l < d.len() && d[l] == z;
                assert(b[l] == z);
                assert(b.contains(z) && a.contains(z));
                let m = choose|m: int| 0 <= m < a.len() && a[m] == z;
                assert(c[m] == z);
            }
        }
        no_repetition(n, k - 1, c, d);
        assert(a =~= c.push(x));
        assert(b =~= d.push(y));
    } else {
        assert(a =~= b);
    }
}

/// Any `k` of the results make up a combination.
pub proof fn all_possible(n: int, k: int, chosen: Set<usize>) -> (choice: Seq<usize>)
    requires
        0 <= n <= usize::MAX,
        chosen.finite(),
        chosen.len() == k,
        forall|x: usize| #[trigger] chosen.contains(x) ==> x < n,
    ensures
        combinations(n, k).contains(choice),
        forall|x: usize| #[trigger] choice.contains(x) <==> chosen.contains(x),
    decreases n,
{
    if n == 0 {
        assert(chosen =~= Set::empty());
        let choice = Seq::<usize>::empty();
        assert(is_combination(choice, n, k));
        choice
    } else {
        let top = (n - 1) as usize;
        if chosen.contains(top) {
            let rest = all_possible(n - 1, k - 1, chosen.remove(top));
            let choice = rest.push(top);
            assert forall|i: int| 0 <= i < rest.len() implies (#[trigger] rest[i]) < top by {
                assert(rest.contains(rest[i]));
            }
            assert(is_combination(choice, n, k));
            assert forall|x: usize| #[trigger] choice.contains(x) <==> chosen.contains(x) by {
                if choice.contains(x) {
                    let i = choose|i: int| 0 <= i < choice.len() && choice[i] == x;
                    if i < rest.len() {
                        assert(rest.contains(rest[i]));
                    }
                }
                if chosen.contains(x) {
                    if x == top {
                        assert(choice[rest.len() as int] == x);
                    } else {
                        assert(rest.contains(x));
                        let i = choose|i: int| 0 <= i < rest.len() && rest[i] == x;
                        assert(choice[i] == x);
                    }
                }
            }
            choice
        } else {
            assert forall|x: usize| #[trigger] chosen.contains(x) implies x < n - 1 by {
                assert(x != top);
            }
            let choice = all_possible(n - 1, k, chosen);
            assert(is_combination(choice, n, k));
            choice
        }
    }
}

} // verus!
