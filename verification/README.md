# query_state

Queries over a world of entities, verified with Verus.

An entity belongs to an archetype, which is the set of its components, and has a row in a table,
which several archetypes may share. A `QueryState` keeps the archetypes and tables that a query and
its filter match, takes note of new ones as the world grows, and gives the results.

* `src/world.rs`, `src/populate.rs`: the world, and how it is filled.
* `src/fetch.rs`: the traits that a query and a filter are made of. `src/queries.rs` and
  `src/changed.rs` have the ones that come with the library.
* `src/access.rs`, `src/bits.rs`: what a query reads and writes, in bit sets of `fixedbitset`.
* `src/state.rs`: matching archetypes.
* `src/get.rs`: results of given entities. `src/iter.rs`, `src/for_each.rs`, `src/many.rs`: going
  through results. `src/edit.rs`: runs that change what they go through. `src/par.rs`: batches for
  parallel work. `src/combinations.rs`: combinations of results. `src/rows.rs` says which rows there are and in which order they come.
* `src/laws/`: what holds of queries as a whole.
* `app/`: the same queries with run-time tests in place of preconditions, and threads.

Items that may be written to are cells: they name a component of an entity, and `World::write` takes
them. Functions that run on each result carry a value from one call to the next; those that run under
`for_each_mut` and `many_for_each_mut` also give what is to be changed, and it is changed before the
next row is looked at. Batches that run in parallel give their changes to `apply_edits`.
