use query_state::changed::Changed;
use query_state::fetch::{Place, WorldQuery};
use query_state::ids::{ArchetypeId, TableId, WorldId};
use query_state::par::Batch;
use query_state::queries::{Read, With, Write};
use query_state::state::QueryState;
use query_state::world::{ComponentCell, ComponentKey, World};

/// A table of ten rows, eight of one archetype and two of another that has the sparse S too.
fn ten_rows() -> World<usize> {
    let mut world: World<usize> = World::new(WorldId(1));
    let a = world.init_component(ComponentKey { tag: 0, sparse: false });
    let s = world.init_component(ComponentKey { tag: 1, sparse: true });
    let table = world.add_table(vec![a]);
    let only_a = world.add_archetype(vec![a], table);
    let with_s = world.add_archetype(vec![a, s], table);
    for i in 0..8 {
        world.spawn(only_a, vec![i]);
    }
    world.spawn(with_s, vec![8, 80]);
    world.spawn(with_s, vec![9, 90]);
    world
}

fn table_batch(offset: usize, len: usize) -> Batch {
    Batch { place: Place::Table(TableId(1)), offset, len }
}

/// How many results each batch has.
fn run_each<Q: WorldQuery<usize>>(
    query: &QueryState<usize, Q, ()>,
    world: &World<usize>,
    batches: &[Batch],
) -> Vec<usize> {
    batches
        .iter()
        .map(|batch| {
            query.run_batch::<Q::Fetch<'_>, _, _>(world, *batch, 0usize, |n, _item| n + 1, 0, 1)
        })
        .collect()
}

#[test]
fn batches_split_the_rows_of_a_table() {
    let mut world = ten_rows();
    let mut query = world.query::<Read<0, false>>();
    assert_eq!(
        query.par_for_each(&world, 4),
        vec![table_batch(0, 4), table_batch(4, 4), table_batch(8, 2)]
    );
    assert_eq!(query.par_for_each(&world, 5), vec![table_batch(0, 5), table_batch(5, 5)]);
    assert_eq!(query.par_for_each(&world, 10), vec![table_batch(0, 10)]);
    assert_eq!(query.par_for_each(&world, usize::MAX), vec![table_batch(0, 10)]);
    assert_eq!(query.par_for_each(&world, 1).len(), 10);
}

#[test]
fn batches_split_the_rows_of_archetypes() {
    let mut world = ten_rows();
    let mut query = world.query_filtered::<Write<0, false>, With<1, true>>();
    let place = Place::Archetype(ArchetypeId(2));
    assert_eq!(
        query.par_for_each_mut(&mut world, 1),
        vec![Batch { place, offset: 0, len: 1 }, Batch { place, offset: 1, len: 1 }]
    );
    assert_eq!(
        query.par_for_each_unchecked(&world, 3),
        vec![Batch { place, offset: 0, len: 2 }]
    );
}

#[test]
fn no_batch_without_rows() {
    let mut world: World<usize> = World::new(WorldId(1));
    let mut query = world.query::<Read<0, false>>();
    assert_eq!(query.par_for_each(&world, 4), vec![]);
    assert_eq!(query.par_for_each(&world, 0), vec![]);
}

#[test]
fn batches_in_turn_are_one_run() {
    let mut world = ten_rows();
    let mut query = world.query::<Read<0, false>>();
    let keep = |mut seen: Vec<usize>, value: &usize| {
        seen.push(*value);
        seen
    };
    let whole = query.for_each(&world, Vec::new(), keep);
    for size in 1..12 {
        let mut pieces = Vec::new();
        for batch in query.par_for_each(&world, size) {
            pieces = query.run_batch::<<Read<0, false> as WorldQuery<usize>>::ReadOnlyFetch<'_>, _, _>(
                &world, batch, pieces, keep, 0, 1,
            );
        }
        assert_eq!(pieces, whole);
    }
}

#[test]
fn batches_that_ask_for_edits() {
    let mut world = ten_rows();
    let mut query = world.query::<Write<0, false>>();
    let mut edits = Vec::new();
    let mut counts = Vec::new();
    for batch in query.par_for_each_mut(&mut world, 4) {
        let (count, asked) = query.run_batch_mut(
            &world,
            batch,
            0,
            |n: usize, _cell: ComponentCell, value: &usize| {
                (n + 1, if *value < 8 { Some(*value + 50) } else { None })
            },
            0,
            1,
        );
        counts.push(count);
        edits.extend(asked);
    }
    assert_eq!(counts, vec![4, 4, 2]);
    assert_eq!(edits.len(), 10);
    world.clear_trackers();
    query.apply_edits(&mut world, edits);
    // What was edited counts as written, and nothing else does.
    let mut changed = world.query_filtered::<Read<0, false>, Changed<0, false>>();
    let count = changed.for_each(&world, 0, |n: usize, _value: &usize| n + 1);
    assert_eq!(count, 8);
    let mut others = world.query_filtered::<Read<1, true>, Changed<1, true>>();
    assert_eq!(others.iter(&world).next(), None);
    let mut reading = world.query::<Read<0, false>>();
    let values = reading.for_each(&world, Vec::new(), |mut seen: Vec<usize>, value: &usize| {
        seen.push(*value);
        seen
    });
    assert_eq!(values, vec![50, 51, 52, 53, 54, 55, 56, 57, 8, 9]);
}

#[test]
fn rowlessness_is_of_what_is_gone_through() {
    let mut world = ten_rows();
    assert!(!world.query::<Read<0, false>>().is_rowless(&world));
    assert!(!world.query::<Read<1, true>>().is_rowless(&world));
    assert!(world.query::<Read<7, false>>().is_rowless(&world));
    // By archetype there may be no row where the shared table has some.
    let a = world.init_component(ComponentKey { tag: 0, sparse: false });
    let t = world.init_component(ComponentKey { tag: 9, sparse: true });
    world.add_archetype(vec![a, t], TableId(1));
    let query = world.query::<Read<9, true>>();
    assert_eq!(query.matched_table_ids, vec![TableId(1)]);
    assert!(query.is_rowless(&world));
}

#[test]
fn each_row_is_in_one_batch() {
    let mut world = ten_rows();
    let mut query = world.query::<Read<0, false>>();
    let batches = query.par_for_each(&world, 3);
    assert_eq!(run_each(&query, &world, &batches), vec![3, 3, 3, 1]);
}

#[test]
fn batches_of_items_to_write_to() {
    let mut world = ten_rows();
    let mut query = world.query::<Write<0, false>>();
    let batches = query.par_for_each_mut(&mut world, 6);
    let cells = query.run_batch::<<Write<0, false> as WorldQuery<usize>>::Fetch<'_>, _, _>(
        &world,
        batches[1],
        Vec::new(),
        |mut seen: Vec<ComponentCell>, cell: ComponentCell| {
            seen.push(cell);
            seen
        },
        0,
        1,
    );
    let whole = query.for_each_mut(&mut world, 0, |n: usize, _cell: ComponentCell, _value: &usize| {
        (n + 1, None)
    });
    assert_eq!(whole, 10);
    assert_eq!(cells.iter().map(|cell| cell.entity.id).collect::<Vec<u32>>(), vec![6, 7, 8, 9]);
}
