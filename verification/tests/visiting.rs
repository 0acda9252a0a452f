use query_state::changed::{Changed, ChangedFetch};
use query_state::error::{QueryEntityError, QuerySingleError};
use query_state::fetch::WorldQuery;
use query_state::ids::{ArchetypeId, Entity, WorldId};
use query_state::queries::{Read, With, Without, Write};
use query_state::state::QueryState;
use query_state::world::{ComponentCell, ComponentKey, World};

/// Three archetypes that have A, kept in a table; the second has the sparse S too, and shares the
/// table of the first; the third has B too. Entities are added to them in turn, so that the rows
/// of the shared table alternate.
fn mixed_world() -> (World<usize>, Vec<Entity>) {
    let mut world: World<usize> = World::new(WorldId(1));
    let a = world.init_component(ComponentKey { tag: 0, sparse: false });
    let b = world.init_component(ComponentKey { tag: 1, sparse: false });
    let s = world.init_component(ComponentKey { tag: 2, sparse: true });
    let table_a = world.add_table(vec![a]);
    let table_ab = world.add_table(vec![a, b]);
    let only_a = world.add_archetype(vec![a], table_a);
    let with_s = world.add_archetype(vec![s, a], table_a);
    let with_b = world.add_archetype(vec![a, b], table_ab);
    let entities = vec![
        world.spawn(only_a, vec![10]),
        world.spawn(with_s, vec![101, 11]),
        world.spawn(with_b, vec![12, 102]),
        world.spawn(only_a, vec![13]),
        world.spawn(with_s, vec![104, 14]),
        world.spawn(ArchetypeId(0), vec![]),
    ];
    (world, entities)
}

/// The values of A that a query gives, by `iter`; by `for_each` they come in the same order.
fn values<F: WorldQuery<usize>>(
    query: &mut QueryState<usize, Read<0, false>, F>,
    world: &World<usize>,
) -> Vec<usize> {
    let mut by_iter = Vec::new();
    let mut iter = query.iter(world);
    while let Some(value) = iter.next() {
        by_iter.push(*value);
    }
    assert!(iter.next().is_none());
    let by_for_each = query.for_each(world, Vec::new(), |mut seen: Vec<usize>, value: &usize| {
        seen.push(*value);
        seen
    });
    assert_eq!(by_iter, by_for_each);
    by_iter
}

#[test]
fn dense_queries_go_by_table() {
    let (mut world, _) = mixed_world();
    let mut query = world.query::<Read<0, false>>();
    assert_eq!(values(&mut query, &world), vec![10, 11, 13, 14, 12]);
}

#[test]
fn sparse_filters_go_by_archetype() {
    let (mut world, _) = mixed_world();
    let mut with = world.query_filtered::<Read<0, false>, With<2, true>>();
    assert_eq!(values(&mut with, &world), vec![11, 14]);
    let mut without = world.query_filtered::<Read<0, false>, Without<2, true>>();
    assert_eq!(values(&mut without, &world), vec![10, 13, 12]);
}

#[test]
fn for_each_mut_changes_the_world_as_it_goes() {
    let (mut world, entities) = mixed_world();
    let mut query = world.query::<Write<0, false>>();
    // Each is told its old value; odd ones are left alone.
    let seen = query.for_each_mut(
        &mut world,
        Vec::new(),
        |mut seen: Vec<usize>, _cell: ComponentCell, value: &usize| {
            seen.push(*value);
            (seen, if *value % 2 == 0 { Some(*value + 100) } else { None })
        },
    );
    assert_eq!(seen, vec![10, 11, 13, 14, 12]);
    let mut reading = world.query::<Read<0, false>>();
    assert_eq!(values(&mut reading, &world), vec![110, 11, 13, 114, 112]);
    let mut others = world.query::<Read<2, true>>();
    assert_eq!(others.get(&world, entities[4]), Ok(&104));
}

#[test]
fn only_what_is_edited_counts_as_changed() {
    let (mut world, entities) = mixed_world();
    world.clear_trackers();
    let mut query = world.query::<Write<0, false>>();
    let keep = entities[3];
    query.for_each_mut(&mut world, (), |(), cell: ComponentCell, value: &usize| {
        ((), if cell.entity == keep { None } else { Some(*value) })
    });
    let mut changed = world.query_filtered::<Read<0, false>, Changed<0, false>>();
    assert_eq!(values(&mut changed, &world), vec![10, 11, 14, 12]);
    // A filter decides which rows are edited at all.
    world.clear_trackers();
    touch(&mut world, entities[1], 21);
    let mut filtered = world.query_filtered::<Write<0, false>, Changed<0, false>>();
    let visited = filtered.for_each_mut(&mut world, 0, |n: usize, _cell: ComponentCell, value: &usize| {
        (n + 1, Some(*value + 1))
    });
    assert_eq!(visited, 1);
    assert_eq!(query.get(&world, entities[1]), Ok(&22));
    assert_eq!(query.get(&world, entities[0]), Ok(&10));
}

#[test]
fn a_list_finds_its_own_edits() {
    let (mut world, entities) = mixed_world();
    let mut query = world.query::<Write<0, false>>();
    let list = vec![entities[4], entities[5], Entity::from_raw(70), entities[0], entities[4]];
    let seen = query.many_for_each_mut(
        &mut world,
        &list,
        Vec::new(),
        |mut seen: Vec<usize>, _cell: ComponentCell, value: &usize| {
            seen.push(*value);
            (seen, Some(*value * 2))
        },
    );
    assert_eq!(seen, vec![14, 10, 28]);
    assert_eq!(query.get(&world, entities[4]), Ok(&56));
    assert_eq!(query.get(&world, entities[0]), Ok(&20));
    assert_eq!(query.get(&world, entities[1]), Ok(&11));
}

#[test]
fn results_to_write_to_are_those_to_read() {
    let (mut world, entities) = mixed_world();
    let mut query = world.query::<Write<0, false>>();
    for entity in entities {
        let read = query.get(&world, entity).map(|value| *value);
        let item = query.get_mut(&mut world, entity);
        assert_eq!(item.map(|cell| *world.read(cell)), read);
    }
}

#[test]
fn sparse_queries_go_by_archetype() {
    let (mut world, entities) = mixed_world();
    let mut query = world.query::<Read<2, true>>();
    let mut iter = query.iter(&world);
    assert_eq!(iter.next(), Some(&101));
    assert_eq!(iter.next(), Some(&104));
    assert_eq!(iter.next(), None);
    assert_eq!(query.get(&world, entities[4]), Ok(&104));
}

#[test]
fn every_entity_is_visited_once() {
    let (mut world, entities) = mixed_world();
    let mut query = world.query::<Entity>();
    let mut seen = query.for_each(&world, Vec::new(), |mut seen: Vec<Entity>, entity: Entity| {
        seen.push(entity);
        seen
    });
    seen.sort_by_key(|entity| entity.id);
    assert_eq!(seen, entities);
    // What is visited is what is found.
    for entity in entities {
        assert_eq!(query.get(&world, entity), Ok(entity));
    }
}

#[test]
fn iter_manual_does_not_look_for_new_archetypes() {
    let mut world: World<usize> = World::new(WorldId(1));
    let mut query = world.query::<Read<0, false>>();
    let a = world.init_component(ComponentKey { tag: 0, sparse: false });
    let table = world.add_table(vec![a]);
    let archetype = world.add_archetype(vec![a], table);
    world.spawn(archetype, vec![5]);
    assert_eq!(query.iter_manual(&world).next(), None);
    assert_eq!(query.iter(&world).next(), Some(&5));
    assert_eq!(query.iter_manual(&world).next(), Some(&5));
}

#[test]
fn items_to_write_to_reach_the_world() {
    let (mut world, entities) = mixed_world();
    let mut query = world.query::<Write<0, false>>();
    let mut cells: Vec<ComponentCell> = Vec::new();
    let mut iter = query.iter_mut(&mut world);
    while let Some(cell) = iter.next() {
        cells.push(cell);
    }
    assert_eq!(cells.len(), 5);
    for cell in cells {
        let doubled = *world.read(cell) * 2;
        world.write(cell, doubled);
    }
    assert_eq!(query.get(&world, entities[0]), Ok(&20));
    assert_eq!(query.get(&world, entities[4]), Ok(&28));
    // The other components are as they were.
    let mut others = world.query::<Read<2, true>>();
    assert_eq!(others.get(&world, entities[4]), Ok(&104));

    let count = query.for_each_unchecked(&world, 0usize, |n: usize, _cell: ComponentCell| n + 1);
    assert_eq!(count, 5);
    assert_eq!(query.iter_unchecked(&world).next().unwrap().entity, entities[0]);
}

/// Writes A of an entity.
fn touch(world: &mut World<usize>, entity: Entity, value: usize) {
    let mut query = world.query::<Write<0, false>>();
    let cell = query.get_mut(world, entity).unwrap();
    world.write(cell, value);
}

#[test]
fn row_filters_go_by_what_was_written() {
    let (mut world, entities) = mixed_world();
    let mut query = world.query_filtered::<Read<0, false>, Changed<0, false>>();
    // What was just added counts as written.
    assert_eq!(values(&mut query, &world), vec![10, 11, 13, 14, 12]);

    world.clear_trackers();
    assert_eq!(values(&mut query, &world), vec![]);
    assert!(query.is_empty(&world, world.last_change_tick(), world.read_change_tick()));
    assert!(matches!(query.get_single(&world, "changed"), Err(QuerySingleError::NoEntities(_))));

    touch(&mut world, entities[3], 33);
    assert_eq!(values(&mut query, &world), vec![33]);
    assert!(!query.is_empty(&world, world.last_change_tick(), world.read_change_tick()));
    assert_eq!(query.get(&world, entities[3]), Ok(&33));
    assert_eq!(
        query.get(&world, entities[0]),
        Err(QueryEntityError::QueryDoesNotMatch(entities[0]))
    );
    assert_eq!(query.single(&world), &33);

    touch(&mut world, entities[2], 22);
    assert_eq!(values(&mut query, &world), vec![33, 22]);
    world.clear_trackers();
    assert_eq!(values(&mut query, &world), vec![]);
}

#[test]
fn row_filters_see_the_given_ticks() {
    let (mut world, entities) = mixed_world();
    // All were written at tick 1, then one at tick 2 and one at tick 3.
    world.clear_trackers();
    touch(&mut world, entities[1], 21);
    world.clear_trackers();
    touch(&mut world, entities[4], 24);
    let query = world.query_filtered::<Read<0, false>, Changed<0, false>>();
    let since = |last_change_tick: u32, change_tick: u32| {
        query.for_each_unchecked_manual::<<Read<0, false> as WorldQuery<usize>>::Fetch<'_>, _, _>(
            &world,
            Vec::new(),
            |mut seen: Vec<usize>, value: &usize| {
                seen.push(*value);
                seen
            },
            last_change_tick,
            change_tick,
        )
    };
    assert_eq!(since(0, 3), vec![10, 21, 13, 24, 12]);
    assert_eq!(since(1, 3), vec![21, 24]);
    assert_eq!(since(2, 3), vec![24]);
    assert_eq!(since(3, 3), vec![]);
    // Ticks wrap around.
    assert_eq!(since(u32::MAX, 3), vec![10, 21, 13, 24, 12]);
    assert!(query.is_empty(&world, 3, 3));
    assert!(!query.is_empty(&world, 2, 3));
}

#[test]
fn changes_can_be_asked_for_as_items() {
    let (mut world, entities) = mixed_world();
    world.clear_trackers();
    touch(&mut world, entities[2], 22);
    let mut query = world.query::<Changed<0, false>>();
    assert_eq!(query.get(&world, entities[2]), Ok(true));
    assert_eq!(query.get(&world, entities[1]), Ok(false));
    // The same by table as by archetype.
    let mut iter = query.iter_unchecked_manual::<ChangedFetch<'_, usize, 0, false>>(&world, 1, 2);
    let mut seen = Vec::new();
    while let Some(changed) = iter.next() {
        seen.push(changed);
    }
    assert_eq!(seen, vec![false, false, false, false, true]);
}

#[test]
fn emptiness_is_of_results() {
    let (mut world, _) = mixed_world();
    let some = world.query::<Read<0, false>>();
    assert!(!some.is_empty(&world, 0, 1));
    let none = world.query::<Read<9, false>>();
    assert!(none.is_empty(&world, 0, 1));
    // An archetype that matches but has no entity gives no result.
    let mut bare: World<usize> = World::new(WorldId(2));
    let all = bare.query::<Entity>();
    assert!(all.is_empty(&bare, 0, 1));
    bare.spawn(ArchetypeId(0), vec![]);
    assert!(!all.is_empty(&bare, 0, 1));
}

#[test]
fn single_results() {
    let (mut world, _) = mixed_world();
    let mut one = world.query_filtered::<Write<0, false>, With<1, false>>();
    assert!(matches!(one.get_single(&world, "one"), Ok(&12)));
    assert_eq!(one.single(&world), &12);
    let cell = one.single_mut(&mut world);
    world.write(cell, 13);
    assert!(matches!(one.get_single(&world, "one"), Ok(&13)));
    assert!(one.get_single_mut(&mut world, "one").is_ok());
    assert!(one.get_single_unchecked(&world, "one").is_ok());

    let mut none = world.query::<Read<9, false>>();
    assert!(matches!(none.get_single(&world, "none"), Err(QuerySingleError::NoEntities("none"))));

    let mut two = world.query::<Read<2, true>>();
    assert!(matches!(
        two.get_single_mut(&mut world, "two"),
        Err(QuerySingleError::MultipleEntities("two"))
    ));
}

#[test]
fn single_errors_have_messages() {
    assert_eq!(QuerySingleError::NoEntities("Q").to_string(), "No entities fit the query Q");
    assert_eq!(
        QuerySingleError::MultipleEntities("Q").to_string(),
        "Multiple entities fit the query Q!"
    );
}

#[test]
fn lists_of_entities() {
    let (mut world, entities) = mixed_world();
    let mut query = world.query::<Write<0, false>>();
    let list = vec![
        entities[4],
        Entity::from_raw(70),
        entities[5],
        entities[0],
        entities[4],
        Entity { id: 0, generation: 3 },
    ];

    // Those that do not exist or do not match are passed over; one may be there twice.
    let mut iter = query.iter_many(&world, list.clone());
    assert_eq!(iter.next(), Some(&14));
    assert_eq!(iter.next(), Some(&10));
    assert_eq!(iter.next(), Some(&14));
    assert_eq!(iter.next(), None);
    assert_eq!(iter.next(), None);

    let seen = query.many_for_each_mut(
        &mut world,
        &list,
        Vec::new(),
        |mut seen: Vec<Entity>, cell: ComponentCell, _value: &usize| {
            seen.push(cell.entity);
            (seen, None)
        },
    );
    assert_eq!(seen, vec![entities[4], entities[0], entities[4]]);

    assert_eq!(query.iter_many(&world, Vec::new()).next(), None);

    // Where all are found, the list gives what asking for them at once gives.
    let asked = query.get_many(&world, [entities[3], entities[1]]).unwrap();
    let mut iter = query.iter_many(&world, vec![entities[3], entities[1]]);
    assert_eq!([iter.next().unwrap(), iter.next().unwrap()], asked);
    assert_eq!(iter.next(), None);
}

#[test]
fn lists_pass_through_row_filters() {
    let (mut world, entities) = mixed_world();
    world.clear_trackers();
    touch(&mut world, entities[1], 21);
    touch(&mut world, entities[3], 23);
    let query = world.query_filtered::<Read<0, false>, Changed<0, false>>();
    let seen = query.many_for_each_unchecked_manual(
        &world,
        &entities,
        Vec::new(),
        |mut seen: Vec<usize>, value: &usize| {
            seen.push(*value);
            seen
        },
        1,
        2,
    );
    assert_eq!(seen, vec![21, 23]);
    let mut iter = query
        .iter_many_unchecked_manual::<<Read<0, false> as WorldQuery<usize>>::Fetch<'_>>(
            entities, &world, 1, 2,
        );
    assert_eq!(iter.next(), Some(&21));
    assert_eq!(iter.next(), Some(&23));
    assert_eq!(iter.next(), None);
}

#[test]
fn combinations_and_batches_pass_through_row_filters() {
    let (mut world, entities) = mixed_world();
    world.clear_trackers();
    for (i, entity) in [0usize, 2, 4].iter().map(|i| (*i, entities[*i])) {
        touch(&mut world, entity, 20 + i);
    }
    let mut query = world.query_filtered::<Read<0, false>, Changed<0, false>>();
    let mut iter = query.iter_combinations::<2>(&world);
    let mut pairs = Vec::new();
    while let Some([first, second]) = iter.next() {
        pairs.push((*first, *second));
    }
    assert_eq!(pairs, vec![(20, 24), (20, 22), (24, 22)]);

    let counts: Vec<usize> = query
        .par_for_each(&world, 3)
        .into_iter()
        .map(|batch| {
            query.run_batch::<<Read<0, false> as WorldQuery<usize>>::Fetch<'_>, _, _>(
                &world,
                batch,
                0usize,
                |n: usize, _value: &usize| n + 1,
                1,
                2,
            )
        })
        .collect();
    assert_eq!(counts, vec![1, 1, 1]);
}
