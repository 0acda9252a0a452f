use query_state::error::QueryEntityError;
use query_state::fetch::WorldQuery;
use query_state::ids::{ArchetypeId, Entity, WorldId};
use query_state::queries::{Read, With, Without, Write};
use query_state::state::QueryState;
use query_state::world::{ComponentKey, World};

/// A world with an archetype for component 0, kept in a table.
fn world_with_a() -> (World<usize>, ArchetypeId) {
    let mut world: World<usize> = World::new(WorldId(1));
    let a = world.init_component(ComponentKey { tag: 0, sparse: false });
    let table = world.add_table(vec![a]);
    let archetype = world.add_archetype(vec![a], table);
    (world, archetype)
}

#[test]
fn get_many_unchecked_manual_uniqueness() {
    let mut world: World<usize> = World::new(WorldId(1));

    let entities: Vec<Entity> =
        (0..10).map(|_| world.spawn(ArchetypeId(0), Vec::new())).collect();

    let query_state = world.query::<Entity>();

    // These don't matter for the test
    let last_change_tick = world.last_change_tick();
    let change_tick = world.read_change_tick();

    assert!(query_state
        .get_many_unchecked_manual::<10>(
            &world,
            entities.clone().try_into().unwrap(),
            last_change_tick,
            change_tick,
        )
        .is_ok());

    assert_eq!(
        query_state
            .get_many_unchecked_manual(
                &world,
                [entities[0], entities[0]],
                last_change_tick,
                change_tick,
            )
            .unwrap_err(),
        QueryEntityError::AliasedMutability(entities[0])
    );

    assert_eq!(
        query_state
            .get_many_unchecked_manual(
                &world,
                [entities[0], entities[1], entities[0]],
                last_change_tick,
                change_tick,
            )
            .unwrap_err(),
        QueryEntityError::AliasedMutability(entities[0])
    );

    assert_eq!(
        query_state
            .get_many_unchecked_manual(
                &world,
                [entities[9], entities[9]],
                last_change_tick,
                change_tick,
            )
            .unwrap_err(),
        QueryEntityError::AliasedMutability(entities[9])
    );
}

#[test]
#[should_panic]
fn right_world_get() {
    let mut world_1: World<usize> = World::new(WorldId(1));
    let world_2: World<usize> = World::new(WorldId(2));

    let mut query_state = world_1.query::<Entity>();
    let _panics = query_state.get(&world_2, Entity::from_raw(0));
}

#[test]
#[should_panic]
fn right_world_get_many() {
    let mut world_1: World<usize> = World::new(WorldId(1));
    let world_2: World<usize> = World::new(WorldId(2));

    let mut query_state = world_1.query::<Entity>();
    let _panics = query_state.get_many(&world_2, []);
}

#[test]
#[should_panic]
fn right_world_get_many_mut() {
    let mut world_1: World<usize> = World::new(WorldId(1));
    let mut world_2: World<usize> = World::new(WorldId(2));

    let mut query_state = world_1.query::<Entity>();
    let _panics = query_state.get_many_mut(&mut world_2, []);
}

#[test]
fn validate_world_goes_by_id() {
    let mut world_1: World<usize> = World::new(WorldId(1));
    let world_2: World<usize> = World::new(WorldId(2));
    let query_state = world_1.query::<Entity>();
    query_state.validate_world(&world_1);
    assert!(query_state.is_for_world(&world_1));
    assert!(!query_state.is_for_world(&world_2));
}

#[test]
fn get_many_reads_each_entity() {
    let (mut world, archetype) = world_with_a();
    let entity_vec: Vec<Entity> = (0..3).map(|i| world.spawn(archetype, vec![i])).collect();
    let entities: [Entity; 3] = entity_vec.try_into().unwrap();
    world.spawn(archetype, vec![73]);

    let mut query_state = world.query::<Read<0, false>>();
    let component_values = query_state.get_many(&world, entities).unwrap();
    assert_eq!(component_values, [&0, &1, &2]);

    let wrong_entity = Entity::from_raw(365);
    assert_eq!(
        query_state.get_many(&world, [wrong_entity]),
        Err(QueryEntityError::NoSuchEntity(wrong_entity))
    );

    // Nothing is asked for, nothing is given; and an entity may be asked for twice.
    assert_eq!(query_state.get_many(&world, []), Ok([]));
    assert_eq!(query_state.get_many(&world, [entities[2], entities[2]]), Ok([&2, &2]));
}

#[test]
fn get_many_mut_writes_each_entity() {
    let (mut world, archetype) = world_with_a();
    let entities: Vec<Entity> = (0..3).map(|i| world.spawn(archetype, vec![i])).collect();
    let entities: [Entity; 3] = entities.try_into().unwrap();
    world.spawn(archetype, vec![73]);

    let mut query_state = world.query::<Write<0, false>>();
    let cells = query_state.get_many_mut(&mut world, entities).unwrap();
    assert_ne!(cells[0], cells[1]);
    assert_ne!(cells[1], cells[2]);
    for cell in cells {
        let value = *world.read(cell) + 5;
        world.write(cell, value);
    }

    let component_values = query_state.get_many(&world, entities).unwrap();
    assert_eq!(component_values, [&5, &6, &7]);

    let wrong_entity = Entity::from_raw(57);
    let invalid_entity = world.spawn(ArchetypeId(0), Vec::new());
    assert_eq!(
        query_state.get_many_mut(&mut world, [wrong_entity]).unwrap_err(),
        QueryEntityError::NoSuchEntity(wrong_entity)
    );
    assert_eq!(
        query_state.get_many_mut(&mut world, [invalid_entity]).unwrap_err(),
        QueryEntityError::QueryDoesNotMatch(invalid_entity)
    );
    assert_eq!(
        query_state.get_many_mut(&mut world, [entities[0], entities[0]]).unwrap_err(),
        QueryEntityError::AliasedMutability(entities[0])
    );
}

#[test]
fn the_first_error_is_reported() {
    let (mut world, archetype) = world_with_a();
    let good = world.spawn(archetype, vec![1]);
    let bare = world.spawn(ArchetypeId(0), Vec::new());
    let missing = Entity::from_raw(9);
    let mut query_state = world.query::<Write<0, false>>();

    assert_eq!(
        query_state.get_many(&world, [good, bare, missing]).unwrap_err(),
        QueryEntityError::QueryDoesNotMatch(bare)
    );
    assert_eq!(
        query_state.get_many(&world, [good, missing, bare]).unwrap_err(),
        QueryEntityError::NoSuchEntity(missing)
    );
    // A repeated entity comes before any other error, and the first repeated one is named.
    assert_eq!(
        query_state.get_many_mut(&mut world, [missing, bare, good, bare, good]).unwrap_err(),
        QueryEntityError::AliasedMutability(bare)
    );
    // Where none is repeated, both ways of asking fail alike.
    assert_eq!(
        query_state.get_many_mut(&mut world, [good, missing, bare]).unwrap_err(),
        QueryEntityError::NoSuchEntity(missing)
    );
}

#[test]
fn get_finds_what_fits() {
    let (mut world, archetype) = world_with_a();
    let good = world.spawn(archetype, vec![41]);
    let bare = world.spawn(ArchetypeId(0), Vec::new());
    let old = Entity { id: good.id, generation: good.generation + 1 };
    let mut query_state = world.query::<Write<0, false>>();

    assert_eq!(query_state.get(&world, good), Ok(&41));
    assert_eq!(query_state.get(&world, bare), Err(QueryEntityError::QueryDoesNotMatch(bare)));
    assert_eq!(query_state.get(&world, old), Err(QueryEntityError::NoSuchEntity(old)));

    let cell = query_state.get_mut(&mut world, good).unwrap();
    assert_eq!(cell.entity, good);
    world.write(cell, 42);
    assert_eq!(query_state.get_manual(&world, good), Ok(&42));
    assert_eq!(query_state.get_unchecked(&world, good), Ok(cell));
}

#[test]
fn a_reserved_entity_does_not_exist_yet() {
    let (mut world, archetype) = world_with_a();
    let reserved = world.reserve_entity();
    let good = world.spawn(archetype, vec![1]);
    assert_eq!(reserved, Entity::from_raw(0));
    assert_eq!(good, Entity::from_raw(1));
    let mut query_state = world.query::<Write<0, false>>();
    assert_eq!(query_state.get(&world, reserved), Err(QueryEntityError::NoSuchEntity(reserved)));
    assert_eq!(query_state.get(&world, good), Ok(&1));
    assert_eq!(
        query_state.get_many_mut(&mut world, [good, reserved]).unwrap_err(),
        QueryEntityError::NoSuchEntity(reserved)
    );
}

#[test]
fn get_manual_does_not_look_for_new_archetypes() {
    let mut world: World<usize> = World::new(WorldId(1));
    let mut query_state = world.query::<Read<0, false>>();
    let a = world.init_component(ComponentKey { tag: 0, sparse: false });
    let table = world.add_table(vec![a]);
    let archetype = world.add_archetype(vec![a], table);
    let entity = world.spawn(archetype, vec![5]);

    assert_eq!(
        query_state.get_manual(&world, entity),
        Err(QueryEntityError::QueryDoesNotMatch(entity))
    );
    assert_eq!(query_state.get(&world, entity), Ok(&5));
    assert_eq!(query_state.get_manual(&world, entity), Ok(&5));
}

#[test]
fn filters_decide_by_archetype() {
    let (mut world, only_a) = world_with_a();
    let a = world.init_component(ComponentKey { tag: 0, sparse: false });
    let b = world.init_component(ComponentKey { tag: 1, sparse: true });
    let table = world.archetypes[only_a.index()].table_id();
    let a_and_b = world.add_archetype(vec![a, b], table);
    let plain = world.spawn(only_a, vec![1]);
    let marked = world.spawn(a_and_b, vec![2, 20]);

    let mut with = world.query_filtered::<Read<0, false>, With<1, true>>();
    assert_eq!(with.get(&world, plain), Err(QueryEntityError::QueryDoesNotMatch(plain)));
    assert_eq!(with.get(&world, marked), Ok(&2));

    let mut without = world.query_filtered::<Read<0, false>, Without<1, true>>();
    assert_eq!(without.get(&world, plain), Ok(&1));
    assert_eq!(without.get(&world, marked), Err(QueryEntityError::QueryDoesNotMatch(marked)));

    let mut sparse = world.query::<Read<1, true>>();
    assert_eq!(sparse.get(&world, marked), Ok(&20));
}

#[test]
fn entity_errors_have_messages() {
    let entity = Entity::from_raw(3);
    assert_eq!(
        QueryEntityError::QueryDoesNotMatch(entity).to_string(),
        "The given entity does not have the requested component."
    );
    assert_eq!(
        QueryEntityError::NoSuchEntity(entity).to_string(),
        "The requested entity does not exist."
    );
    assert_eq!(
        QueryEntityError::AliasedMutability(entity).to_string(),
        "The entity was requested mutably more than once."
    );
}

/// The same lookup through the function that takes the ticks.
fn look<Q: WorldQuery<usize>>(
    query: &QueryState<usize, Q, ()>,
    world: &World<usize>,
    entity: Entity,
) -> bool {
    query.get_unchecked_manual::<Q::Fetch<'_>>(world, entity, 0, 1).is_ok()
}

#[test]
fn lookup_with_given_ticks() {
    let (mut world, archetype) = world_with_a();
    let entity = world.spawn(archetype, vec![1]);
    let query = world.query::<Read<0, false>>();
    assert!(look(&query, &world, entity));
    assert!(!look(&query, &world, Entity::from_raw(1)));
    assert_eq!(query.get_many_read_only_manual(&world, [entity], 0, 1), Ok([&1]));
}
