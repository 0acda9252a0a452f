use query_state::bits::insert_grown;
use query_state::ids::{ArchetypeId, ComponentId, TableId, WorldId};
use query_state::queries::{Read, With, Without, Write};
use query_state::state::QueryState;
use query_state::world::{ComponentKey, World};

/// Archetype 0 has no component, 1 has A, 2 has A and the sparse S, 3 has B, 4 has A and B.
/// Archetypes 1 and 2 share a table.
fn mixed_world() -> World<usize> {
    let mut world: World<usize> = World::new(WorldId(7));
    let a = world.init_component(ComponentKey { tag: 0, sparse: false });
    let b = world.init_component(ComponentKey { tag: 1, sparse: false });
    let s = world.init_component(ComponentKey { tag: 2, sparse: true });
    let table_a = world.add_table(vec![a]);
    let table_b = world.add_table(vec![b]);
    let table_ab = world.add_table(vec![a, b]);
    world.add_archetype(vec![a], table_a);
    world.add_archetype(vec![a, s], table_a);
    world.add_archetype(vec![b], table_b);
    world.add_archetype(vec![b, a], table_ab);
    world
}

fn archetypes(indices: &[usize]) -> Vec<ArchetypeId> {
    indices.iter().map(|i| ArchetypeId(*i)).collect()
}

fn tables(indices: &[usize]) -> Vec<TableId> {
    indices.iter().map(|i| TableId(*i)).collect()
}

#[test]
fn new_query_matches_what_fits() {
    let mut world = mixed_world();
    let reads_a = world.query::<Read<0, false>>();
    assert_eq!(reads_a.matched_archetype_ids, archetypes(&[1, 2, 4]));
    // The table that two archetypes share is there once.
    assert_eq!(reads_a.matched_table_ids, tables(&[1, 3]));
    assert_eq!(reads_a.archetype_generation.value(), 5);
    assert_eq!(reads_a.world_id, WorldId(7));

    let reads_s = world.query::<Read<2, true>>();
    assert_eq!(reads_s.matched_archetype_ids, archetypes(&[2]));
    assert_eq!(reads_s.matched_table_ids, tables(&[1]));

    let all = world.query::<()>();
    assert_eq!(all.matched_archetype_ids, archetypes(&[0, 1, 2, 3, 4]));
    assert_eq!(all.matched_table_ids, tables(&[0, 1, 2, 3]));
}

#[test]
fn sets_and_vectors_agree() {
    let mut world = mixed_world();
    let query = world.query_filtered::<Read<0, false>, Without<1, false>>();
    assert_eq!(query.matched_archetype_ids, archetypes(&[1, 2]));
    for i in 0..6 {
        assert_eq!(
            query.matched_archetypes.contains(i),
            query.matched_archetype_ids.contains(&ArchetypeId(i))
        );
        assert_eq!(
            query.matched_tables.contains(i),
            query.matched_table_ids.contains(&TableId(i))
        );
    }
}

#[test]
fn filter_takes_part_in_matching() {
    let mut world = mixed_world();
    let with_b = world.query_filtered::<Read<0, false>, With<1, false>>();
    assert_eq!(with_b.matched_archetype_ids, archetypes(&[4]));
    let without_s: QueryState<usize, Read<0, false>, Without<2, true>> =
        QueryState::from_world(&mut world);
    assert_eq!(without_s.matched_archetype_ids, archetypes(&[1, 4]));
}

#[test]
fn update_catches_up_with_a_growing_world() {
    let mut world: World<usize> = World::new(WorldId(1));
    let mut query = world.query::<Read<0, false>>();
    assert_eq!(query.matched_archetype_ids, archetypes(&[]));
    assert_eq!(query.archetype_generation.value(), 1);

    let a = world.init_component(ComponentKey { tag: 0, sparse: false });
    let s = world.init_component(ComponentKey { tag: 1, sparse: true });
    let table = world.add_table(vec![a]);
    world.add_archetype(vec![a], table);
    query.update_archetypes(&world);
    assert_eq!(query.matched_archetype_ids, archetypes(&[1]));

    world.add_archetype(vec![s], TableId(0));
    world.add_archetype(vec![s, a], table);
    query.update_archetypes(&world);
    assert_eq!(query.matched_archetype_ids, archetypes(&[1, 3]));
    assert_eq!(query.matched_table_ids, tables(&[1]));

    // The same as for a query that meets the world as it is now.
    let fresh = world.query::<Read<0, false>>();
    assert_eq!(query.matched_archetype_ids, fresh.matched_archetype_ids);
    assert_eq!(query.matched_table_ids, fresh.matched_table_ids);
    assert_eq!(query.archetype_generation, fresh.archetype_generation);
    assert_eq!(query.matched_archetypes, fresh.matched_archetypes);
    assert_eq!(query.matched_tables, fresh.matched_tables);

    // Once more changes nothing.
    query.update_archetypes(&world);
    assert_eq!(query.matched_archetype_ids, archetypes(&[1, 3]));
    assert_eq!(query.archetype_generation.value(), 4);
}

#[test]
fn an_archetype_is_matched_once() {
    let mut world = mixed_world();
    let mut query = world.query::<Read<0, false>>();
    query.new_archetype(&world.archetypes[1]);
    query.new_archetype(&world.archetypes[3]);
    assert_eq!(query.matched_archetype_ids, archetypes(&[1, 2, 4]));
    assert_eq!(query.matched_table_ids, tables(&[1, 3]));
}

#[test]
fn an_archetype_that_does_not_fit_changes_nothing() {
    let mut world: World<usize> = World::new(WorldId(1));
    let mut query = world.query::<Read<0, false>>();
    let b = world.init_component(ComponentKey { tag: 1, sparse: false });
    let table = world.add_table(vec![b]);
    world.add_archetype(vec![b], table);
    query.new_archetype(&world.archetypes[1]);
    assert_eq!(query.matched_archetypes.len(), 0);
    assert_eq!(query.matched_tables.len(), 0);
    assert_eq!(query.matched_archetype_ids, archetypes(&[]));
    assert_eq!(query.archetype_generation.value(), 1);
}

#[test]
fn told_out_of_turn_a_query_is_still_complete() {
    let mut world: World<usize> = World::new(WorldId(1));
    let mut query = world.query::<Read<0, false>>();
    let a = world.init_component(ComponentKey { tag: 0, sparse: false });
    let s = world.init_component(ComponentKey { tag: 1, sparse: true });
    let table = world.add_table(vec![a]);
    let first = world.add_archetype(vec![a], table);
    let second = world.add_archetype(vec![a, s], table);
    query.new_archetype(&world.archetypes[second.index()]);
    assert_eq!(query.matched_archetype_ids, archetypes(&[2]));
    query.update_archetypes(&world);
    assert_eq!(query.matched_archetype_ids, archetypes(&[2, 1]));
    let entity = world.spawn(first, vec![4]);
    assert_eq!(query.get(&world, entity), Ok(&4));
    assert_eq!(query.iter(&world).next(), Some(&4));
}

#[test]
fn queries_of_a_kind_are_alike() {
    let mut world = mixed_world();
    let made: QueryState<usize, Read<0, false>, Without<2, true>> = QueryState::new(&mut world);
    let from: QueryState<usize, Read<0, false>, Without<2, true>> =
        QueryState::from_world(&mut world);
    assert_eq!(made.world_id, from.world_id);
    assert_eq!(made.archetype_generation, from.archetype_generation);
    assert_eq!(made.matched_archetype_ids, from.matched_archetype_ids);
    assert_eq!(made.matched_table_ids, from.matched_table_ids);
    assert_eq!(made.matched_archetypes, from.matched_archetypes);
    assert_eq!(made.matched_tables, from.matched_tables);
    assert_eq!(made.component_access.without, from.component_access.without);
}

#[test]
fn access_is_noted_per_archetype() {
    let mut world = mixed_world();
    // The entries are counted through: archetype 1 has 0, 2 has 1 and 2, 3 has 3, 4 has 4 (B)
    // and 5 (A).
    let reads = world.query::<Read<0, false>>();
    let writes = world.query_filtered::<Write<0, false>, With<1, false>>();
    for i in 0..7 {
        let read = i == 0 || i == 1 || i == 5;
        assert_eq!(reads.archetype_component_access.has_read(i), read);
        assert!(!reads.archetype_component_access.has_write(i));
        assert_eq!(writes.archetype_component_access.has_read(i), i == 5);
        assert_eq!(writes.archetype_component_access.has_write(i), i == 5);
    }
}

#[test]
fn component_access_joins_query_and_filter() {
    let mut world = mixed_world();
    let query = world.query_filtered::<Write<0, false>, Without<2, true>>();
    let access = &query.component_access;
    assert!(access.access.has_read(0) && access.access.has_write(0));
    assert!(!access.access.has_read(2) && !access.access.has_write(2));
    assert!(access.with.contains(0) && !access.with.contains(2));
    assert!(!access.without.contains(0) && access.without.contains(2));

    // A filter may ask for what the query itself writes.
    let both = world.query_filtered::<Write<0, false>, Read<0, false>>();
    assert!(both.component_access.access.has_write(0));
    assert!(both.component_access.with.contains(0));

    let reads = world.query::<Read<1, false>>();
    assert!(reads.component_access.access.has_read(1));
    assert!(!reads.component_access.access.has_write(1));
}

#[test]
fn making_a_query_registers_its_components() {
    let mut world: World<usize> = World::new(WorldId(1));
    assert_eq!(world.components.len(), 0);
    let query = world.query_filtered::<Read<5, true>, With<6, false>>();
    assert_eq!(query.fetch_state.component, ComponentId(0));
    assert_eq!(query.filter_state.component, ComponentId(1));
    assert_eq!(
        world.components,
        vec![ComponentKey { tag: 5, sparse: true }, ComponentKey { tag: 6, sparse: false }]
    );
    // They are found again, not added again.
    let again = world.query::<Read<6, false>>();
    assert_eq!(again.fetch_state.component, ComponentId(1));
    assert_eq!(world.components.len(), 2);
}

#[test]
fn bits_grow_as_needed() {
    let mut world: World<usize> = World::new(WorldId(1));
    let query = world.query::<()>();
    let mut bits = query.matched_tables.clone();
    assert_eq!(bits.len(), 1);
    insert_grown(&mut bits, 70);
    assert_eq!(bits.len(), 71);
    assert!(bits.contains(0) && bits.contains(70) && !bits.contains(69) && !bits.contains(71));
    insert_grown(&mut bits, 3);
    assert_eq!(bits.len(), 71);
    assert_eq!(bits.ones().collect::<Vec<usize>>(), vec![0, 3, 70]);
}
