use query_state::ids::{Entity, WorldId};
use query_state::queries::{Read, With, Write};
use query_state::world::{ComponentKey, World};

/// So many entities that have A; those at an odd position have the sparse S too.
fn world_of(n: usize) -> (World<usize>, Vec<Entity>) {
    let mut world: World<usize> = World::new(WorldId(1));
    let a = world.init_component(ComponentKey { tag: 0, sparse: false });
    let s = world.init_component(ComponentKey { tag: 1, sparse: true });
    let table = world.add_table(vec![a]);
    let only_a = world.add_archetype(vec![a], table);
    let with_s = world.add_archetype(vec![a, s], table);
    let mut entities = Vec::new();
    for i in 0..n {
        entities.push(if i % 2 == 0 {
            world.spawn(only_a, vec![i])
        } else {
            world.spawn(with_s, vec![i, i])
        });
    }
    (world, entities)
}

fn combinations_of<const K: usize>(n: usize) -> Vec<[usize; K]> {
    let (mut world, _) = world_of(n);
    let mut query = world.query::<Read<0, false>>();
    let mut iter = query.iter_combinations::<K>(&world);
    let mut all = Vec::new();
    while let Some(items) = iter.next() {
        all.push(items.map(|value| *value));
    }
    assert!(iter.next().is_none());
    all
}

#[test]
fn all_pairs_without_repetition() {
    assert_eq!(
        combinations_of::<2>(4),
        vec![[0, 1], [0, 2], [0, 3], [1, 2], [1, 3], [2, 3]]
    );
    assert_eq!(combinations_of::<3>(6).len(), 20);
    assert_eq!(combinations_of::<4>(7).len(), 35);
}

#[test]
fn one_combination_of_all_results() {
    assert_eq!(combinations_of::<3>(3), vec![[0, 1, 2]]);
    assert_eq!(combinations_of::<1>(1), vec![[0]]);
}

#[test]
fn no_combination_of_more_than_there_are() {
    assert_eq!(combinations_of::<4>(3), Vec::<[usize; 4]>::new());
    assert_eq!(combinations_of::<1>(0), Vec::<[usize; 1]>::new());
}

#[test]
fn one_combination_of_nothing() {
    assert_eq!(combinations_of::<0>(3), vec![[]]);
    assert_eq!(combinations_of::<0>(0), vec![[]]);
}

#[test]
fn combinations_of_filtered_results() {
    let (mut world, entities) = world_of(6);
    let mut query = world.query_filtered::<Write<0, false>, With<1, true>>();
    let mut iter = query.iter_combinations_mut::<2>(&mut world);
    let mut pairs = Vec::new();
    while let Some([first, second]) = iter.next() {
        pairs.push([first.entity, second.entity]);
    }
    assert_eq!(
        pairs,
        vec![
            [entities[1], entities[3]],
            [entities[1], entities[5]],
            [entities[3], entities[5]]
        ]
    );
    let [a, b, c] = query.iter_combinations_unchecked::<3>(&world).next().unwrap();
    assert_eq!([a.entity, b.entity, c.entity], [entities[1], entities[3], entities[5]]);
}
