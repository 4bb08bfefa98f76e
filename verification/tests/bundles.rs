use ecs::bundles::{
    archetype_with_types, calculate_bundle_id, sort_type_ids, Bundle, ComponentBundle,
};
use std::collections::hash_map::DefaultHasher;
use std::hash::{Hash, Hasher};

fn hashed_by_std(types: &[u64]) -> u64 {
    let mut hasher = DefaultHasher::new();
    types.hash(&mut hasher);
    hasher.finish()
}

#[test]
fn bundle_id_is_the_hash_of_the_list() {
    assert_eq!(calculate_bundle_id(&[]), hashed_by_std(&[]));
    assert_eq!(calculate_bundle_id(&[7]), hashed_by_std(&[7]));
    assert_eq!(calculate_bundle_id(&[1, 2, 3]), hashed_by_std(&[1, 2, 3]));
    assert_eq!(
        calculate_bundle_id(&[u64::MAX, 0, 42]),
        hashed_by_std(&[u64::MAX, 0, 42])
    );
}

#[test]
fn bundle_id_tells_lists_apart() {
    assert_eq!(calculate_bundle_id(&[1, 2, 3]), calculate_bundle_id(&[1, 2, 3]));
    assert_ne!(calculate_bundle_id(&[1, 2, 3]), calculate_bundle_id(&[1, 2]));
    assert_ne!(calculate_bundle_id(&[1, 2, 3]), calculate_bundle_id(&[3, 2, 1]));
    assert_ne!(calculate_bundle_id(&[]), calculate_bundle_id(&[0]));
}

#[test]
fn bundle_holds_one_value_per_type() {
    let mut bundle: Bundle<&'static str> = Bundle::new();
    assert_eq!(bundle.len(), 0);
    assert!(!bundle.contains(3));
    bundle.insert(3, "three");
    bundle.insert(1, "one");
    assert_eq!(bundle.len(), 2);
    assert!(bundle.contains(3));
    assert!(bundle.contains(1));
    assert!(!bundle.contains(2));
    bundle.insert(3, "drei");
    assert_eq!(bundle.len(), 2);
    assert_eq!(bundle.sorted_type_ids(), vec![1, 3]);
}

#[test]
fn sorted_type_ids_do_not_depend_on_the_insertion_order() {
    let mut forwards: Bundle<u8> = Bundle::new();
    let mut backwards: Bundle<u8> = Bundle::new();
    for type_id in [1u64, 4, 9, 16, 25] {
        forwards.insert(type_id, 0);
    }
    for type_id in [25u64, 16, 9, 4, 1] {
        backwards.insert(type_id, 0);
    }
    assert_eq!(forwards.sorted_type_ids(), vec![1, 4, 9, 16, 25]);
    assert_eq!(backwards.sorted_type_ids(), vec![1, 4, 9, 16, 25]);
    let mut mixed: Bundle<u8> = Bundle::new();
    for type_id in [9u64, 1, 25, 4, 16] {
        mixed.insert(type_id, 0);
    }
    assert_eq!(mixed.sorted_type_ids(), vec![1, 4, 9, 16, 25]);
}

#[test]
fn new_archetype_has_the_bundle_types_as_empty_columns() {
    let mut bundle: Bundle<u8> = Bundle::new();
    bundle.insert(8, 1);
    bundle.insert(2, 2);
    let archetype = bundle.new_archetype();
    assert_eq!(archetype.type_ids(), vec![2, 8]);
    assert!(archetype.entities.is_empty());
    assert_eq!(archetype.get_entity_component(2).unwrap().len(), 0);
    assert_eq!(archetype.get_entity_component(8).unwrap().len(), 0);
}

#[test]
fn tuples_make_the_archetype_of_their_types() {
    let one = ((9u64, 'a'),).new_archetype();
    assert_eq!(one.type_ids(), vec![9]);
    let two = ((9u64, 'a'), (4u64, 'b')).new_archetype();
    assert_eq!(two.type_ids(), vec![4, 9]);
    let three = ((9u64, 'a'), (4u64, 'b'), (6u64, 'c')).new_archetype();
    assert_eq!(three.type_ids(), vec![4, 6, 9]);
    assert!(three.entities.is_empty());
    assert_eq!(three.get_entity_component(6).unwrap().len(), 0);
    let four = ((9u64, 'a'), (4u64, 'b'), (6u64, 'c'), (1u64, 'd')).new_archetype();
    assert_eq!(four.type_ids(), vec![1, 4, 6, 9]);
}

#[test]
fn sort_type_ids_sorts_and_drops_repetitions() {
    assert_eq!(sort_type_ids(&vec![]), Vec::<u64>::new());
    assert_eq!(sort_type_ids(&vec![5]), vec![5]);
    assert_eq!(sort_type_ids(&vec![5, 1, 9, 3]), vec![1, 3, 5, 9]);
    assert_eq!(sort_type_ids(&vec![2, 2, 1, 2, 1]), vec![1, 2]);
    assert_eq!(sort_type_ids(&vec![u64::MAX, 0]), vec![0, u64::MAX]);
}

#[test]
fn archetype_with_types_has_one_empty_column_per_type() {
    let archetype = archetype_with_types::<u8>(&vec![1, 2, 7]);
    assert_eq!(archetype.type_ids(), vec![1, 2, 7]);
    assert!(archetype.entities.is_empty());
    assert!(archetype.has_component(7));
    assert!(!archetype.has_component(3));
    let none = archetype_with_types::<u8>(&vec![]);
    assert!(none.components.is_empty());
}

#[test]
fn larger_tuples_make_the_archetype_of_their_types() {
    let five = ((5u64, 'a'), (3u64, 'b'), (9u64, 'c'), (1u64, 'd'), (7u64, 'e')).new_archetype();
    assert_eq!(five.type_ids(), vec![1, 3, 5, 7, 9]);
    let eight = (
        (8u64, 0u8),
        (7u64, 0u8),
        (6u64, 0u8),
        (5u64, 0u8),
        (4u64, 0u8),
        (3u64, 0u8),
        (2u64, 0u8),
        (1u64, 0u8),
    )
        .new_archetype();
    assert_eq!(eight.type_ids(), vec![1, 2, 3, 4, 5, 6, 7, 8]);
    let fifteen = (
        (15u64, 0u8),
        (1u64, 0u8),
        (14u64, 0u8),
        (2u64, 0u8),
        (13u64, 0u8),
        (3u64, 0u8),
        (12u64, 0u8),
        (4u64, 0u8),
        (11u64, 0u8),
        (5u64, 0u8),
        (10u64, 0u8),
        (6u64, 0u8),
        (9u64, 0u8),
        (7u64, 0u8),
        (8u64, 0u8),
    )
        .new_archetype();
    assert_eq!(fifteen.type_ids(), (1..=15).collect::<Vec<u64>>());
    assert!(fifteen.entities.is_empty());
}
