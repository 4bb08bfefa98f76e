use ecs::archetype::{Archetype, ArchetypeError, ComponentSet, ComponentStore};
use ecs::helpers::{binary_search, index_twice};

fn archetype_of(types: &[u64]) -> Archetype<u32> {
    let mut archetype = Archetype::new();
    for type_id in types {
        archetype.components.push(ComponentStore::new(*type_id));
    }
    archetype
}

fn add_row(archetype: &mut Archetype<u32>, entity: u32, values: &[(u64, u32)]) -> usize {
    let row = archetype.add_entity(entity);
    for (type_id, value) in values {
        archetype.add_entity_component(*type_id, *value);
    }
    row
}

#[test]
fn component_store_starts_empty() {
    let mut store: ComponentStore<u32> = ComponentStore::new(7);
    assert_eq!(store.type_id, 7);
    assert_eq!(ComponentSet::len(&store.data), 0);
    store.data.push(1);
    store.data.push(2);
    ComponentSet::expand(&mut store.data);
    assert_eq!(store.data, vec![1, 2]);
    let clone = store.empty_clone();
    assert_eq!(clone.type_id, 7);
    assert_eq!(ComponentSet::len(&clone.data), 0);
    assert_eq!(ComponentSet::len(&store.data), 2);
    let values: Vec<u32> = ComponentSet::empty_clone(&store.data);
    assert!(values.is_empty());
}

#[test]
fn set_remove_puts_the_last_value_in_the_gap() {
    let mut set: Vec<u32> = vec![10, 20, 30, 40];
    ComponentSet::remove(&mut set, 1);
    assert_eq!(set, vec![10, 40, 30]);
    ComponentSet::remove(&mut set, 2);
    assert_eq!(set, vec![10, 40]);
}

#[test]
fn set_migrate_moves_one_value() {
    let mut from: Vec<u32> = vec![10, 20, 30];
    let mut to: Vec<u32> = vec![1];
    from.migrate(0, &mut to);
    assert_eq!(from, vec![30, 20]);
    assert_eq!(to, vec![1, 10]);
}

#[test]
fn add_entity_returns_the_new_row() {
    let mut archetype = archetype_of(&[1, 5]);
    assert_eq!(add_row(&mut archetype, 9, &[(1, 100), (5, 500)]), 0);
    assert_eq!(add_row(&mut archetype, 4, &[(5, 501), (1, 101)]), 1);
    assert_eq!(archetype.entities, vec![9, 4]);
    assert_eq!(archetype.get_entity_component(1).unwrap(), &vec![100, 101]);
    assert_eq!(archetype.get_entity_component(5).unwrap(), &vec![500, 501]);
    assert_eq!(archetype.type_ids(), vec![1, 5]);
}

#[test]
fn columns_are_found_by_type() {
    let archetype = archetype_of(&[2, 4, 6, 8]);
    assert!(archetype.has_component(2));
    assert!(archetype.has_component(8));
    assert!(!archetype.has_component(5));
    assert!(!archetype.has_component(0));
    assert!(!archetype.has_component(9));
    assert_eq!(archetype.find_column(6), Some(2));
    assert_eq!(archetype.find_column(7), None);
    assert!(archetype.has_types(&vec![2, 4, 6, 8]));
    assert!(!archetype.has_types(&vec![2, 4, 6]));
    assert!(!archetype.has_types(&vec![2, 4, 6, 9]));
    assert_eq!(
        archetype.get_entity_component(3).err(),
        Some(ArchetypeError::ComponentMissing)
    );
}

#[test]
fn remove_entity_reports_the_displaced_entity() {
    let mut archetype = archetype_of(&[]);
    for entity in [10, 11, 12] {
        archetype.add_entity(entity);
    }
    assert_eq!(archetype.remove_entity(0), Some(12));
    assert_eq!(archetype.entities, vec![12, 11]);
    assert_eq!(archetype.remove_entity(1), None);
    assert_eq!(archetype.entities, vec![12]);
    assert_eq!(archetype.remove_entity(0), None);
    assert!(archetype.entities.is_empty());
}

#[test]
fn set_entity_component_checks_type_and_row() {
    let mut archetype = archetype_of(&[1]);
    add_row(&mut archetype, 0, &[(1, 5)]);
    assert_eq!(archetype.set_entity_component(0, 1, 6), Ok(()));
    assert_eq!(archetype.get_entity_component(1).unwrap(), &vec![6]);
    assert_eq!(
        archetype.set_entity_component(1, 1, 7),
        Err(ArchetypeError::UnderCapacity)
    );
    assert_eq!(
        archetype.set_entity_component(0, 2, 7),
        Err(ArchetypeError::ComponentMissing)
    );
    assert_eq!(archetype.get_entity_component(1).unwrap(), &vec![6]);
}

#[test]
fn migrate_component_moves_between_archetypes() {
    let mut from = archetype_of(&[1, 2]);
    let mut to = archetype_of(&[1, 2, 3]);
    add_row(&mut from, 0, &[(1, 10), (2, 20)]);
    add_row(&mut from, 1, &[(1, 11), (2, 21)]);
    from.migrate_component(2, 0, &mut to);
    assert_eq!(from.get_entity_component(2).unwrap(), &vec![21]);
    assert_eq!(from.get_entity_component(1).unwrap(), &vec![10, 11]);
    assert_eq!(to.get_entity_component(2).unwrap(), &vec![20]);
    assert_eq!(to.get_entity_component(1).unwrap().len(), 0);
}

#[test]
fn migrate_components_moves_the_listed_types() {
    let mut from = archetype_of(&[1, 2, 3]);
    let mut to = archetype_of(&[1, 3]);
    add_row(&mut from, 0, &[(1, 10), (2, 20), (3, 30)]);
    add_row(&mut from, 1, &[(1, 11), (2, 21), (3, 31)]);
    from.migrate_components(&vec![1, 3], 0, &mut to);
    assert_eq!(from.get_entity_component(1).unwrap(), &vec![11]);
    assert_eq!(from.get_entity_component(2).unwrap(), &vec![20, 21]);
    assert_eq!(from.get_entity_component(3).unwrap(), &vec![31]);
    assert_eq!(to.get_entity_component(1).unwrap(), &vec![10]);
    assert_eq!(to.get_entity_component(3).unwrap(), &vec![30]);
}

#[test]
fn remove_entity_components_drops_one_row() {
    let mut archetype = archetype_of(&[1, 2]);
    add_row(&mut archetype, 0, &[(1, 10), (2, 20)]);
    add_row(&mut archetype, 1, &[(1, 11), (2, 21)]);
    add_row(&mut archetype, 2, &[(1, 12), (2, 22)]);
    archetype.remove_entity_components(0);
    assert_eq!(archetype.get_entity_component(1).unwrap(), &vec![12, 11]);
    assert_eq!(archetype.get_entity_component(2).unwrap(), &vec![22, 21]);
    assert_eq!(archetype.entities, vec![0, 1, 2]);
}

#[test]
fn empty_clone_keeps_the_columns_and_drops_the_rows() {
    let mut archetype = archetype_of(&[1, 2]);
    add_row(&mut archetype, 0, &[(1, 10), (2, 20)]);
    let clone = archetype.empty_clone();
    assert_eq!(clone.type_ids(), vec![1, 2]);
    assert!(clone.entities.is_empty());
    assert_eq!(clone.get_entity_component(1).unwrap().len(), 0);
    assert_eq!(clone.get_entity_component(2).unwrap().len(), 0);
}

#[test]
fn get_component_set_mut_hands_out_the_column() {
    let mut archetype = archetype_of(&[1, 2]);
    add_row(&mut archetype, 0, &[(1, 10), (2, 20)]);
    archetype.get_component_set_mut(2)[0] = 99;
    assert_eq!(archetype.get_entity_component(2).unwrap(), &vec![99]);
    assert_eq!(archetype.get_entity_component(1).unwrap(), &vec![10]);
}

#[test]
fn binary_search_finds_or_places() {
    let list: Vec<u64> = vec![2, 4, 6, 8];
    assert_eq!(binary_search(&list, 2), Ok(0));
    assert_eq!(binary_search(&list, 8), Ok(3));
    assert_eq!(binary_search(&list, 6), Ok(2));
    assert_eq!(binary_search(&list, 1), Err(0));
    assert_eq!(binary_search(&list, 5), Err(2));
    assert_eq!(binary_search(&list, 9), Err(4));
    assert_eq!(binary_search(&Vec::new(), 9), Err(0));
}

#[test]
fn index_twice_gives_both_elements() {
    let mut values = vec![10, 20, 30, 40];
    {
        let (a, b) = index_twice(&mut values, 1, 3);
        assert_eq!((*a, *b), (20, 40));
        *a = 21;
        *b = 41;
    }
    {
        let (a, b) = index_twice(&mut values, 2, 0);
        assert_eq!((*a, *b), (30, 10));
        *a = 31;
        *b = 11;
    }
    assert_eq!(values, vec![11, 21, 31, 41]);
}

#[test]
fn default_archetype_is_empty() {
    let archetype: Archetype<u32> = Archetype::default();
    assert!(archetype.components.is_empty());
    assert!(archetype.entities.is_empty());
    assert!(archetype.has_types(&vec![]));
}
