use ecs::components::Components;

const NAME: u64 = 7;
const HEALTH: u64 = 3;

#[test]
fn new_storage_has_no_pools() {
    let components: Components<i32> = Components::new();
    assert_eq!(components.get_component_id(NAME), None);
    assert!(components.get_component_pool(NAME).is_none());
    assert_eq!(components.get_entity_component(0, NAME), None);
    let by_default: Components<i32> = Components::default();
    assert_eq!(by_default.get_component_id(NAME), None);
}

#[test]
fn types_are_registered_in_order() {
    let mut components: Components<i32> = Components::new();
    assert_eq!(components.get_or_register_component_id(NAME), 0);
    assert_eq!(components.get_or_register_component_id(HEALTH), 1);
    assert_eq!(components.get_or_register_component_id(NAME), 0);
    assert_eq!(components.get_component_id(HEALTH), Some(1));
    assert_eq!(components.get_component_id(99), None);
    assert_eq!(components.get_component_pool(NAME), Some(&vec![]));
}

#[test]
fn set_entity_component_pads_the_pool() {
    let mut components: Components<i32> = Components::new();
    components.set_entity_component(2, HEALTH, 100);
    assert_eq!(
        components.get_component_pool(HEALTH),
        Some(&vec![None, None, Some(100), None])
    );
    assert_eq!(components.get_entity_component(2, HEALTH), Some(&100));
    assert_eq!(components.get_entity_component(1, HEALTH), None);
    assert_eq!(components.get_entity_component(9, HEALTH), None);
    components.set_entity_component(0, HEALTH, 5);
    assert_eq!(
        components.get_component_pool(HEALTH),
        Some(&vec![Some(5), None, Some(100), None])
    );
    components.set_entity_component(2, HEALTH, 101);
    assert_eq!(components.get_entity_component(2, HEALTH), Some(&101));
    components.set_entity_component(3, HEALTH, 7);
    assert_eq!(
        components.get_component_pool(HEALTH),
        Some(&vec![Some(5), None, Some(101), Some(7), None])
    );
}

#[test]
fn pools_of_different_types_do_not_touch() {
    let mut components: Components<i32> = Components::new();
    components.set_entity_component(0, HEALTH, 1);
    components.set_entity_component(1, NAME, 2);
    assert_eq!(components.get_entity_component(0, HEALTH), Some(&1));
    assert_eq!(components.get_entity_component(1, HEALTH), None);
    assert_eq!(components.get_entity_component(0, NAME), None);
    assert_eq!(components.get_entity_component(1, NAME), Some(&2));
}

#[test]
fn expand_pools_adds_one_empty_slot_to_each() {
    let mut components: Components<i32> = Components::new();
    components.set_entity_component(0, HEALTH, 1);
    components.get_or_register_component_id(NAME);
    components.expand_pools();
    assert_eq!(components.get_component_pool(HEALTH), Some(&vec![Some(1), None, None]));
    assert_eq!(components.get_component_pool(NAME), Some(&vec![None]));
}

#[test]
fn clear_entity_components_empties_the_slots_of_one_entity() {
    let mut components: Components<i32> = Components::new();
    components.set_entity_component(0, HEALTH, 1);
    components.set_entity_component(1, HEALTH, 2);
    components.set_entity_component(1, NAME, 3);
    components.get_or_register_component_id(55);
    components.clear_entity_components(1);
    assert_eq!(components.get_entity_component(0, HEALTH), Some(&1));
    assert_eq!(components.get_entity_component(1, HEALTH), None);
    assert_eq!(components.get_entity_component(1, NAME), None);
    assert_eq!(components.get_component_pool(HEALTH), Some(&vec![Some(1), None, None]));
    assert_eq!(components.get_component_pool(55), Some(&vec![]));
    components.clear_entity_components(40);
    assert_eq!(components.get_component_pool(HEALTH), Some(&vec![Some(1), None, None]));
}

#[test]
fn mutable_access_changes_the_stored_value() {
    let mut components: Components<i32> = Components::new();
    components.set_entity_component(1, HEALTH, 10);
    *components.get_entity_component_mut(1, HEALTH).unwrap() += 5;
    assert_eq!(components.get_entity_component(1, HEALTH), Some(&15));
    assert!(components.get_entity_component_mut(0, HEALTH).is_none());
    assert!(components.get_entity_component_mut(7, HEALTH).is_none());
    assert_eq!(components.get_component_id(NAME), None);
    assert!(components.get_entity_component_mut(0, NAME).is_none());
    assert_eq!(components.get_component_id(NAME), Some(1));
    assert!(components.get_component_pool_mut(99).is_none());
    components.get_component_pool_mut(HEALTH).unwrap()[0] = Some(1);
    assert_eq!(components.get_entity_component(0, HEALTH), Some(&1));
}
