use ecs::archetype::ArchetypeError;
use ecs::bundles::Bundle;
use ecs::entities::{Entity, EntityError, EntityLocation};
use ecs::world::{EcsError, World};

#[derive(Debug, PartialEq)]
enum Component {
    Text(&'static str),
    Number(i32),
    Name(&'static str),
    Health(usize),
    Speed(usize),
}

const TEXT: u64 = 10;
const NUMBER: u64 = 20;
const NAME: u64 = 30;
const HEALTH: u64 = 40;
const SPEED: u64 = 50;

fn bundle_of(components: Vec<(u64, Component)>) -> Bundle<Component> {
    let mut bundle = Bundle::new();
    for (type_id, component) in components {
        bundle.insert(type_id, component);
    }
    bundle
}

#[test]
fn can_create_entity() {
    let mut world = World::new();
    let entity = world.spawn(((TEXT, Component::Text("name")), (NUMBER, Component::Number(100))));
    assert_eq!(entity.index, 0);
    assert_eq!(world.entity_count(), 1);
}

#[test]
fn can_remove_entity() {
    let mut world = World::new();
    let entity = world.spawn(((HEALTH, Component::Health(100)),));
    assert_eq!(entity.index, 0);
    assert_eq!(world.entity_count(), 1);

    world.remove(entity);
    assert_eq!(world.entity_count(), 0);
}

#[test]
fn can_add_component_to_entity() {
    let mut world = World::new();
    let entity = world.spawn(((TEXT, Component::Text("name")), (NUMBER, Component::Number(120))));
    assert_eq!(entity.index, 0);
    assert_eq!(world.entity_count(), 1);

    world.add_component(entity, HEALTH, Component::Health(100)).unwrap();
    world.add_component(entity, NAME, Component::Name("Link")).unwrap();
}

#[test]
fn can_get_entity_component() {
    let mut world = World::new();
    let entity = world.spawn(((NAME, Component::Name("Link")),));
    assert_eq!(entity.index, 0);
    assert_eq!(world.entity_count(), 1);

    // don't add speed
    world.add_component(entity, HEALTH, Component::Health(100)).unwrap();
    world.add_component(entity, NAME, Component::Name("Link")).unwrap();

    let entity_health = world.get_component(entity, HEALTH).unwrap();
    assert_eq!(*entity_health, Component::Health(100));

    let entity_speed = world.get_component(entity, SPEED);
    assert!(entity_speed.is_none());
}

#[test]
fn new_world_is_empty() {
    let world: World<Component> = World::new();
    assert_eq!(world.entity_count(), 0);
    assert_eq!(world.archetype_count(), 0);
    assert!(world.has_room());
    assert!(!world.is_live(Entity { index: 0, generation: 0 }));
}

#[test]
fn spawned_components_are_read_back_in_any_insertion_order() {
    let mut world = World::new();
    let first = world.spawn(bundle_of(vec![
        (NAME, Component::Name("Link")),
        (HEALTH, Component::Health(100)),
    ]));
    let second = world.spawn(bundle_of(vec![
        (HEALTH, Component::Health(7)),
        (NAME, Component::Name("Zelda")),
    ]));
    assert_eq!(world.get_component(first, NAME), Some(&Component::Name("Link")));
    assert_eq!(world.get_component(first, HEALTH), Some(&Component::Health(100)));
    assert_eq!(world.get_component(second, NAME), Some(&Component::Name("Zelda")));
    assert_eq!(world.get_component(second, HEALTH), Some(&Component::Health(7)));
    assert!(world.has_component(first, NAME));
    assert!(world.has_component(second, HEALTH));
    assert!(!world.has_component(first, SPEED));
}

#[test]
fn entities_with_the_same_types_share_one_archetype() {
    let mut world = World::new();
    let first = world.spawn(bundle_of(vec![
        (NAME, Component::Name("Link")),
        (HEALTH, Component::Health(100)),
    ]));
    let second = world.spawn(bundle_of(vec![
        (HEALTH, Component::Health(7)),
        (NAME, Component::Name("Zelda")),
    ]));
    let third = world.spawn(bundle_of(vec![(NAME, Component::Name("Epona"))]));
    assert_eq!(world.archetype_count(), 2);
    assert_eq!(
        world.entity_location(first),
        Some(EntityLocation { archetype_id: 0, index_in_archetype: 0 })
    );
    assert_eq!(
        world.entity_location(second),
        Some(EntityLocation { archetype_id: 0, index_in_archetype: 1 })
    );
    assert_eq!(
        world.entity_location(third),
        Some(EntityLocation { archetype_id: 1, index_in_archetype: 0 })
    );
}

#[test]
fn migration_keeps_the_other_components() {
    let mut world = World::new();
    let entity = world.spawn(bundle_of(vec![
        (NAME, Component::Name("Link")),
        (HEALTH, Component::Health(100)),
    ]));
    world.add_component(entity, SPEED, Component::Speed(5)).unwrap();
    assert_eq!(world.get_component(entity, NAME), Some(&Component::Name("Link")));
    world.remove_component(entity, HEALTH).unwrap();
    assert_eq!(world.get_component(entity, NAME), Some(&Component::Name("Link")));
    assert_eq!(world.get_component(entity, SPEED), Some(&Component::Speed(5)));
    assert_eq!(world.get_component(entity, HEALTH), None);
    assert!(world.has_component(entity, NAME));
    assert!(world.has_component(entity, SPEED));
    assert!(!world.has_component(entity, HEALTH));
    assert_eq!(world.entity_count(), 1);
}

#[test]
fn removing_the_first_row_moves_the_last_entity_into_it() {
    let mut world = World::new();
    let e0 = world.spawn(bundle_of(vec![(HEALTH, Component::Health(0))]));
    let e1 = world.spawn(bundle_of(vec![(HEALTH, Component::Health(1))]));
    let e2 = world.spawn(bundle_of(vec![(HEALTH, Component::Health(2))]));
    world.remove(e0);
    assert!(!world.is_live(e0));
    assert_eq!(world.get_component(e0, HEALTH), None);
    assert_eq!(world.get_component(e1, HEALTH), Some(&Component::Health(1)));
    assert_eq!(world.get_component(e2, HEALTH), Some(&Component::Health(2)));
    assert_eq!(
        world.entity_location(e2),
        Some(EntityLocation { archetype_id: 0, index_in_archetype: 0 })
    );
    assert_eq!(
        world.entity_location(e1),
        Some(EntityLocation { archetype_id: 0, index_in_archetype: 1 })
    );
    assert_eq!(world.entity_location(e0), None);
    assert_eq!(world.entity_count(), 2);
}

#[test]
fn migration_tells_the_displaced_entity_its_new_row() {
    let mut world = World::new();
    let e0 = world.spawn(bundle_of(vec![(HEALTH, Component::Health(0))]));
    let e1 = world.spawn(bundle_of(vec![(HEALTH, Component::Health(1))]));
    let e2 = world.spawn(bundle_of(vec![(HEALTH, Component::Health(2))]));
    world.add_component(e0, SPEED, Component::Speed(9)).unwrap();
    assert_eq!(
        world.entity_location(e0),
        Some(EntityLocation { archetype_id: 1, index_in_archetype: 0 })
    );
    assert_eq!(
        world.entity_location(e2),
        Some(EntityLocation { archetype_id: 0, index_in_archetype: 0 })
    );
    assert_eq!(
        world.entity_location(e1),
        Some(EntityLocation { archetype_id: 0, index_in_archetype: 1 })
    );
    assert_eq!(world.get_component(e0, HEALTH), Some(&Component::Health(0)));
    assert_eq!(world.get_component(e0, SPEED), Some(&Component::Speed(9)));
    assert_eq!(world.get_component(e1, HEALTH), Some(&Component::Health(1)));
    assert_eq!(world.get_component(e2, HEALTH), Some(&Component::Health(2)));
}

#[test]
fn old_handle_is_dead_after_its_index_is_reused() {
    let mut world = World::new();
    let old = world.spawn(bundle_of(vec![(HEALTH, Component::Health(1))]));
    world.remove(old);
    let new = world.spawn(bundle_of(vec![(HEALTH, Component::Health(2))]));
    assert_eq!(new.index, old.index);
    assert_eq!(new.generation, old.generation + 1);
    assert!(!world.is_live(old));
    assert!(world.is_live(new));
    assert!(!world.has_component(old, HEALTH));
    assert_eq!(world.get_component(old, HEALTH), None);
    assert_eq!(world.get_component(new, HEALTH), Some(&Component::Health(2)));
    assert_eq!(
        world.add_component(old, SPEED, Component::Speed(1)),
        Err(EcsError::EntityErr(EntityError::DoesNotExist))
    );
    assert_eq!(
        world.remove_component(old, HEALTH),
        Err(EcsError::EntityErr(EntityError::DoesNotExist))
    );
    world.remove(old);
    assert!(world.is_live(new));
    assert_eq!(world.entity_count(), 1);
}

#[test]
fn adding_a_type_twice_overwrites_in_place() {
    let mut world = World::new();
    let entity = world.spawn(bundle_of(vec![
        (NAME, Component::Name("Link")),
        (HEALTH, Component::Health(100)),
    ]));
    let archetypes = world.archetype_count();
    let location = world.entity_location(entity);
    world.add_component(entity, HEALTH, Component::Health(55)).unwrap();
    assert_eq!(world.archetype_count(), archetypes);
    assert_eq!(world.entity_location(entity), location);
    assert_eq!(world.get_component(entity, HEALTH), Some(&Component::Health(55)));
    assert_eq!(world.get_component(entity, NAME), Some(&Component::Name("Link")));
}

#[test]
fn link_gains_speed_and_keeps_health() {
    let mut world = World::new();
    let link = world.spawn(((NAME, Component::Name("Link")), (HEALTH, Component::Health(100))));
    assert_eq!(world.archetype_count(), 1);
    assert_eq!(
        world.entity_location(link),
        Some(EntityLocation { archetype_id: 0, index_in_archetype: 0 })
    );
    world.add_component(link, SPEED, Component::Speed(5)).unwrap();
    assert_eq!(world.archetype_count(), 2);
    assert_eq!(
        world.entity_location(link),
        Some(EntityLocation { archetype_id: 1, index_in_archetype: 0 })
    );
    let parameters = vec![ecs::queries::query_parameters::QueryParameter::Read(NAME)];
    let found = world.query(&parameters).unwrap();
    assert_eq!(found.len(), 2);
    assert_eq!(found.archetype_id(0), 0);
    assert_eq!(found.entities(0).len(), 0);
    assert_eq!(found.column(0, 0).len(), 0);
    assert_eq!(found.archetype_id(1), 1);
    assert_eq!(found.entities(1), &vec![link.index]);
    assert_eq!(world.get_component(link, HEALTH), Some(&Component::Health(100)));
}

#[test]
fn removing_a_missing_component_is_refused() {
    let mut world = World::new();
    let entity = world.spawn(bundle_of(vec![(NAME, Component::Name("Link"))]));
    assert_eq!(
        world.remove_component(entity, HEALTH),
        Err(EcsError::ArchetypeErr(ArchetypeError::ComponentMissing))
    );
    assert_eq!(world.get_component(entity, NAME), Some(&Component::Name("Link")));
    assert_eq!(world.archetype_count(), 1);
}

#[test]
fn components_of_a_handle_never_given_out_are_refused() {
    let mut world: World<Component> = World::new();
    let nobody = Entity { index: 3, generation: 0 };
    assert_eq!(
        world.add_component(nobody, HEALTH, Component::Health(1)),
        Err(EcsError::EntityErr(EntityError::DoesNotExist))
    );
    assert_eq!(
        world.remove_component(nobody, HEALTH),
        Err(EcsError::EntityErr(EntityError::DoesNotExist))
    );
    assert!(!world.has_component(nobody, HEALTH));
    world.remove(nobody);
    assert_eq!(world.entity_count(), 0);
}

#[test]
fn removing_the_only_component_leaves_an_entity_without_components() {
    let mut world = World::new();
    let entity = world.spawn(bundle_of(vec![(NAME, Component::Name("Link"))]));
    world.remove_component(entity, NAME).unwrap();
    assert!(world.is_live(entity));
    assert!(!world.has_component(entity, NAME));
    assert_eq!(world.archetype_count(), 2);
    let empty = world.spawn(bundle_of(vec![]));
    assert_eq!(world.archetype_count(), 2);
    assert_eq!(
        world.entity_location(empty),
        Some(EntityLocation { archetype_id: 1, index_in_archetype: 1 })
    );
}

#[test]
fn removal_reuses_the_existing_archetype() {
    let mut world = World::new();
    let plain = world.spawn(bundle_of(vec![(NAME, Component::Name("Epona"))]));
    let rich = world.spawn(bundle_of(vec![
        (HEALTH, Component::Health(3)),
        (NAME, Component::Name("Link")),
    ]));
    assert_eq!(world.archetype_count(), 2);
    world.remove_component(rich, HEALTH).unwrap();
    assert_eq!(world.archetype_count(), 2);
    assert_eq!(
        world.entity_location(rich),
        Some(EntityLocation { archetype_id: 0, index_in_archetype: 1 })
    );
    assert_eq!(
        world.entity_location(plain),
        Some(EntityLocation { archetype_id: 0, index_in_archetype: 0 })
    );
    assert_eq!(world.get_component(rich, NAME), Some(&Component::Name("Link")));
}

#[test]
fn update_changes_nothing() {
    let mut world = World::new();
    let entity = world.spawn(bundle_of(vec![(HEALTH, Component::Health(100))]));
    world.update(16);
    assert_eq!(world.entity_count(), 1);
    assert_eq!(world.get_component(entity, HEALTH), Some(&Component::Health(100)));
}

#[test]
fn many_entities_come_and_go() {
    let mut world = World::new();
    let mut entities = Vec::new();
    for i in 0..20usize {
        let entity = if i % 2 == 0 {
            world.spawn(bundle_of(vec![(HEALTH, Component::Health(i))]))
        } else {
            world.spawn(bundle_of(vec![
                (HEALTH, Component::Health(i)),
                (SPEED, Component::Speed(i + 100)),
            ]))
        };
        entities.push(entity);
    }
    for i in 0..20usize {
        if i % 3 == 0 {
            world.remove(entities[i]);
        } else if i % 3 == 1 {
            if world.has_component(entities[i], SPEED) {
                world.remove_component(entities[i], SPEED).unwrap();
            } else {
                world.add_component(entities[i], SPEED, Component::Speed(i + 100)).unwrap();
            }
        }
    }
    let mut live = 0;
    for i in 0..20usize {
        if i % 3 == 0 {
            assert!(!world.is_live(entities[i]));
            continue;
        }
        live += 1;
        assert_eq!(world.get_component(entities[i], HEALTH), Some(&Component::Health(i)));
        let has_speed = if i % 3 == 1 { i % 2 == 0 } else { i % 2 == 1 };
        assert_eq!(world.has_component(entities[i], SPEED), has_speed);
        if has_speed {
            assert_eq!(world.get_component(entities[i], SPEED), Some(&Component::Speed(i + 100)));
        }
    }
    assert_eq!(world.entity_count(), live);
    assert_eq!(world.archetype_count(), 2);
}

#[test]
fn tuples_are_bundles_in_any_order() {
    let mut world = World::new();
    let first = world.spawn(((NAME, Component::Name("Link")), (HEALTH, Component::Health(100))));
    let second = world.spawn(((HEALTH, Component::Health(7)), (NAME, Component::Name("Zelda"))));
    let third = world.spawn((
        (SPEED, Component::Speed(3)),
        (NAME, Component::Name("Epona")),
        (HEALTH, Component::Health(50)),
    ));
    let fourth = world.spawn(bundle_of(vec![
        (HEALTH, Component::Health(1)),
        (SPEED, Component::Speed(2)),
        (NAME, Component::Name("Navi")),
    ]));
    assert_eq!(world.archetype_count(), 2);
    assert_eq!(world.entity_location(first).unwrap().archetype_id, 0);
    assert_eq!(world.entity_location(second).unwrap().archetype_id, 0);
    assert_eq!(world.entity_location(third).unwrap().archetype_id, 1);
    assert_eq!(world.entity_location(fourth).unwrap().archetype_id, 1);
    assert_eq!(world.get_component(second, NAME), Some(&Component::Name("Zelda")));
    assert_eq!(world.get_component(second, HEALTH), Some(&Component::Health(7)));
    assert_eq!(world.get_component(third, SPEED), Some(&Component::Speed(3)));
    assert_eq!(world.get_component(third, NAME), Some(&Component::Name("Epona")));
    assert_eq!(world.get_component(third, HEALTH), Some(&Component::Health(50)));
    assert_eq!(world.get_component(fourth, SPEED), Some(&Component::Speed(2)));
}

#[test]
fn four_components_are_a_bundle() {
    let mut world = World::new();
    let entity = world.spawn((
        (SPEED, Component::Speed(3)),
        (NAME, Component::Name("Epona")),
        (TEXT, Component::Text("horse")),
        (HEALTH, Component::Health(50)),
    ));
    assert_eq!(world.get_component(entity, SPEED), Some(&Component::Speed(3)));
    assert_eq!(world.get_component(entity, NAME), Some(&Component::Name("Epona")));
    assert_eq!(world.get_component(entity, TEXT), Some(&Component::Text("horse")));
    assert_eq!(world.get_component(entity, HEALTH), Some(&Component::Health(50)));
    assert!(!world.has_component(entity, NUMBER));
    let parameters = vec![ecs::queries::query_parameters::QueryParameter::Read(TEXT)];
    let found = world.query(&parameters).unwrap();
    assert_eq!(found.fetch(0).columns, vec![&vec![Component::Text("horse")]]);
}

#[test]
fn tuples_of_five_to_fifteen_components_are_bundles() {
    let mut world: World<u64> = World::new();
    let five = world.spawn(((5, 50), (4, 40), (3, 30), (2, 20), (1, 10)));
    let six = world.spawn(((1, 11), (2, 21), (3, 31), (4, 41), (5, 51), (6, 61)));
    let seven = world.spawn(((1, 1), (2, 2), (3, 3), (4, 4), (5, 5), (6, 6), (7, 7)));
    let eight = world.spawn(((1, 1), (2, 2), (3, 3), (4, 4), (5, 5), (6, 6), (7, 7), (8, 8)));
    let nine = world.spawn((
        (1, 1), (2, 2), (3, 3), (4, 4), (5, 5), (6, 6), (7, 7), (8, 8), (9, 9),
    ));
    let ten = world.spawn((
        (1, 1), (2, 2), (3, 3), (4, 4), (5, 5), (6, 6), (7, 7), (8, 8), (9, 9), (10, 10),
    ));
    let eleven = world.spawn((
        (1, 1), (2, 2), (3, 3), (4, 4), (5, 5), (6, 6), (7, 7), (8, 8), (9, 9), (10, 10),
        (11, 11),
    ));
    let twelve = world.spawn((
        (1, 1), (2, 2), (3, 3), (4, 4), (5, 5), (6, 6), (7, 7), (8, 8), (9, 9), (10, 10),
        (11, 11), (12, 12),
    ));
    let thirteen = world.spawn((
        (1, 1), (2, 2), (3, 3), (4, 4), (5, 5), (6, 6), (7, 7), (8, 8), (9, 9), (10, 10),
        (11, 11), (12, 12), (13, 13),
    ));
    let fourteen = world.spawn((
        (1, 1), (2, 2), (3, 3), (4, 4), (5, 5), (6, 6), (7, 7), (8, 8), (9, 9), (10, 10),
        (11, 11), (12, 12), (13, 13), (14, 14),
    ));
    let fifteen = world.spawn((
        (15, 150), (14, 140), (13, 130), (12, 120), (11, 110), (10, 100), (9, 90), (8, 80),
        (7, 70), (6, 60), (5, 50), (4, 40), (3, 30), (2, 20), (1, 10),
    ));
    assert_eq!(world.archetype_count(), 11);
    assert_eq!(world.entity_count(), 11);
    assert_eq!(world.get_component(five, 3), Some(&30));
    assert_eq!(world.get_component(five, 6), None);
    assert_eq!(world.get_component(six, 6), Some(&61));
    assert_eq!(world.get_component(seven, 7), Some(&7));
    assert_eq!(world.get_component(eight, 8), Some(&8));
    assert_eq!(world.get_component(nine, 9), Some(&9));
    assert_eq!(world.get_component(ten, 10), Some(&10));
    assert_eq!(world.get_component(eleven, 11), Some(&11));
    assert_eq!(world.get_component(twelve, 12), Some(&12));
    assert_eq!(world.get_component(thirteen, 13), Some(&13));
    assert_eq!(world.get_component(fourteen, 14), Some(&14));
    for type_id in 1..=15u64 {
        assert_eq!(world.get_component(fifteen, type_id), Some(&(type_id * 10)));
    }
    let again = world.spawn((
        (1, 0), (2, 0), (3, 0), (4, 0), (5, 0), (6, 0), (7, 0), (8, 0), (9, 0), (10, 0),
        (11, 0), (12, 0), (13, 0), (14, 0), (15, 0),
    ));
    assert_eq!(world.archetype_count(), 11);
    assert_eq!(
        world.entity_location(again).unwrap().archetype_id,
        world.entity_location(fifteen).unwrap().archetype_id
    );
}

#[test]
fn spawn_creates_an_archetype_only_for_a_new_set_of_types() {
    let mut world: World<u64> = World::new();
    let e0 = world.spawn(((7, 1), (9, 2)));
    assert_eq!(world.archetype_count(), 1);
    let e1 = world.spawn(((9, 3), (7, 4)));
    assert_eq!(world.archetype_count(), 1);
    assert_eq!(
        world.entity_location(e1),
        Some(EntityLocation { archetype_id: 0, index_in_archetype: 1 })
    );
    let found = world.query(&Vec::new()).unwrap();
    assert_eq!(found.entities(0), &vec![e0.index, e1.index]);
    world.add_component(e0, 11, 5).unwrap();
    assert_eq!(world.archetype_count(), 2);
    world.add_component(e1, 11, 6).unwrap();
    assert_eq!(world.archetype_count(), 2);
    world.remove_component(e0, 11).unwrap();
    assert_eq!(world.archetype_count(), 2);
    assert_eq!(
        world.entity_location(e0),
        Some(EntityLocation { archetype_id: 0, index_in_archetype: 0 })
    );
    assert_eq!(world.get_component(e0, 7), Some(&1));
    assert_eq!(world.get_component(e0, 9), Some(&2));
}
