use ecs::entities::{Entities, Entity, EntityEntry, EntityError, EntityLocation};

#[test]
fn entity_new_keeps_its_arguments() {
    let entity = Entity::new(4, 9);
    assert_eq!(entity.index, 4);
    assert_eq!(entity.generation, 9);
    assert_eq!(entity, Entity { index: 4, generation: 9 });
    assert_ne!(entity, Entity { index: 4, generation: 8 });
    assert_ne!(entity, Entity { index: 5, generation: 9 });
}

#[test]
fn location_and_entry_new_keep_their_arguments() {
    let location = EntityLocation::new(2, 7);
    assert_eq!(location.archetype_id, 2);
    assert_eq!(location.index_in_archetype, 7);
    let entry = EntityEntry::new(true, 3, 2, 7);
    assert!(entry.is_live);
    assert_eq!(entry.generation, 3);
    assert_eq!(entry.location, location);
}

#[test]
fn first_allocations_get_fresh_indices_of_generation_zero() {
    let mut table = Entities::new();
    assert_eq!(table.len(), 0);
    assert_eq!(table.count(), 0);
    assert!(table.has_room());
    assert_eq!(table.allocate(), Ok(Entity { index: 0, generation: 0 }));
    assert_eq!(table.allocate(), Ok(Entity { index: 1, generation: 0 }));
    assert_eq!(table.len(), 2);
    assert_eq!(table.count(), 2);
    assert_eq!(
        table.live_at_index(1),
        Some(&EntityEntry::new(true, 0, 0, 0))
    );
}

#[test]
fn allocate_reuses_the_most_recently_freed_index() {
    let mut table = Entities::new();
    let a = table.allocate().unwrap();
    let b = table.allocate().unwrap();
    let c = table.allocate().unwrap();
    assert_eq!(table.deallocate(a), Ok(()));
    assert_eq!(table.deallocate(c), Ok(()));
    assert_eq!(table.count(), 1);
    assert_eq!(table.allocate(), Ok(Entity { index: 2, generation: 1 }));
    assert_eq!(table.allocate(), Ok(Entity { index: 0, generation: 1 }));
    assert_eq!(table.allocate(), Ok(Entity { index: 3, generation: 0 }));
    assert!(table.is_live(b));
    assert!(!table.is_live(a));
    assert!(!table.is_live(c));
    assert_eq!(table.len(), 4);
    assert_eq!(table.count(), 4);
}

#[test]
fn deallocate_reports_what_is_wrong() {
    let mut table = Entities::new();
    let a = table.allocate().unwrap();
    assert_eq!(
        table.deallocate(Entity { index: 1, generation: 0 }),
        Err(EntityError::DoesNotExist)
    );
    assert_eq!(table.deallocate(a), Ok(()));
    assert_eq!(table.deallocate(a), Err(EntityError::AlreadyDeallocated));
    assert_eq!(table.live_at_index(0), None);
    assert_eq!(table.live_at_index(5), None);
    assert!(!table.is_live(a));
    assert!(!table.is_live(Entity { index: 9, generation: 0 }));
}

#[test]
fn deallocate_does_not_look_at_the_generation() {
    let mut table = Entities::new();
    let a = table.allocate().unwrap();
    table.deallocate(a).unwrap();
    let again = table.allocate().unwrap();
    assert_eq!(again, Entity { index: 0, generation: 1 });
    assert_eq!(table.deallocate(a), Ok(()));
    assert!(!table.is_live(again));
    assert_eq!(table.allocate(), Ok(Entity { index: 0, generation: 2 }));
}

#[test]
fn set_location_overwrites_live_slots_only() {
    let mut table = Entities::new();
    let a = table.allocate().unwrap();
    let b = table.allocate().unwrap();
    let location = EntityLocation::new(3, 8);
    assert_eq!(table.set_location(a.index, location), Ok(()));
    assert_eq!(table.live_at_index(0).unwrap().location, location);
    assert_eq!(table.live_at_index(1).unwrap().location, EntityLocation::new(0, 0));
    assert_eq!(table.set_location(2, location), Err(EntityError::DoesNotExist));
    table.deallocate(b).unwrap();
    assert_eq!(table.set_location(b.index, location), Err(EntityError::AlreadyDeallocated));
}

#[test]
fn a_freed_slot_keeps_its_location_for_the_next_owner() {
    let mut table = Entities::new();
    let a = table.allocate().unwrap();
    table.set_location(a.index, EntityLocation::new(1, 2)).unwrap();
    table.deallocate(a).unwrap();
    let b = table.allocate().unwrap();
    assert_eq!(b, Entity { index: 0, generation: 1 });
    assert_eq!(
        table.live_at_index(0),
        Some(&EntityEntry::new(true, 1, 1, 2))
    );
}

#[test]
fn default_table_is_empty() {
    let mut table = Entities::default();
    assert_eq!(table.len(), 0);
    assert_eq!(table.count(), 0);
    assert_eq!(table.allocate(), Ok(Entity { index: 0, generation: 0 }));
}
