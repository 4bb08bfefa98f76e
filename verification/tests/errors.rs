use ecs::archetype::ArchetypeError;
use ecs::entities::EntityError;
use ecs::queries::error::FetchError;
use ecs::world::EcsError;

#[test]
fn archetype_errors_say_what_is_missing() {
    assert_eq!(ArchetypeError::EntityMissing.message(), "Archetype does not contain Entity");
    assert_eq!(
        ArchetypeError::ComponentMissing.message(),
        "Archetype does not contain Component"
    );
    assert_eq!(
        ArchetypeError::UnderCapacity.message(),
        "Index exceeds Archetype's entity vec"
    );
}

#[test]
fn entity_errors_say_what_is_wrong_with_the_slot() {
    assert_eq!(EntityError::DoesNotExist.message(), "Entity does not exist");
    assert_eq!(
        EntityError::AlreadyAllocated.message(),
        "An entity with this ID was already allocated and is still live"
    );
    assert_eq!(
        EntityError::AlreadyDeallocated.message(),
        "An entity with this ID was already deallocated and is no longer live"
    );
}

#[test]
fn fetch_errors_say_what_could_not_be_fetched() {
    assert_eq!(
        FetchError::ArchetypeMissing.message(),
        "No archetype has the requested components"
    );
    assert_eq!(
        FetchError::ComponentMissing.message(),
        "Archetype does not contain the requested component"
    );
    assert_eq!(
        FetchError::ConflictingAccess.message(),
        "A component is requested twice, and at least once for writing"
    );
}

#[test]
fn world_errors_name_the_part_that_refused() {
    assert_eq!(
        EcsError::ArchetypeErr(ArchetypeError::ComponentMissing).message(),
        "Archetype error: Archetype does not contain Component"
    );
    assert_eq!(
        EcsError::EntityErr(EntityError::DoesNotExist).message(),
        "Entity error: Entity does not exist"
    );
    assert_eq!(
        EcsError::QueryErr(FetchError::ConflictingAccess).message(),
        "Query error: A component is requested twice, and at least once for writing"
    );
}
