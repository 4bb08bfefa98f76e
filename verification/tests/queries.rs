use ecs::bundles::Bundle;
use ecs::queries::error::FetchError;
use ecs::queries::query::{query, query_mut};
use ecs::queries::query_parameters::{
    has_conflict, QueryParameter, QueryParameterFetchRead, QueryParameterFetchWrite,
};
use ecs::world::{EcsError, World};

const NAME: u64 = 1;
const HEALTH: u64 = 2;
const SPEED: u64 = 3;

fn bundle_of(components: &[(u64, i64)]) -> Bundle<i64> {
    let mut bundle = Bundle::new();
    for (type_id, value) in components {
        bundle.insert(*type_id, *value);
    }
    bundle
}

fn sample_world() -> World<i64> {
    let mut world = World::new();
    world.spawn(bundle_of(&[(NAME, 10), (HEALTH, 20)]));
    world.spawn(bundle_of(&[(NAME, 11)]));
    world.spawn(bundle_of(&[(HEALTH, 22), (NAME, 12), (SPEED, 32)]));
    world.spawn(bundle_of(&[(NAME, 13), (HEALTH, 23)]));
    world
}

#[test]
fn parameters_know_their_type_and_access() {
    assert_eq!(QueryParameter::Read(5).type_id(), 5);
    assert_eq!(QueryParameter::Write(6).type_id(), 6);
    assert!(!QueryParameter::Read(5).is_exclusive());
    assert!(QueryParameter::Write(5).is_exclusive());
}

#[test]
fn conflicts_need_one_type_and_a_writer() {
    assert!(!has_conflict(&vec![]));
    assert!(!has_conflict(&vec![QueryParameter::Read(1), QueryParameter::Read(1)]));
    assert!(!has_conflict(&vec![QueryParameter::Write(1), QueryParameter::Write(2)]));
    assert!(has_conflict(&vec![QueryParameter::Write(1), QueryParameter::Read(1)]));
    assert!(has_conflict(&vec![QueryParameter::Read(1), QueryParameter::Write(1)]));
    assert!(has_conflict(&vec![QueryParameter::Write(1), QueryParameter::Write(1)]));
    assert!(has_conflict(&vec![
        QueryParameter::Read(3),
        QueryParameter::Write(1),
        QueryParameter::Read(2),
        QueryParameter::Read(1),
    ]));
}

#[test]
fn query_lists_every_archetype_with_all_types() {
    let world = sample_world();
    let parameters = vec![QueryParameter::Read(HEALTH), QueryParameter::Read(NAME)];
    let found = world.query(&parameters).unwrap();
    assert_eq!(found.len(), 2);
    assert_eq!(found.archetype_id(0), 0);
    assert_eq!(found.archetype_id(1), 2);
    assert_eq!(found.entities(0), &vec![0, 3]);
    assert_eq!(found.column(0, 0), &vec![20, 23]);
    assert_eq!(found.column(0, 1), &vec![10, 13]);
    assert_eq!(found.entities(1), &vec![2]);
    assert_eq!(found.column(1, 0), &vec![22]);
    assert_eq!(found.column(1, 1), &vec![12]);
}

#[test]
fn query_without_parameters_lists_every_archetype() {
    let world = sample_world();
    let found = world.query(&vec![]).unwrap();
    assert_eq!(found.len(), 3);
    assert_eq!(found.entities(1), &vec![1]);
}

#[test]
fn query_refuses_conflicting_access() {
    let world = sample_world();
    let parameters = vec![QueryParameter::Write(NAME), QueryParameter::Read(NAME)];
    assert_eq!(
        world.query(&parameters).err(),
        Some(EcsError::QueryErr(FetchError::ConflictingAccess))
    );
    assert_eq!(query(&world, &parameters).err(), Some(FetchError::ConflictingAccess));
}

#[test]
fn query_that_nothing_matches_finds_nothing() {
    let world = sample_world();
    let parameters = vec![QueryParameter::Read(99)];
    assert!(query(&world, &parameters).unwrap().is_none());
    assert_eq!(
        world.query(&parameters).err(),
        Some(EcsError::QueryErr(FetchError::ArchetypeMissing))
    );
    let empty: World<i64> = World::new();
    assert!(query(&empty, &vec![]).unwrap().is_none());
}

#[test]
fn fetch_for_reading_hands_out_the_column() {
    let world = sample_world();
    assert_eq!(QueryParameterFetchRead::fetch(&world, 0, NAME), Ok(&vec![10, 13]));
    assert_eq!(QueryParameterFetchRead::fetch(&world, 1, NAME), Ok(&vec![11]));
    assert_eq!(
        QueryParameterFetchRead::fetch(&world, 1, HEALTH),
        Err(FetchError::ComponentMissing)
    );
    assert_eq!(
        QueryParameterFetchRead::fetch(&world, 3, NAME),
        Err(FetchError::ArchetypeMissing)
    );
}

#[test]
fn fetch_for_writing_changes_the_components() {
    let mut world = sample_world();
    {
        let column = QueryParameterFetchWrite::fetch(&mut world, 0, HEALTH).unwrap();
        assert_eq!(column.len(), 2);
        for value in column.iter_mut() {
            *value += 100;
        }
    }
    assert_eq!(QueryParameterFetchRead::fetch(&world, 0, HEALTH), Ok(&vec![120, 123]));
    assert_eq!(QueryParameterFetchRead::fetch(&world, 0, NAME), Ok(&vec![10, 13]));
    assert_eq!(QueryParameterFetchRead::fetch(&world, 2, HEALTH), Ok(&vec![22]));
    assert_eq!(
        QueryParameterFetchWrite::fetch(&mut world, 1, HEALTH).err(),
        Some(FetchError::ComponentMissing)
    );
    assert_eq!(
        QueryParameterFetchWrite::fetch(&mut world, 7, HEALTH).err(),
        Some(FetchError::ArchetypeMissing)
    );
}

#[test]
fn query_returns_what_was_spawned_in_either_order() {
    let mut world = World::new();
    let first = world.spawn(bundle_of(&[(NAME, 1), (HEALTH, 2)]));
    let second = world.spawn(bundle_of(&[(HEALTH, 4), (NAME, 3)]));
    let parameters = vec![QueryParameter::Read(NAME), QueryParameter::Read(HEALTH)];
    let found = query(&world, &parameters).unwrap().unwrap();
    assert_eq!(found.len(), 1);
    assert_eq!(found.entities(0), &vec![first.index, second.index]);
    assert_eq!(found.column(0, 0), &vec![1, 3]);
    assert_eq!(found.column(0, 1), &vec![2, 4]);
    let parameters = vec![QueryParameter::Read(NAME), QueryParameter::Write(HEALTH)];
    let found = query_mut(&mut world, &parameters).ok().unwrap().unwrap();
    assert_eq!(found.len(), 1);
    assert_eq!(found.entities(0), &vec![first.index, second.index]);
    assert_eq!(found.column(0, 0), &vec![1, 3]);
    assert_eq!(found.column(0, 1), &vec![2, 4]);
}

#[test]
fn two_reads_of_one_type_are_served_together() {
    let world = sample_world();
    let parameters = vec![QueryParameter::Read(SPEED), QueryParameter::Read(SPEED)];
    let found = world.query(&parameters).unwrap();
    assert_eq!(found.len(), 1);
    assert_eq!(found.archetype_id(0), 2);
    assert_eq!(found.column(0, 0), &vec![32]);
    assert_eq!(found.column(0, 1), &vec![32]);
}

#[test]
fn fetch_hands_out_one_column_per_parameter() {
    let world = sample_world();
    let parameters = vec![
        QueryParameter::Read(HEALTH),
        QueryParameter::Read(NAME),
        QueryParameter::Read(HEALTH),
    ];
    let found = world.query(&parameters).unwrap();
    let first = found.fetch(0);
    assert_eq!(first.archetype_id, 0);
    assert_eq!(first.entities, &vec![0, 3]);
    assert_eq!(first.columns, vec![&vec![20, 23], &vec![10, 13], &vec![20, 23]]);
    let second = found.fetch(1);
    assert_eq!(second.archetype_id, 2);
    assert_eq!(second.entities, &vec![2]);
    assert_eq!(second.columns, vec![&vec![22], &vec![12], &vec![22]]);
    let all = world.query(&vec![]).unwrap();
    assert!(all.fetch(1).columns.is_empty());
}

#[test]
fn tuples_of_parameters_are_queries() {
    let world = sample_world();
    let one = world.query(&(QueryParameter::Read(SPEED),)).unwrap();
    assert_eq!(one.len(), 1);
    assert_eq!(one.column(0, 0), &vec![32]);
    let two = world.query(&(QueryParameter::Read(NAME), QueryParameter::Read(HEALTH))).unwrap();
    assert_eq!(two.len(), 2);
    assert_eq!(two.column(0, 0), &vec![10, 13]);
    assert_eq!(two.column(0, 1), &vec![20, 23]);
    let three = world
        .query(&(
            QueryParameter::Read(NAME),
            QueryParameter::Read(HEALTH),
            QueryParameter::Read(SPEED),
        ))
        .unwrap();
    assert_eq!(three.len(), 1);
    assert_eq!(three.fetch(0).columns, vec![&vec![12], &vec![22], &vec![32]]);
    let four = query(
        &world,
        &(
            QueryParameter::Read(NAME),
            QueryParameter::Read(HEALTH),
            QueryParameter::Read(SPEED),
            QueryParameter::Write(NAME),
        ),
    );
    assert_eq!(four.err(), Some(FetchError::ConflictingAccess));
}

#[test]
fn a_shared_query_gives_no_exclusive_access() {
    let world = sample_world();
    assert_eq!(
        world.query(&(QueryParameter::Write(NAME),)).err(),
        Some(EcsError::QueryErr(FetchError::ConflictingAccess))
    );
    assert_eq!(
        world.query(&(QueryParameter::Read(HEALTH), QueryParameter::Write(NAME))).err(),
        Some(EcsError::QueryErr(FetchError::ConflictingAccess))
    );
    assert_eq!(
        query(&world, &vec![QueryParameter::Write(99)]).err(),
        Some(FetchError::ConflictingAccess)
    );
}

#[test]
fn shared_queries_live_side_by_side() {
    let world = sample_world();
    let first = world.query(&(QueryParameter::Read(NAME),)).unwrap();
    let second = world.query(&(QueryParameter::Read(NAME), QueryParameter::Read(HEALTH))).unwrap();
    assert_eq!(first.column(0, 0), &vec![10, 13]);
    assert_eq!(second.column(0, 0), &vec![10, 13]);
    assert_eq!(first.len(), 3);
    assert_eq!(second.len(), 2);
}

#[test]
fn an_exclusive_query_writes_what_it_asked_to_write() {
    let mut world = sample_world();
    {
        let mut found = world
            .query_mut(&(QueryParameter::Write(HEALTH), QueryParameter::Read(NAME)))
            .ok()
            .unwrap();
        assert_eq!(found.len(), 2);
        assert_eq!(found.archetype_id(0), 0);
        assert_eq!(found.archetype_id(1), 2);
        assert_eq!(found.entities(1), &vec![2]);
        for chunk in 0..found.len() {
            let names = found.column(chunk, 1).clone();
            let health = found.column_mut(chunk, 0).unwrap();
            assert_eq!(health.len(), names.len());
            for row in 0..health.len() {
                health[row] += names[row] * 1000;
            }
        }
        assert_eq!(found.column(0, 0), &vec![10020, 13023]);
        assert_eq!(found.column(1, 0), &vec![12022]);
        assert_eq!(
            found.column_mut(0, 1).err(),
            Some(FetchError::ConflictingAccess)
        );
        assert_eq!(found.column(0, 1), &vec![10, 13]);
    }
    assert_eq!(QueryParameterFetchRead::fetch(&world, 0, HEALTH), Ok(&vec![10020, 13023]));
    assert_eq!(QueryParameterFetchRead::fetch(&world, 2, HEALTH), Ok(&vec![12022]));
    assert_eq!(QueryParameterFetchRead::fetch(&world, 1, NAME), Ok(&vec![11]));
}

#[test]
fn an_exclusive_query_refuses_conflicts_and_reports_no_match() {
    let mut world = sample_world();
    assert_eq!(
        world
            .query_mut(&(QueryParameter::Write(NAME), QueryParameter::Read(NAME)))
            .err(),
        Some(EcsError::QueryErr(FetchError::ConflictingAccess))
    );
    assert_eq!(
        world
            .query_mut(&(QueryParameter::Write(NAME), QueryParameter::Write(NAME)))
            .err(),
        Some(EcsError::QueryErr(FetchError::ConflictingAccess))
    );
    assert_eq!(
        world.query_mut(&(QueryParameter::Write(99),)).err(),
        Some(EcsError::QueryErr(FetchError::ArchetypeMissing))
    );
    assert!(query_mut(&mut world, &vec![QueryParameter::Write(99)])
        .ok()
        .unwrap()
        .is_none());
    assert_eq!(
        query_mut(&mut world, &vec![QueryParameter::Read(NAME), QueryParameter::Write(NAME)]).err(),
        Some(FetchError::ConflictingAccess)
    );
    let both = world
        .query_mut(&(QueryParameter::Read(NAME), QueryParameter::Read(NAME)))
        .ok()
        .unwrap();
    assert_eq!(both.len(), 3);
}
