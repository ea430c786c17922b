use ecs_lib_rs::entities::query::Query;
use ecs_lib_rs::entities::Entities;

const UNSIGNED: u64 = 1;
const FLOAT: u64 = 2;

#[derive(Debug, PartialEq, Clone, Copy)]
enum Num {
    U(u32),
    F(f32),
}

#[test]
fn query_mask_updating_with_component() {
    let mut entities: Entities<Num> = Entities::default();
    entities.register_component(UNSIGNED);
    entities.register_component(FLOAT);

    let mut query = Query::new(&entities);

    query.with_component(UNSIGNED).unwrap();
    query.with_component(FLOAT).unwrap();
    assert_eq!(query.mask(), 3);

    assert_eq!(query.type_ids()[0], UNSIGNED);
    assert_eq!(query.type_ids()[1], FLOAT);
}

#[test]
fn run() {
    let mut entities: Entities<Num> = Entities::default();
    entities.register_component(UNSIGNED);
    entities.register_component(FLOAT);

    entities.create_entity();
    entities.with_component(UNSIGNED, Num::U(10)).unwrap();
    entities.with_component(FLOAT, Num::F(20.0)).unwrap();
    entities.create_entity();
    entities.with_component(UNSIGNED, Num::U(5)).unwrap();
    entities.create_entity();
    entities.with_component(FLOAT, Num::F(50.0)).unwrap();
    entities.create_entity();
    entities.with_component(UNSIGNED, Num::U(15)).unwrap();
    entities.with_component(FLOAT, Num::F(25.0)).unwrap();

    let mut query = Query::new(&entities);

    query.with_component(UNSIGNED).unwrap();
    query.with_component(FLOAT).unwrap();
    let results = query.run();

    assert_eq!(results.1.len(), 2);

    let unsigneds = &results.1[0];
    let floats = &results.1[1];
    let indices = &results.0;

    assert_eq!(unsigneds.len(), 2);
    assert_eq!(floats.len(), 2);
    assert_eq!(indices.len(), 2);

    assert_eq!(indices[0], 0);
    assert_eq!(indices[1], 3);

    assert_eq!(unsigneds[0], Num::U(10));
    assert_eq!(unsigneds[1], Num::U(15));

    assert_eq!(floats[0], Num::F(20.0));
    assert_eq!(floats[1], Num::F(25.0));
}

#[test]
fn query_of_unregistered_type_fails() {
    let mut entities: Entities<Num> = Entities::default();
    entities.register_component(UNSIGNED);

    let mut query = Query::new(&entities);
    assert!(query.with_component(FLOAT).is_err());
    assert_eq!(query.mask(), 0);
}

#[test]
fn empty_query_matches_every_slot() {
    let mut entities: Entities<Num> = Entities::default();
    entities.register_component(UNSIGNED);
    entities.create_entity();
    entities.with_component(UNSIGNED, Num::U(1)).unwrap();
    entities.create_entity();

    let query = Query::new(&entities);
    let results = query.run();
    assert_eq!(results.0, vec![0, 1]);
    assert_eq!(results.1.len(), 0);
}
