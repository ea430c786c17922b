use ecs_lib_rs::entities::Entities;
use ecs_lib_rs::World;

const LOCATION: u64 = 1;
const SIZE: u64 = 2;
const EXTRA: u64 = 3;

#[derive(Debug, PartialEq, Clone, Copy)]
enum Shape {
    Location(f32, f32),
    Size(f32),
    Extra(i32),
}

#[test]
fn register_assigns_bits_in_call_order() {
    let mut entities: Entities<Shape> = Entities::default();
    entities.register_component(SIZE);
    entities.register_component(LOCATION);
    entities.register_component(EXTRA);

    assert_eq!(entities.get_bitmask(SIZE), Some(1));
    assert_eq!(entities.get_bitmask(LOCATION), Some(2));
    assert_eq!(entities.get_bitmask(EXTRA), Some(4));
}

#[test]
fn reregistering_a_known_type_changes_nothing() {
    let mut entities: Entities<Shape> = Entities::default();
    entities.register_component(LOCATION);
    entities.register_component(SIZE);
    entities.create_entity();

    entities.register_component(LOCATION);

    assert_eq!(entities.get_bitmask(LOCATION), Some(1));
    assert_eq!(entities.get_bitmask(SIZE), Some(2));
    assert_eq!(entities.column_len(LOCATION), Some(1));
    assert_eq!(entities.column_len(SIZE), Some(1));
}

#[test]
fn registration_stops_at_mask_width() {
    let mut entities: Entities<Shape> = Entities::default();
    let mut key: u64 = 100;
    while key < 132 {
        entities.register_component(key);
        key += 1;
    }
    assert_eq!(entities.get_bitmask(100), Some(1));
    assert_eq!(entities.get_bitmask(131), Some(1 << 31));

    // All 32 bits are taken: a 33rd distinct type is rejected.
    entities.register_component(999);
    assert_eq!(entities.get_bitmask(999), None);
    assert_eq!(entities.column_len(999), None);
}

#[test]
fn create_grows_every_column_unless_a_slot_is_free() {
    let mut entities: Entities<Shape> = Entities::default();
    entities.register_component(LOCATION);
    entities.register_component(SIZE);

    entities.create_entity();
    entities
        .with_component(LOCATION, Shape::Location(1.0, 2.0))
        .unwrap();
    assert_eq!(entities.column_len(LOCATION), Some(1));
    assert_eq!(entities.column_len(SIZE), Some(1));

    entities.create_entity();
    entities.with_component(SIZE, Shape::Size(3.0)).unwrap();
    assert_eq!(entities.column_len(LOCATION), Some(2));
    assert_eq!(entities.column_len(SIZE), Some(2));

    // Slot 0 becomes free: the next creation reuses it instead of growing.
    entities.delete_by_id(0).unwrap();
    entities.create_entity();
    entities.with_component(SIZE, Shape::Size(4.0)).unwrap();
    assert_eq!(entities.column_len(LOCATION), Some(2));
    assert_eq!(entities.column_len(SIZE), Some(2));
    assert_eq!(entities.entity_mask(0), Some(2));
}

#[test]
fn attach_then_single_type_query_finds_entity() {
    let mut world: World<Shape> = World::new();
    world.register_component(LOCATION);
    world.register_component(SIZE);

    let e = world.create_entity();
    e.with_component(SIZE, Shape::Size(9.0)).unwrap();

    let e = world.create_entity();
    e.with_component(LOCATION, Shape::Location(5.0, 6.0))
        .unwrap();

    let mut query = world.query();
    query.with_component(LOCATION).unwrap();
    let results = query.run();

    assert_eq!(results.0, vec![1]);
    assert_eq!(results.1[0], vec![Shape::Location(5.0, 6.0)]);
}

#[test]
fn deleted_entity_absent_from_queries_and_reuse_is_not_stale() {
    let mut world: World<Shape> = World::new();
    world.register_component(LOCATION);

    let e = world.create_entity();
    e.with_component(LOCATION, Shape::Location(1.0, 1.0))
        .unwrap();
    let e = world.create_entity();
    e.with_component(LOCATION, Shape::Location(2.0, 2.0))
        .unwrap();

    world.delete_entity_by_id(0).unwrap();

    {
        let mut query = world.query();
        query.with_component(LOCATION).unwrap();
        let results = query.run();
        assert_eq!(results.0, vec![1]);
    }

    // The freed slot is reused; after re-attaching, the query sees the
    // fresh value, not the stale one.
    let e = world.create_entity();
    e.with_component(LOCATION, Shape::Location(7.0, 8.0))
        .unwrap();

    let mut query = world.query();
    query.with_component(LOCATION).unwrap();
    let results = query.run();
    assert_eq!(results.0, vec![0, 1]);
    assert_eq!(
        results.1[0],
        vec![Shape::Location(7.0, 8.0), Shape::Location(2.0, 2.0)]
    );
}

#[test]
fn two_type_query_yields_matching_slots_in_order() {
    let mut world: World<Shape> = World::new();
    world.register_component(LOCATION);
    world.register_component(SIZE);

    let e = world.create_entity();
    e.with_component(LOCATION, Shape::Location(0.0, 0.5)).unwrap();
    e.with_component(SIZE, Shape::Size(0.25)).unwrap();

    let e = world.create_entity();
    e.with_component(SIZE, Shape::Size(1.25)).unwrap();

    let e = world.create_entity();
    e.with_component(LOCATION, Shape::Location(2.0, 2.5)).unwrap();

    let e = world.create_entity();
    e.with_component(LOCATION, Shape::Location(3.0, 3.5)).unwrap();
    e.with_component(SIZE, Shape::Size(3.25)).unwrap();

    let mut query = world.query();
    query.with_component(LOCATION).unwrap();
    query.with_component(SIZE).unwrap();
    let results = query.run();

    assert_eq!(results.0, vec![0, 3]);
    assert_eq!(
        results.1[0],
        vec![Shape::Location(0.0, 0.5), Shape::Location(3.0, 3.5)]
    );
    assert_eq!(results.1[1], vec![Shape::Size(0.25), Shape::Size(3.25)]);
}

#[test]
fn query_keeps_entities_with_extra_components() {
    let mut world: World<Shape> = World::new();
    world.register_component(LOCATION);
    world.register_component(SIZE);
    world.register_component(EXTRA);

    let e = world.create_entity();
    e.with_component(LOCATION, Shape::Location(1.0, 1.0))
        .unwrap();
    e.with_component(SIZE, Shape::Size(1.0)).unwrap();

    let e = world.create_entity();
    e.with_component(LOCATION, Shape::Location(2.0, 2.0))
        .unwrap();
    e.with_component(SIZE, Shape::Size(2.0)).unwrap();
    e.with_component(EXTRA, Shape::Extra(7)).unwrap();

    let e = world.create_entity();
    e.with_component(LOCATION, Shape::Location(3.0, 3.0))
        .unwrap();

    // An entity carrying an additional component still matches; one
    // lacking a required component never does.
    let mut query = world.query();
    query.with_component(LOCATION).unwrap();
    query.with_component(SIZE).unwrap();
    let results = query.run();
    assert_eq!(results.0, vec![0, 1]);
}

#[test]
fn detach_of_missing_component_sets_its_bit() {
    let mut entities: Entities<Shape> = Entities::default();
    entities.register_component(LOCATION);
    entities.register_component(SIZE);

    entities.create_entity();
    entities.with_component(SIZE, Shape::Size(5.0)).unwrap();
    assert_eq!(entities.entity_mask(0), Some(2));

    // The slot never had a Location: toggle-detach incorrectly sets the
    // Location bit instead of leaving it clear.
    entities.delete_component_by_entity_id(LOCATION, 0).unwrap();
    assert_eq!(entities.entity_mask(0), Some(3));

    // Toggling again clears it.
    entities.delete_component_by_entity_id(LOCATION, 0).unwrap();
    assert_eq!(entities.entity_mask(0), Some(2));
}
