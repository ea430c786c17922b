use ecs_lib_rs::resources::Resources;
use ecs_lib_rs::World;

const WORLD_WIDTH: u64 = 1;

#[derive(Debug, PartialEq, Clone, Copy)]
struct WorldWidth(f32);

const FPS: u64 = 2;

#[derive(Debug, PartialEq, Clone, Copy)]
struct FpsResource(u32);

#[test]
fn add_resource() {
    let mut resources: Resources<WorldWidth> = Resources::default();
    let world_width = WorldWidth(100.0);
    resources.add(WORLD_WIDTH, world_width);

    let stored_resource = resources.get_ref(WORLD_WIDTH).unwrap();

    assert_eq!(stored_resource.0, 100.0_f32);
}

#[test]
fn get_resource() {
    let mut resources: Resources<WorldWidth> = Resources::default();
    let world_width = WorldWidth(100.0);
    assert_eq!(resources.get_ref(WORLD_WIDTH), None);
    resources.add(WORLD_WIDTH, world_width);
    assert_eq!(resources.get_ref(WORLD_WIDTH), Some(&WorldWidth(100.0)));
}

#[test]
fn get_mut() {
    let mut resources: Resources<WorldWidth> = Resources::default();
    let world_width = WorldWidth(100.0);
    assert_eq!(resources.get_mut(WORLD_WIDTH), None);
    resources.add(WORLD_WIDTH, world_width);
    {
        let world_width = resources.get_mut(WORLD_WIDTH);
        assert_eq!(world_width, Some(&mut WorldWidth(100.0)));
        let world_width = world_width.unwrap();
        (*world_width).0 += 100.0;
    }
    assert_eq!(resources.get_ref(WORLD_WIDTH), Some(&WorldWidth(200.0)));
}

#[test]
fn remove() {
    let mut resources: Resources<WorldWidth> = Resources::default();
    let world_width = WorldWidth(100.0);
    resources.add(WORLD_WIDTH, world_width);
    assert_eq!(resources.remove(WORLD_WIDTH), Some(WorldWidth(100.0)));
}

#[test]
fn create_and_get_resources_immutably() {
    let mut world: World<FpsResource> = World::new();
    let fps = world.get_resource(FPS);
    assert_eq!(fps, None);
    world.add_resource(FPS, FpsResource(60));
    let fps = world.get_resource(FPS);
    assert_eq!(fps, Some(&FpsResource(60)));
}

#[test]
fn get_resources_mutably() {
    let mut world: World<FpsResource> = World::new();
    let fps = world.get_resource_mut(FPS);
    assert_eq!(fps, None);
    world.add_resource(FPS, FpsResource(60));
    {
        let fps = world.get_resource_mut(FPS);
        assert_eq!(fps, Some(&mut FpsResource(60)));
        let fps = fps.unwrap();
        (*fps).0 += 1;
    }
    let fps = world.get_resource(FPS);
    assert_eq!(fps, Some(&FpsResource(61)));
}

#[test]
fn delete_resource() {
    let mut world: World<FpsResource> = World::new();
    assert_eq!(world.remove_resource(FPS), None);
    world.add_resource(FPS, FpsResource(60));
    assert_eq!(world.remove_resource(FPS), Some(FpsResource(60)));
}

#[test]
fn add_resource_overwrites_previous_value() {
    let mut world: World<FpsResource> = World::new();
    world.add_resource(FPS, FpsResource(30));
    world.add_resource(FPS, FpsResource(60));
    assert_eq!(world.get_resource(FPS), Some(&FpsResource(60)));
}
