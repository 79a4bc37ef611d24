use ecs::entity::Entity;
use ecs::world::World;

#[test]
fn world_capacity_three_walkthrough() {
    let mut world = World::new(3);
    let a = world.create_entity().unwrap();
    let b = world.create_entity().unwrap();
    let c = world.create_entity().unwrap();
    assert_eq!(a.index(), 0);
    assert_eq!(b.index(), 1);
    assert_eq!(c.index(), 2);
    assert!(world.create_entity().is_none());

    world.delete_entity(b);
    let again = world.create_entity().unwrap();
    assert_eq!(again.index(), 1);
    assert!(world.create_entity().is_none());
}

#[test]
fn world_without_room_creates_nothing() {
    let mut world = World::new(0);
    assert!(world.create_entity().is_none());
}

#[test]
fn world_reuses_most_recently_deleted_first() {
    let mut world = World::new(10);
    let a = world.create_entity().unwrap();
    let b = world.create_entity().unwrap();
    let c = world.create_entity().unwrap();
    world.delete_entity(a);
    world.delete_entity(c);
    assert_eq!(world.create_entity().unwrap().index(), 2);
    assert_eq!(world.create_entity().unwrap().index(), 0);
    assert_eq!(world.create_entity().unwrap().index(), 3);
    assert_eq!(b.index(), 1);
}

#[test]
fn default_world_keeps_minting() {
    let mut world = World::default();
    let mut entities: Vec<Entity> = Vec::new();
    for expected in 0..1000usize {
        let entity = world.create_entity().unwrap();
        assert_eq!(entity.index(), expected);
        entities.push(entity);
    }
    for entity in entities {
        world.delete_entity(entity);
    }
    assert_eq!(world.create_entity().unwrap().index(), 999);
    assert_eq!(world.create_entity().unwrap().index(), 998);
}

#[test]
fn worlds_are_independent() {
    let mut first = World::new(2);
    let mut second = World::new(2);
    let a = first.create_entity().unwrap();
    let b = second.create_entity().unwrap();
    assert_eq!(a.index(), 0);
    assert_eq!(b.index(), 0);
    first.delete_entity(a);
    assert_eq!(second.create_entity().unwrap().index(), 1);
    assert!(second.create_entity().is_none());
    assert_eq!(first.create_entity().unwrap().index(), 0);
}
