use ecs::entity::{Entity, EntityManager};

const ENTITY_COUNT: usize = 10_000_000;

fn fill_and_drain(em: &mut EntityManager) {
    let mut entities: Vec<Entity> = Vec::with_capacity(ENTITY_COUNT);
    for _ in 0..ENTITY_COUNT {
        entities.push(em.create_entity().unwrap());
    }

    for e in entities {
        em.delete_entity(e);
    }
}

#[test]
fn perf_delete() {
    let mut em = EntityManager::default();

    let mut entities: Vec<Entity> = Vec::with_capacity(ENTITY_COUNT);

    for _ in 0..ENTITY_COUNT {
        entities.push(em.create_entity().unwrap());
    }

    for e in entities {
        em.delete_entity(e);
    }
}

#[test]
fn perf_recreate() {
    let mut em = EntityManager::default();
    fill_and_drain(&mut em);
    fill_and_drain(&mut em);
}

#[test]
fn recreate_reuses_every_index() {
    let count: usize = 100_000;
    let mut em = EntityManager::default();
    let mut entities: Vec<Entity> = Vec::with_capacity(count);
    for _ in 0..count {
        entities.push(em.create_entity().unwrap());
    }
    for e in entities {
        em.delete_entity(e);
    }
    assert_eq!(em.next_id(), count);
    assert_eq!(em.deleted_ids().len(), count);

    let mut seen: Vec<bool> = vec![false; count];
    for _ in 0..count {
        let e = em.create_entity().unwrap();
        assert!(e.index() < count);
        assert!(!seen[e.index()]);
        seen[e.index()] = true;
    }
    assert_eq!(em.next_id(), count);
    assert!(em.deleted_ids().is_empty());
}

#[test]
fn unbounded_cycles_never_run_out() {
    let mut em = EntityManager::default();
    let kept = em.create_entity().unwrap();
    assert_eq!(kept.index(), 0);
    for _ in 0..ENTITY_COUNT {
        let e = em.create_entity().unwrap();
        assert_ne!(e.index(), kept.index());
        assert_eq!(e.index(), 1);
        em.delete_entity(e);
    }
    assert_eq!(em.next_id(), 2);
    em.delete_entity(kept);
}

#[test]
fn unbounded_cycles_from_scratch() {
    let mut em = EntityManager::default();
    for _ in 0..ENTITY_COUNT {
        let e = em.create_entity();
        assert!(e.is_some());
        em.delete_entity(e.unwrap());
    }
    assert_eq!(em.next_id(), 1);
    assert_eq!(em.deleted_ids(), &[0usize][..]);
}
