//! The world: the owner of the entity manager.

use vstd::prelude::*;
use crate::entity::{Entity, EntityManager};
use crate::pool::Pool;

verus! {

/// Owns one entity manager and hands its two operations on. Handles that a
/// world issued go back to that world only.
pub struct World {
    entity_manager: EntityManager,
}

impl View for World {
    type V = Pool;

    /// The state of the world's entity manager.
    closed spec fn view(&self) -> Pool {
        self.entity_manager@
    }
}

impl World {
    /// A world without entities that can hold up to `max_entity_count` of
    /// them at a time.
    pub fn new(max_entity_count: usize) -> (world: Self)
        ensures
            world@ == Pool::fresh(max_entity_count as nat),
            world@.wf(),
    {
        Self { entity_manager: EntityManager::new(max_entity_count) }
    }

    /// Creates a new entity, or returns `None` when the world is full. See
    /// [`EntityManager::create_entity`].
    pub fn create_entity(&mut self) -> (entity: Option<Entity>)
        ensures
            final(self)@ == old(self)@.after_create(),
            final(self)@.wf(),
            match entity {
                Some(e) => old(self)@.next_issue() == Some(e@),
                None => old(self)@.next_issue() is None,
            },
            entity is None <==> old(self)@.exhausted(),
            old(self)@.next_id <= final(self)@.next_id <= final(self)@.capacity,
            entity matches Some(e) ==> {
                &&& e@ < old(self)@.capacity
                &&& !old(self)@.is_live(e@)
                &&& final(self)@.is_live(e@)
            },
    {
        self.entity_manager.create_entity()
    }

    /// Deletes `entity`, which must be alive in this world. See
    /// [`EntityManager::delete_entity`].
    pub fn delete_entity(&mut self, entity: Entity)
        requires
            old(self)@.is_live(entity@),
        ensures
            final(self)@ == old(self)@.after_delete(entity@),
            final(self)@.wf(),
            !final(self)@.is_live(entity@),
    {
        self.entity_manager.delete_entity(entity)
    }
}

impl Default for World {
    /// A world whose only bound is the largest index there is.
    fn default() -> (world: Self)
        ensures
            world@ == Pool::fresh(usize::MAX as nat),
            world@.wf(),
    {
        Self::new(usize::MAX)
    }
}

} // verus!
