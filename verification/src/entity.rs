//! Entity handles and the manager that issues them.

use vstd::prelude::*;
use crate::pool::{Pool, lemma_create, lemma_delete};

verus! {

/// A handle on one entity. It means something only to the manager that issued
/// it, and it cannot be copied: whoever holds it holds the entity.
pub struct Entity(pub(crate) usize);

impl View for Entity {
    type V = nat;

    /// The index that the handle stands for.
    closed spec fn view(&self) -> nat {
        self.0 as nat
    }
}

impl Entity {
    /// The index that the handle stands for.
    pub fn index(&self) -> (index: usize)
        ensures
            index as nat == self@,
    {
        self.0
    }

    /// A second handle on the same entity. Only the crate may make one: a
    /// caller with two handles could delete one entity twice.
    #[allow(dead_code)]
    pub(crate) fn clone(&self) -> (copy: Self)
        ensures
            copy@ == self@,
    {
        Entity(self.0)
    }
}

/// The indices of a deletion queue, as the pool sees them.
pub open spec fn ids(queue: Seq<usize>) -> Seq<nat> {
    queue.map_values(|id: usize| id as nat)
}

/// Issues entity handles with indices below a fixed bound and reissues the
/// indices of deleted entities, the most recently deleted one first.
pub struct EntityManager {
    next_id: usize,
    max_entity_count: usize,
    deleted_id_queue: Vec<usize>,
}

impl View for EntityManager {
    type V = Pool;

    closed spec fn view(&self) -> Pool {
        Pool {
            next_id: self.next_id as nat,
            capacity: self.max_entity_count as nat,
            free: ids(self.deleted_id_queue@),
        }
    }
}

impl EntityManager {
    /// Every manager is a well-formed pool, at every moment.
    #[verifier::type_invariant]
    spec fn inv(&self) -> bool {
        self@.wf()
    }

    /// A manager that has issued nothing and will issue indices below
    /// `max_entity_count`.
    pub fn new(max_entity_count: usize) -> (manager: Self)
        ensures
            manager@ == Pool::fresh(max_entity_count as nat),
            manager@.wf(),
    {
        let manager = Self { next_id: 0, max_entity_count, deleted_id_queue: vec![] };
        assert(manager@.free =~= Seq::<nat>::empty());
        manager
    }

    /// The smallest index that was never issued.
    pub fn next_id(&self) -> (next_id: usize)
        ensures
            next_id as nat == self@.next_id,
            self@.wf(),
    {
        proof {
            use_type_invariant(self);
        }
        self.next_id
    }

    /// The bound below which all indices lie.
    pub fn max_entity_count(&self) -> (max_entity_count: usize)
        ensures
            max_entity_count as nat == self@.capacity,
            self@.wf(),
    {
        proof {
            use_type_invariant(self);
        }
        self.max_entity_count
    }

    /// The indices of the deleted entities that wait to be used again, the
    /// most recently deleted one last.
    pub fn deleted_ids(&self) -> (queue: &[usize])
        ensures
            ids(queue@) == self@.free,
            self@.wf(),
    {
        proof {
            use_type_invariant(self);
        }
        self.deleted_id_queue.as_slice()
    }

    /// Creates a new entity.
    ///
    /// The index of the most recently deleted entity is used again if one
    /// waits. Otherwise the next fresh index is used, as long as it lies below
    /// the maximum entity count. Otherwise no entity can be created and the
    /// result is `None`, with the manager unchanged.
    pub fn create_entity(&mut self) -> (entity: Option<Entity>)
        ensures
            final(self)@ == old(self)@.after_create(),
            final(self)@.wf(),
            match entity {
                Some(e) => old(self)@.next_issue() == Some(e@),
                None => old(self)@.next_issue() is None,
            },
            entity is None <==> old(self)@.exhausted(),
            old(self)@.next_id <= final(self)@.next_id <= final(self)@.capacity,
            entity matches Some(e) ==> {
                &&& e@ < old(self)@.capacity
                &&& !old(self)@.is_live(e@)
                &&& final(self)@.is_live(e@)
            },
    {
        proof {
            use_type_invariant(&*self);
            lemma_create(self@);
        }
        if self.deleted_id_queue.len() > 0 {
            // The queue is changed outside the manager, which is well formed
            // with an empty queue in the meantime.
            let mut queue: Vec<usize> = Vec::new();
            std::mem::swap(&mut queue, &mut self.deleted_id_queue);
            let id: usize = queue.pop().unwrap();
            assert(ids(queue@) =~= old(self)@.free.drop_last());
            self.deleted_id_queue = queue;
            Some(Entity(id))
        } else if self.next_id < self.max_entity_count {
            let id: usize = self.next_id;
            self.next_id += 1;
            Some(Entity(id))
        } else {
            None
        }
    }

    /// Deletes `entity`, whose index becomes the next one to be issued.
    ///
    /// The handle must be alive: issued by this manager and not deleted since.
    /// Nothing is recorded by which the manager could tell.
    pub fn delete_entity(&mut self, entity: Entity)
        requires
            old(self)@.is_live(entity@),
        ensures
            final(self)@ == old(self)@.after_delete(entity@),
            final(self)@.wf(),
            !final(self)@.is_live(entity@),
    {
        proof {
            use_type_invariant(&*self);
            lemma_delete(self@, entity@);
        }
        // As in `create_entity`, the queue is changed outside the manager.
        let mut queue: Vec<usize> = Vec::new();
        std::mem::swap(&mut queue, &mut self.deleted_id_queue);
        queue.push(entity.0);
        assert(ids(queue@) =~= old(self)@.free.push(entity@));
        self.deleted_id_queue = queue;
    }
}

impl Default for EntityManager {
    /// A manager whose only bound is the largest index there is.
    fn default() -> (manager: Self)
        ensures
            manager@ == Pool::fresh(usize::MAX as nat),
            manager@.wf(),
    {
        Self::new(usize::MAX)
    }
}

} // verus!
