//! The mathematical state of an identifier pool.

use vstd::prelude::*;

verus! {

/// What an identifier pool is, as far as its behaviour goes: the smallest
/// index that was never issued, the bound on indices, and the indices that
/// were returned and wait for reuse, the most recently returned one last.
pub struct Pool {
    pub next_id: nat,
    pub capacity: nat,
    pub free: Seq<nat>,
}

impl Pool {
    /// The pool that has issued nothing yet.
    pub open spec fn fresh(capacity: nat) -> Pool {
        Pool { next_id: 0, capacity, free: Seq::empty() }
    }

    /// Indices were issued below the bound only, and every waiting index was
    /// issued before and waits once.
    pub open spec fn wf(self) -> bool {
        &&& self.next_id <= self.capacity
        &&& self.free.no_duplicates()
        &&& forall|k: int| 0 <= k < self.free.len() ==> #[trigger] self.free[k] < self.next_id
    }

    /// `id` was issued and has not been returned since.
    pub open spec fn is_live(self, id: nat) -> bool {
        id < self.next_id && !self.free.contains(id)
    }

    /// Nothing waits for reuse and no fresh index is left.
    pub open spec fn exhausted(self) -> bool {
        self.free.len() == 0 && self.next_id >= self.capacity
    }

    /// The index that the next acquisition issues: the most recently returned
    /// one if any waits, else the next fresh one if the bound allows it.
    pub open spec fn next_issue(self) -> Option<nat> {
        if self.free.len() > 0 {
            Some(self.free.last())
        } else if self.next_id < self.capacity {
            Some(self.next_id)
        } else {
            None
        }
    }

    /// The pool after one acquisition.
    pub open spec fn after_create(self) -> Pool {
        if self.free.len() > 0 {
            Pool { free: self.free.drop_last(), ..self }
        } else if self.next_id < self.capacity {
            Pool { next_id: self.next_id + 1, ..self }
        } else {
            self
        }
    }

    /// The pool after `id` has been returned.
    pub open spec fn after_delete(self, id: nat) -> Pool {
        Pool { free: self.free.push(id), ..self }
    }
}

/// The fresh pool is well formed, and nothing is alive in it.
pub proof fn lemma_fresh(capacity: nat)
    ensures
        Pool::fresh(capacity).wf(),
        forall|id: nat| !Pool::fresh(capacity).is_live(id),
{
}

/// An acquisition on a well-formed pool leaves it well formed. What it issues
/// lies below the bound, was not alive before and is alive afterwards, and no
/// other index changes sides. When it issues nothing, the pool stays as it is.
pub proof fn lemma_create(pool: Pool)
    requires
        pool.wf(),
    ensures
        pool.after_create().wf(),
        pool.after_create().capacity == pool.capacity,
        pool.next_issue() is None <==> pool.exhausted(),
        pool.next_issue() is None ==> pool.after_create() == pool,
        pool.next_issue() matches Some(id) ==> {
            &&& id < pool.capacity
            &&& !pool.is_live(id)
            &&& pool.after_create().is_live(id)
            &&& forall|other: nat|
                other != id ==> pool.after_create().is_live(other) == pool.is_live(other)
        },
{
    if pool.free.len() > 0 {
        let after = pool.after_create();
        let id = pool.free.last();
        assert forall|other: nat| other != id && pool.free.contains(other) implies
            after.free.contains(other) by {
            let k = pool.free.index_of(other);
            assert(after.free[k] == other);
        }
    }
}

/// Returning a live index to a well-formed pool leaves it well formed. The
/// index is no longer alive, and no other index changes sides.
pub proof fn lemma_delete(pool: Pool, id: nat)
    requires
        pool.wf(),
        pool.is_live(id),
    ensures
        pool.after_delete(id).wf(),
        pool.after_delete(id).capacity == pool.capacity,
        pool.after_delete(id).next_id == pool.next_id,
        !pool.after_delete(id).is_live(id),
        forall|other: nat|
            other != id ==> pool.after_delete(id).is_live(other) == pool.is_live(other),
{
    let after = pool.after_delete(id);
    assert(after.free.last() == id);
    assert forall|other: nat| pool.free.contains(other) implies after.free.contains(other) by {
        let k = pool.free.index_of(other);
        assert(after.free[k] == other);
    }
}

/// Recycling goes last in, first out. Where `a` and then `b` were returned
/// last, the next two acquisitions issue `b` and then `a`, take both from the
/// waiting indices and mint nothing fresh.
pub proof fn lemma_recycle_order(pool: Pool, a: nat, b: nat)
    requires
        pool.free.len() >= 2,
        pool.free[pool.free.len() - 2] == a,
        pool.free[pool.free.len() - 1] == b,
    ensures
        pool.next_issue() == Some(b),
        pool.after_create().next_issue() == Some(a),
        pool.after_create().after_create().next_id == pool.next_id,
        pool.after_create().after_create().free == pool.free.take(pool.free.len() - 2),
{
}

} // verus!
