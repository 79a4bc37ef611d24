//! Sequences of calls on a pool, and what holds after every one of them.
//!
//! A [`Ledger`] keeps, beside the pool, the handles that callers hold: it
//! gains one with every acquisition that issues an index and loses one with
//! every return. A return is permitted when the caller holds such a handle.
//! The laws below say that under this discipline alone the handles stay
//! unique and are exactly what the pool counts as alive.

use vstd::prelude::*;
use vstd::multiset::Multiset;
use crate::pool::{Pool, lemma_create, lemma_delete};

verus! {

/// One call on a pool.
pub enum Call {
    /// An acquisition.
    Create,
    /// The return of a handle with this index.
    Delete(nat),
}

/// A pool and the indices of the handles that its callers hold, each as often
/// as it is held.
pub struct Ledger {
    pub pool: Pool,
    pub held: Multiset<nat>,
}

impl Ledger {
    /// A fresh pool, with no handle out.
    pub open spec fn opening(capacity: nat) -> Ledger {
        Ledger { pool: Pool::fresh(capacity), held: Multiset::empty() }
    }

    /// An acquisition is always permitted, a return only of a handle that is
    /// held.
    pub open spec fn permits(self, call: Call) -> bool {
        match call {
            Call::Create => true,
            Call::Delete(id) => self.held.count(id) > 0,
        }
    }

    /// The ledger after `call`.
    pub open spec fn apply(self, call: Call) -> Ledger {
        match call {
            Call::Create => Ledger {
                pool: self.pool.after_create(),
                held: match self.pool.next_issue() {
                    Some(id) => self.held.insert(id),
                    None => self.held,
                },
            },
            Call::Delete(id) => Ledger {
                pool: self.pool.after_delete(id),
                held: self.held.remove(id),
            },
        }
    }

    /// The ledger after `calls`, made in order.
    pub open spec fn replay(self, calls: Seq<Call>) -> Ledger
        decreases calls.len(),
    {
        if calls.len() == 0 {
            self
        } else {
            self.replay(calls.drop_last()).apply(calls.last())
        }
    }

    /// Each of `calls` is permitted at the moment it is made.
    pub open spec fn permits_all(self, calls: Seq<Call>) -> bool
        decreases calls.len(),
    {
        calls.len() == 0 || (self.permits_all(calls.drop_last()) && self.replay(
            calls.drop_last(),
        ).permits(calls.last()))
    }

    /// The pool is well formed, the handles held are the live indices, each
    /// held once, and together with the waiting indices they are as many as
    /// were ever minted.
    pub open spec fn balanced(self) -> bool {
        &&& self.pool.wf()
        &&& self.held.len() + self.pool.free.len() == self.pool.next_id
        &&& forall|id: nat| #[trigger]
            self.held.count(id) == (if self.pool.is_live(id) {
                1nat
            } else {
                0nat
            })
    }
}

/// A permitted call keeps a balanced ledger balanced. A return that is
/// permitted there is the return of a live index.
pub proof fn lemma_apply_balanced(ledger: Ledger, call: Call)
    requires
        ledger.balanced(),
        ledger.permits(call),
    ensures
        ledger.apply(call).balanced(),
        call matches Call::Delete(id) ==> ledger.pool.is_live(id),
{
    match call {
        Call::Create => {
            lemma_create(ledger.pool);
        },
        Call::Delete(id) => {
            lemma_delete(ledger.pool, id);
        },
    }
}

/// Permitted calls keep a balanced ledger balanced.
pub proof fn lemma_replay_balanced(start: Ledger, calls: Seq<Call>)
    requires
        start.balanced(),
        start.permits_all(calls),
    ensures
        start.replay(calls).balanced(),
    decreases calls.len(),
{
    if calls.len() > 0 {
        lemma_replay_balanced(start, calls.drop_last());
        lemma_apply_balanced(start.replay(calls.drop_last()), calls.last());
    }
}

/// Where all of `calls` are permitted, so are the first `n` of them.
pub proof fn lemma_prefix_permitted(start: Ledger, calls: Seq<Call>, n: int)
    requires
        start.permits_all(calls),
        0 <= n <= calls.len(),
    ensures
        start.permits_all(calls.take(n)),
    decreases calls.len(),
{
    if n < calls.len() {
        lemma_prefix_permitted(start, calls.drop_last(), n);
        assert(calls.drop_last().take(n) =~= calls.take(n));
    } else {
        assert(calls.take(n) =~= calls);
    }
}

/// In a balanced ledger every index below the fresh counter is either held
/// or waiting, never both, and no index from the fresh counter on is either.
pub proof fn lemma_partition(ledger: Ledger, id: nat)
    requires
        ledger.balanced(),
    ensures
        ledger.held.count(id) <= 1,
        id < ledger.pool.next_id ==> (ledger.held.count(id) == 1) != ledger.pool.free.contains(
            id,
        ),
        id >= ledger.pool.next_id ==> ledger.held.count(id) == 0 && !ledger.pool.free.contains(
            id,
        ),
{
}

/// Capacity is the number of handles that can be out at a time. In a
/// balanced ledger no more are held, and the pool is exhausted exactly when
/// that many are.
pub proof fn lemma_room(ledger: Ledger)
    requires
        ledger.balanced(),
    ensures
        ledger.held.len() <= ledger.pool.capacity,
        ledger.pool.exhausted() <==> ledger.held.len() == ledger.pool.capacity,
        ledger.pool.next_issue() is None <==> ledger.held.len() == ledger.pool.capacity,
{
}

/// Uniqueness of live handles. Start with a fresh pool and make any calls, of
/// which every return is that of a handle held at the time. Then at every
/// moment no index is held twice, and an index is held exactly when the pool
/// counts it as alive.
pub proof fn lemma_live_handles_unique(capacity: nat, calls: Seq<Call>)
    requires
        Ledger::opening(capacity).permits_all(calls),
    ensures
        forall|n: int, id: nat|
            0 <= n <= calls.len() ==> #[trigger] Ledger::opening(capacity).replay(
                calls.take(n),
            ).held.count(id) <= 1,
        forall|n: int|
            0 <= n <= calls.len() ==> #[trigger] Ledger::opening(capacity).replay(
                calls.take(n),
            ).balanced(),
{
    let start = Ledger::opening(capacity);
    assert forall|n: int| 0 <= n <= calls.len() implies #[trigger] start.replay(
        calls.take(n),
    ).balanced() by {
        lemma_prefix_permitted(start, calls, n);
        lemma_replay_balanced(start, calls.take(n));
    }
    assert forall|n: int, id: nat| 0 <= n <= calls.len() implies #[trigger] start.replay(
        calls.take(n),
    ).held.count(id) <= 1 by {
        assert(start.replay(calls.take(n)).balanced());
    }
}

/// No call changes the capacity.
pub proof fn lemma_capacity_fixed(start: Ledger, calls: Seq<Call>)
    ensures
        start.replay(calls).pool.capacity == start.pool.capacity,
    decreases calls.len(),
{
    if calls.len() > 0 {
        lemma_capacity_fixed(start, calls.drop_last());
    }
}

/// Bounded range. Start with a fresh pool and make any calls, of which every
/// return is that of a handle held at the time. Then whatever the pool issues
/// at any moment lies below its capacity.
pub proof fn lemma_issue_in_range(capacity: nat, calls: Seq<Call>)
    requires
        Ledger::opening(capacity).permits_all(calls),
    ensures
        forall|n: int|
            0 <= n <= calls.len() ==> match (#[trigger] Ledger::opening(capacity).replay(
                calls.take(n),
            )).pool.next_issue() {
                Some(id) => id < capacity,
                None => true,
            },
{
    let start = Ledger::opening(capacity);
    assert forall|n: int| 0 <= n <= calls.len() implies match (#[trigger] start.replay(
        calls.take(n),
    )).pool.next_issue() {
        Some(id) => id < capacity,
        None => true,
    } by {
        lemma_prefix_permitted(start, calls, n);
        lemma_replay_balanced(start, calls.take(n));
        lemma_capacity_fixed(start, calls.take(n));
        lemma_create(start.replay(calls.take(n)).pool);
    }
}

/// Monotonic fresh counter. Whatever the calls, the smallest index never
/// issued is at no moment smaller than it was at an earlier one, and it never
/// exceeds the capacity.
pub proof fn lemma_fresh_counter_monotonic(start: Ledger, calls: Seq<Call>)
    requires
        start.pool.next_id <= start.pool.capacity,
    ensures
        forall|m: int, n: int|
            #![trigger start.replay(calls.take(m)), start.replay(calls.take(n))]
            0 <= m <= n <= calls.len() ==> start.replay(calls.take(m)).pool.next_id
                <= start.replay(calls.take(n)).pool.next_id,
        forall|n: int|
            0 <= n <= calls.len() ==> (#[trigger] start.replay(calls.take(n))).pool.next_id
                <= start.pool.capacity,
{
    assert forall|m: int, n: int|
        #![trigger start.replay(calls.take(m)), start.replay(calls.take(n))]
        0 <= m <= n <= calls.len() implies start.replay(calls.take(m)).pool.next_id
        <= start.replay(calls.take(n)).pool.next_id by {
        lemma_fresh_counter_grows(start, calls, m, n);
    }
    assert forall|n: int| 0 <= n <= calls.len() implies (#[trigger] start.replay(
        calls.take(n),
    )).pool.next_id <= start.pool.capacity by {
        lemma_fresh_counter_bounded(start, calls.take(n));
    }
}

/// Between the first `m` and the first `n` of `calls` the fresh counter does
/// not fall.
proof fn lemma_fresh_counter_grows(start: Ledger, calls: Seq<Call>, m: int, n: int)
    requires
        0 <= m <= n <= calls.len(),
    ensures
        start.replay(calls.take(m)).pool.next_id <= start.replay(calls.take(n)).pool.next_id,
    decreases n - m,
{
    if m < n {
        lemma_fresh_counter_grows(start, calls, m, n - 1);
        assert(calls.take(n).drop_last() =~= calls.take(n - 1));
    }
}

/// A fresh counter within the capacity stays within it.
proof fn lemma_fresh_counter_bounded(start: Ledger, calls: Seq<Call>)
    requires
        start.pool.next_id <= start.pool.capacity,
    ensures
        start.replay(calls).pool.next_id <= start.replay(calls).pool.capacity,
        start.replay(calls).pool.capacity == start.pool.capacity,
    decreases calls.len(),
{
    if calls.len() > 0 {
        lemma_fresh_counter_bounded(start, calls.drop_last());
    }
}

/// `n` acquisitions in a row.
pub open spec fn creates(n: nat) -> Seq<Call> {
    Seq::new(n, |k: int| Call::Create)
}

/// On a fresh pool, acquisitions within the capacity mint the indices in
/// order and leave nothing waiting.
pub proof fn lemma_fresh_creates(capacity: nat, n: nat)
    requires
        n <= capacity,
    ensures
        Ledger::opening(capacity).replay(creates(n)).pool == (Pool {
            next_id: n,
            capacity,
            free: Seq::empty(),
        }),
        Ledger::opening(capacity).replay(creates(n)).balanced(),
    decreases n,
{
    if n > 0 {
        lemma_fresh_creates(capacity, (n - 1) as nat);
        assert(creates(n).drop_last() =~= creates((n - 1) as nat));
    }
}

/// The ledger of a fresh pool after as many acquisitions as its capacity.
pub open spec fn filled(capacity: nat) -> Ledger {
    Ledger::opening(capacity).replay(creates(capacity))
}

/// Exhaustion. On a fresh pool the first `capacity` acquisitions succeed, with
/// the indices in order, and the next one issues nothing. After the return of
/// any one of the handles the next acquisition issues its index again, and
/// the one after that issues nothing.
pub proof fn lemma_exhaustion(capacity: nat)
    ensures
        forall|n: nat|
            n < capacity ==> (#[trigger] Ledger::opening(capacity).replay(
                creates(n),
            )).pool.next_issue() == Some(n),
        filled(capacity).pool.exhausted(),
        filled(capacity).pool.next_issue() is None,
        forall|id: nat|
            id < capacity ==> {
                &&& filled(capacity).permits(Call::Delete(id))
                &&& (#[trigger] filled(capacity).apply(Call::Delete(id))).pool.next_issue()
                    == Some(id)
                &&& filled(capacity).apply(Call::Delete(id)).apply(
                    Call::Create,
                ).pool.exhausted()
            },
{
    assert forall|n: nat| n < capacity implies (#[trigger] Ledger::opening(capacity).replay(
        creates(n),
    )).pool.next_issue() == Some(n) by {
        lemma_fresh_creates(capacity, n);
    }
    lemma_fresh_creates(capacity, capacity);
    assert forall|id: nat| id < capacity implies {
        &&& filled(capacity).permits(Call::Delete(id))
        &&& (#[trigger] filled(capacity).apply(Call::Delete(id))).pool.next_issue() == Some(id)
        &&& filled(capacity).apply(Call::Delete(id)).apply(Call::Create).pool.exhausted()
    } by {
    }
}

} // verus!
