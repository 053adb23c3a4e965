//! The completion bridge: futures, settlements, and the deferred hand-off.
//!
//! The worker never settles a future itself.  It posts a settlement onto a
//! deferred queue owned by the host side, which later drains that queue in
//! order and resolves or rejects the matching future.  Settling is guarded:
//! a future that is no longer pending is never touched again, so every
//! future is settled at most once however many settlements name its ticket.

use vstd::prelude::*;

use crate::command::{Error, Outcome, Value};

verus! {

/// What a caller observes of one submitted operation.
#[derive(Debug, Clone, PartialEq, Eq)]
pub enum FutureState {
    /// No settlement has reached this future yet.
    Pending,
    /// The operation ran and produced a value.
    Resolved(Value),
    /// The operation failed, or never ran and was turned away.
    Rejected(Error),
}

/// One queued act of settling: which future, and with what outcome.
#[derive(Debug, PartialEq, Eq)]
pub struct Settlement {
    pub ticket: usize,
    pub outcome: Outcome,
}

/// The future a given outcome settles to.  Converting the worker's outcome
/// into the caller-visible state is the one step that belongs to the host
/// side; a stop order resolves its own future as the acknowledgement.
pub open spec fn spec_settled(o: Outcome) -> FutureState {
    match o {
        Outcome::Continue(res) => match res {
            Ok(v) => FutureState::Resolved(v),
            Err(e) => FutureState::Rejected(e),
        },
        Outcome::Stop => FutureState::Resolved(Value::Done),
    }
}

/// Runs one settlement against a future table: the named future moves out of
/// pending, and a future that is already settled stays exactly as it was.
pub open spec fn apply_one(fs: Seq<FutureState>, s: Settlement) -> Seq<FutureState> {
    if s.ticket < fs.len() && fs[s.ticket as int] is Pending {
        fs.update(s.ticket as int, spec_settled(s.outcome))
    } else {
        fs
    }
}

/// Runs a queue of settlements in order.
pub open spec fn apply_settlements(fs: Seq<FutureState>, ds: Seq<Settlement>) -> Seq<FutureState>
    decreases ds.len(),
{
    if ds.len() == 0 {
        fs
    } else {
        apply_settlements(apply_one(fs, ds[0]), ds.drop_first())
    }
}

/// No settled future ever changes: whatever was resolved or rejected in
/// `before` reads the same in `after`.
pub open spec fn settled_preserved(before: Seq<FutureState>, after: Seq<FutureState>) -> bool {
    &&& before.len() <= after.len()
    &&& forall|t: int|
        0 <= t < before.len() && !(before[t] is Pending) ==> after[t] == before[t]
}

/// The bridge between the worker and the host side.
pub struct Bridge {
    /// Every future ever created, indexed by ticket.  Tickets are never
    /// reused, so a settled slot stays settled for good.
    pub futures: Vec<FutureState>,
    /// Settlements the worker has posted and the host has not yet run,
    /// oldest first.
    pub deferred: Vec<Settlement>,
    /// Whether the host side still accepts posted settlements.
    pub accepting: bool,
}

impl Bridge {
    /// A fresh bridge with no futures and an accepting host.
    pub fn new() -> (b: Bridge)
        ensures
            b.futures@ == Seq::<FutureState>::empty(),
            b.deferred@ == Seq::<Settlement>::empty(),
            b.accepting,
    {
        Bridge { futures: Vec::new(), deferred: Vec::new(), accepting: true }
    }

    /// Creates a future/settlement pair: one more pending future, whose
    /// ticket is returned.
    pub fn create_future(&mut self) -> (t: usize)
        ensures
            t == old(self).futures@.len(),
            final(self).futures@ == old(self).futures@.push(FutureState::Pending),
            final(self).deferred@ == old(self).deferred@,
            final(self).accepting == old(self).accepting,
    {
        let t = self.futures.len();
        self.futures.push(FutureState::Pending);
        t
    }

    /// Posts a settlement for the host to run later.  Fails exactly when the
    /// host has stopped accepting, in which case nothing changes.
    pub fn post(&mut self, s: Settlement) -> (ok: bool)
        ensures
            ok == old(self).accepting,
            final(self).futures@ == old(self).futures@,
            final(self).accepting == old(self).accepting,
            old(self).accepting ==> final(self).deferred@ == old(self).deferred@.push(s),
            !old(self).accepting ==> final(self).deferred@ == old(self).deferred@,
    {
        if self.accepting {
            self.deferred.push(s);
            true
        } else {
            false
        }
    }

    /// Rejects a still-pending future at once, on the caller's own side of
    /// the boundary, without going through the deferred queue.
    pub fn reject_now(&mut self, t: usize, e: Error)
        requires
            t < old(self).futures@.len(),
            old(self).futures@[t as int] is Pending,
        ensures
            final(self).futures@ == old(self).futures@.update(
                t as int,
                FutureState::Rejected(e),
            ),
            final(self).deferred@ == old(self).deferred@,
            final(self).accepting == old(self).accepting,
    {
        self.futures[t] = FutureState::Rejected(e);
    }

    /// Runs the oldest deferred settlement, if any, under the at-most-once
    /// guard.
    pub fn host_step(&mut self) -> (did: bool)
        ensures
            final(self).accepting == old(self).accepting,
            did == (old(self).deferred@.len() > 0),
            old(self).deferred@.len() > 0 ==> {
                &&& final(self).deferred@ == old(self).deferred@.drop_first()
                &&& final(self).futures@ == apply_one(old(self).futures@, old(self).deferred@[0])
            },
            old(self).deferred@.len() == 0 ==> *final(self) == *old(self),
            settled_preserved(old(self).futures@, final(self).futures@),
    {
        if self.deferred.len() > 0 {
            let s = self.deferred.remove(0);
            proof {
                assert(self.deferred@ =~= old(self).deferred@.drop_first());
            }
            let pending = if s.ticket < self.futures.len() {
                match &self.futures[s.ticket] {
                    FutureState::Pending => true,
                    _ => false,
                }
            } else {
                false
            };
            if pending {
                let state = settle(s.outcome);
                self.futures[s.ticket] = state;
            }
            true
        } else {
            false
        }
    }

    /// Drains the deferred queue in order: the future table ends exactly as
    /// running every queued settlement, oldest first, leaves it.
    pub fn run_host(&mut self)
        ensures
            final(self).accepting == old(self).accepting,
            final(self).deferred@ == Seq::<Settlement>::empty(),
            final(self).futures@ == apply_settlements(old(self).futures@, old(self).deferred@),
            settled_preserved(old(self).futures@, final(self).futures@),
    {
        while self.deferred.len() > 0
            invariant
                self.accepting == old(self).accepting,
                apply_settlements(self.futures@, self.deferred@) == apply_settlements(
                    old(self).futures@,
                    old(self).deferred@,
                ),
                settled_preserved(old(self).futures@, self.futures@),
            decreases self.deferred@.len(),
        {
            let ghost fs = self.futures@;
            let ghost ds = self.deferred@;
            let _ = self.host_step();
            proof {
                assert(apply_settlements(fs, ds) == apply_settlements(
                    self.futures@,
                    self.deferred@,
                ));
                lemma_settled_preserved_trans(old(self).futures@, fs, self.futures@);
            }
        }
    }

    /// Records that the host side has shut down: nothing further can be
    /// posted, and the settlements it still held are gone.
    pub fn host_shutdown(&mut self)
        ensures
            final(self).futures@ == old(self).futures@,
            final(self).deferred@ == Seq::<Settlement>::empty(),
            !final(self).accepting,
    {
        self.deferred.clear();
        self.accepting = false;
    }

    /// Reads one future.
    pub fn poll(&self, t: usize) -> (r: &FutureState)
        requires
            t < self.futures@.len(),
        ensures
            *r == self.futures@[t as int],
    {
        &self.futures[t]
    }
}

/// Converts an outcome into the state its future settles to.
pub fn settle(o: Outcome) -> (r: FutureState)
    ensures
        r == spec_settled(o),
{
    match o {
        Outcome::Continue(res) => match res {
            Ok(v) => FutureState::Resolved(v),
            Err(e) => FutureState::Rejected(e),
        },
        Outcome::Stop => FutureState::Resolved(Value::Done),
    }
}

/// The tickets a queue of settlements names, in queue order.
pub open spec fn settlement_tickets(d: Seq<Settlement>) -> Seq<usize> {
    d.map_values(|s: Settlement| s.ticket)
}

/// The settlements that reject a queue of undelivered commands, one per
/// command, in queue order.
pub open spec fn rejections(q: Seq<crate::command::Command>) -> Seq<Settlement> {
    q.map_values(
        |c: crate::command::Command|
            Settlement { ticket: c.ticket, outcome: Outcome::Continue(Err(Error::Closed)) },
    )
}

/// Running settlements never touches a future that is already settled, and
/// never changes how many futures there are.
pub proof fn lemma_apply_preserves_settled(fs: Seq<FutureState>, ds: Seq<Settlement>)
    ensures
        apply_settlements(fs, ds).len() == fs.len(),
        settled_preserved(fs, apply_settlements(fs, ds)),
    decreases ds.len(),
{
    if ds.len() > 0 {
        lemma_apply_preserves_settled(apply_one(fs, ds[0]), ds.drop_first());
    }
}

/// A pending future named by some queued settlement is settled once the
/// queue has run.
pub proof fn lemma_apply_settles(fs: Seq<FutureState>, ds: Seq<Settlement>, t: int)
    requires
        0 <= t < fs.len(),
        fs[t] is Pending,
        exists|j: int| 0 <= j < ds.len() && (#[trigger] ds[j]).ticket == t,
    ensures
        !(apply_settlements(fs, ds)[t] is Pending),
    decreases ds.len(),
{
    let j = choose|j: int| 0 <= j < ds.len() && (#[trigger] ds[j]).ticket == t;
    let fs1 = apply_one(fs, ds[0]);
    if ds[0].ticket == t {
        lemma_apply_preserves_settled(fs1, ds.drop_first());
    } else {
        assert(ds.drop_first()[j - 1].ticket == t);
        lemma_apply_settles(fs1, ds.drop_first(), t);
    }
}

/// Preservation of settled futures composes across successive states.
pub proof fn lemma_settled_preserved_trans(
    a: Seq<FutureState>,
    b: Seq<FutureState>,
    c: Seq<FutureState>,
)
    requires
        settled_preserved(a, b),
        settled_preserved(b, c),
    ensures
        settled_preserved(a, c),
{
}

} // verus!
