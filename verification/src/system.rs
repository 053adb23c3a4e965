//! The assembled worker system, and its guarantees.
//!
//! One value of [`System`] holds the three coordinated parts: the command
//! channel, the completion bridge, and the worker with its exclusively owned
//! resource.  Callers submit operations and receive tickets; the worker
//! drains the channel; the host side drains the deferred settlements.  Each
//! of those is an explicit step here, so an arbitrary interleaving of caller
//! submissions, worker turns and host turns is an arbitrary sequence of
//! method calls — and the well-formedness invariant below holds across all
//! of them.

use vstd::prelude::*;

use crate::bridge::{
    apply_settlements, rejections, settled_preserved, settlement_tickets, Bridge, FutureState,
    Settlement,
};
use crate::bridge::{lemma_apply_preserves_settled, lemma_apply_settles};
use crate::channel::Channel;
use crate::command::{
    close_free, executed_prefix, ops_of, tickets_of, Command, Error, Operation, Outcome,
};
use crate::resource::{
    lemma_at_most_one_writer, open_accesses, outcome_on, rows_on, AccessEvent, Resource,
};

verus! {

/// Whether the worker is still draining its channel.
#[derive(Debug, PartialEq, Eq)]
pub enum WorkerPhase {
    Running,
    Stopped,
}

/// The worker: its phase, and the resource only it may touch.
pub struct Worker {
    pub phase: WorkerPhase,
    pub resource: Resource,
}

/// Position `i` of the command queue carries ticket `t`.
pub open spec fn queue_carries(q: Seq<Command>, i: int, t: int) -> bool {
    0 <= i < q.len() && q[i].ticket == t
}

/// Position `j` of the deferred settlements carries ticket `t`.
pub open spec fn deferred_carries(d: Seq<Settlement>, j: int, t: int) -> bool {
    0 <= j < d.len() && d[j].ticket == t
}

/// The settlements a running worker posts while draining a queue against a
/// table with the given rows: one per command, in queue order, each holding
/// the outcome of its operation against the rows as they then stand.  On
/// the first stop outcome the remaining commands are rejected as closed.
pub open spec fn worker_settlements(
    rows: Seq<String>,
    capacity: int,
    q: Seq<Command>,
) -> Seq<Settlement>
    decreases q.len(),
{
    if q.len() == 0 {
        Seq::empty()
    } else {
        let c = q[0];
        let out = outcome_on(rows, capacity, c.op);
        if out is Stop {
            seq![(Settlement { ticket: c.ticket, outcome: out })] + rejections(q.drop_first())
        } else {
            seq![(Settlement { ticket: c.ticket, outcome: out })] + worker_settlements(
                rows_on(rows, capacity, c.op),
                capacity,
                q.drop_first(),
            )
        }
    }
}

/// The rows left once a running worker has drained a queue: every command
/// up to the first stop outcome has been applied.
pub open spec fn worker_rows(rows: Seq<String>, capacity: int, q: Seq<Command>) -> Seq<String>
    decreases q.len(),
{
    if q.len() == 0 {
        rows
    } else {
        let c = q[0];
        let out = outcome_on(rows, capacity, c.op);
        if out is Stop {
            rows
        } else {
            worker_rows(rows_on(rows, capacity, c.op), capacity, q.drop_first())
        }
    }
}

/// The whole coordination layer as one value.
pub struct System {
    pub chan: Channel,
    pub bridge: Bridge,
    pub worker: Worker,
}

impl System {
    /// Ticket `t` still has a carrier: a queued command that will produce its
    /// settlement, or a posted settlement the host has not run yet.
    pub open spec fn has_carrier(self, t: int) -> bool {
        ||| exists|i: int| queue_carries(self.chan.queue@, i, t)
        ||| exists|j: int| deferred_carries(self.bridge.deferred@, j, t)
    }

    /// The two states are observably the same: every field a contract ever
    /// speaks of is equal.
    pub open spec fn same_state(pre: System, post: System) -> bool {
        &&& post.chan.queue@ == pre.chan.queue@
        &&& post.chan.senders_alive == pre.chan.senders_alive
        &&& post.chan.receiver_alive == pre.chan.receiver_alive
        &&& post.bridge.futures@ == pre.bridge.futures@
        &&& post.bridge.deferred@ == pre.bridge.deferred@
        &&& post.bridge.accepting == pre.bridge.accepting
        &&& post.worker == pre.worker
    }

    /// The system invariant.
    ///
    /// Beyond the resource's own well-formedness: every ticket in flight
    /// names a real future; while the host is accepting, every pending
    /// future has a carrier, which is what makes exactly-once settlement
    /// provable; and the worker's phase agrees with the channel — a stopped
    /// worker has shut the receiving side and left nothing queued.
    pub open spec fn wf(self) -> bool {
        &&& self.worker.resource.wf()
        &&& forall|i: int|
            0 <= i < self.chan.queue@.len() ==> (#[trigger] self.chan.queue@[i]).ticket
                < self.bridge.futures@.len()
        &&& forall|j: int|
            0 <= j < self.bridge.deferred@.len() ==> (#[trigger] self.bridge.deferred@[j]).ticket
                < self.bridge.futures@.len()
        &&& (self.bridge.accepting ==> forall|t: int|
            0 <= t < self.bridge.futures@.len() && (#[trigger] self.bridge.futures@[t]) is Pending
                ==> self.has_carrier(t))
        &&& (self.worker.phase is Running <==> self.chan.receiver_alive)
        &&& (!self.chan.receiver_alive ==> self.chan.queue@.len() == 0)
    }

    /// A just-opened system: everything empty, everyone alive.
    pub open spec fn is_fresh(self, capacity: int) -> bool {
        &&& self.chan.queue@ == Seq::<Command>::empty()
        &&& self.chan.senders_alive
        &&& self.chan.receiver_alive
        &&& self.bridge.futures@ == Seq::<FutureState>::empty()
        &&& self.bridge.deferred@ == Seq::<Settlement>::empty()
        &&& self.bridge.accepting
        &&& self.worker.phase is Running
        &&& self.worker.resource.capacity == capacity
        &&& self.worker.resource.rows@ == Seq::<String>::empty()
        &&& self.worker.resource.events@ == Seq::<AccessEvent>::empty()
        &&& self.worker.resource.log@ == Seq::<Operation>::empty()
    }

    /// Opens the resource and stands the system up around it.  Fails, with
    /// the construction error and no worker started, exactly when the
    /// resource itself cannot be created.
    pub fn open(capacity: usize) -> (r: Result<System, Error>)
        ensures
            capacity == 0 ==> (match r {
                Ok(_) => false,
                Err(e) => e == Error::Construction,
            }),
            capacity >= 1 ==> (match r {
                Ok(s) => s.wf() && s.is_fresh(capacity as int),
                Err(_) => false,
            }),
    {
        let resource = match Resource::open(capacity) {
            Ok(resource) => resource,
            Err(e) => {
                return Err(e);
            },
        };
        Ok(
            System {
                chan: Channel::new(),
                bridge: Bridge::new(),
                worker: Worker { phase: WorkerPhase::Running, resource },
            },
        )
    }

    /// What submitting one operation does, whatever the operation is.
    ///
    /// The worker and its resource are never touched: a running system takes
    /// a new pending future and appends one command to the queue, and a
    /// stopped system rejects the new future with the closed error at once,
    /// without the command ever reaching the channel.
    pub open spec fn submitted(pre: System, post: System, op: Operation, t: usize) -> bool {
        &&& t == pre.bridge.futures@.len()
        &&& post.worker == pre.worker
        &&& post.bridge.deferred@ == pre.bridge.deferred@
        &&& post.bridge.accepting == pre.bridge.accepting
        &&& post.chan.senders_alive == pre.chan.senders_alive
        &&& post.chan.receiver_alive == pre.chan.receiver_alive
        &&& (pre.worker.phase is Running ==> {
            &&& post.bridge.futures@ == pre.bridge.futures@.push(FutureState::Pending)
            &&& post.chan.queue@ == pre.chan.queue@.push(Command { op, ticket: t })
        })
        &&& (pre.worker.phase is Stopped ==> {
            &&& post.bridge.futures@ == pre.bridge.futures@.push(
                FutureState::Rejected(Error::Closed),
            )
            &&& post.chan.queue@ == pre.chan.queue@
        })
    }

    /// Creates the future, then either queues the command or rejects the
    /// future immediately because the worker is gone.
    fn submit(&mut self, op: Operation) -> (t: usize)
        requires
            old(self).wf(),
        ensures
            final(self).wf(),
            Self::submitted(*old(self), *final(self), op, t),
            settled_preserved(old(self).bridge.futures@, final(self).bridge.futures@),
    {
        let t = self.bridge.create_future();
        if self.chan.receiver_alive {
            let sent = self.chan.send(Command { op, ticket: t });
            proof {
                assert(sent is Ok);
                let q = self.chan.queue@;
                if self.bridge.accepting {
                    assert forall|u: int|
                        0 <= u < self.bridge.futures@.len() && (#[trigger] self.bridge.futures@[u])
                            is Pending implies self.has_carrier(u) by {
                        if u < old(self).bridge.futures@.len() {
                            assert(old(self).has_carrier(u));
                            if exists|i: int| queue_carries(old(self).chan.queue@, i, u) {
                                let i = choose|i: int| queue_carries(old(self).chan.queue@, i, u);
                                assert(queue_carries(q, i, u));
                            }
                        } else {
                            assert(queue_carries(q, q.len() - 1, u));
                        }
                    }
                }
            }
            t
        } else {
            self.bridge.reject_now(t, Error::Closed);
            proof {
                assert(self.bridge.futures@ =~= old(self).bridge.futures@.push(
                    FutureState::Rejected(Error::Closed),
                ));
                if self.bridge.accepting {
                    assert forall|u: int|
                        0 <= u < self.bridge.futures@.len() && (#[trigger] self.bridge.futures@[u])
                            is Pending implies self.has_carrier(u) by {
                        assert(u < old(self).bridge.futures@.len());
                        assert(old(self).has_carrier(u));
                    }
                }
            }
            t
        }
    }

    /// Asks the worker to store a name.  Returns the ticket of the future
    /// that will carry the generated row id.
    pub fn insert(&mut self, name: String) -> (t: usize)
        requires
            old(self).wf(),
        ensures
            final(self).wf(),
            Self::submitted(*old(self), *final(self), Operation::Insert(name), t),
            settled_preserved(old(self).bridge.futures@, final(self).bridge.futures@),
    {
        self.submit(Operation::Insert(name))
    }

    /// Asks the worker to look a row up.  Returns the ticket of the future
    /// that will carry the name, or the explicit not-found value.
    pub fn get(&mut self, id: u64) -> (t: usize)
        requires
            old(self).wf(),
        ensures
            final(self).wf(),
            Self::submitted(*old(self), *final(self), Operation::Get(id), t),
            settled_preserved(old(self).bridge.futures@, final(self).bridge.futures@),
    {
        self.submit(Operation::Get(id))
    }

    /// Asks the worker to stop once everything queued ahead has run.
    /// Returns the ticket of the future that acknowledges termination.
    pub fn close(&mut self) -> (t: usize)
        requires
            old(self).wf(),
        ensures
            final(self).wf(),
            Self::submitted(*old(self), *final(self), Operation::Close, t),
            settled_preserved(old(self).bridge.futures@, final(self).bridge.futures@),
    {
        self.submit(Operation::Close)
    }

    /// Reads the state of one future.
    pub fn poll(&self, t: usize) -> (r: &FutureState)
        requires
            t < self.bridge.futures@.len(),
        ensures
            *r == self.bridge.futures@[t as int],
    {
        self.bridge.poll(t)
    }

    /// How many futures have been created so far.
    pub fn future_count(&self) -> (n: usize)
        ensures
            n == self.bridge.futures@.len(),
    {
        self.bridge.futures.len()
    }

    /// One turn of the worker loop.
    ///
    /// A stopped worker does nothing.  A running worker with nothing queued
    /// does nothing while senders remain, and stops once they are gone.
    /// Otherwise it takes the oldest command, runs it against the resource
    /// with exclusive access, and posts the settlement.  On a stop outcome —
    /// or when the host no longer accepts settlements — it stops: the
    /// backlog is rejected command by command, in order, and the channel is
    /// shut so that later submissions are turned away at once.
    pub fn worker_step(&mut self) -> (progress: bool)
        requires
            old(self).wf(),
        ensures
            final(self).wf(),
            final(self).bridge.futures@ == old(self).bridge.futures@,
            final(self).bridge.accepting == old(self).bridge.accepting,
            final(self).chan.senders_alive == old(self).chan.senders_alive,
            final(self).worker.resource.capacity == old(self).worker.resource.capacity,
            old(self).worker.phase is Stopped ==> (Self::same_state(*old(self), *final(self))
                && !progress),
            (old(self).worker.phase is Running && old(self).chan.queue@.len() == 0 && old(
                self,
            ).chan.senders_alive) ==> (Self::same_state(*old(self), *final(self)) && !progress),
            (old(self).worker.phase is Running && old(self).chan.queue@.len() == 0 && !old(
                self,
            ).chan.senders_alive) ==> {
                &&& progress
                &&& final(self).worker.phase is Stopped
                &&& final(self).worker.resource == old(self).worker.resource
                &&& final(self).chan.queue@ == Seq::<Command>::empty()
                &&& !final(self).chan.receiver_alive
                &&& final(self).bridge.deferred@ == old(self).bridge.deferred@
            },
            (old(self).worker.phase is Running && old(self).chan.queue@.len() > 0) ==> {
                let c = old(self).chan.queue@[0];
                let out = old(self).worker.resource.outcome_of(c.op);
                let rest = old(self).chan.queue@.drop_first();
                &&& progress
                &&& final(self).worker.resource.events@ == old(self).worker.resource.events@
                    + seq![AccessEvent::Begin(c.op), AccessEvent::End]
                &&& final(self).worker.resource.log@ == old(self).worker.resource.log@.push(c.op)
                &&& final(self).worker.resource.rows@ == old(self).worker.resource.rows_after(c.op)
                &&& ((old(self).bridge.accepting && !(out is Stop)) ==> {
                    &&& final(self).worker.phase is Running
                    &&& final(self).chan.receiver_alive
                    &&& final(self).chan.queue@ == rest
                    &&& final(self).bridge.deferred@ == old(self).bridge.deferred@.push(
                        (Settlement { ticket: c.ticket, outcome: out }),
                    )
                })
                &&& ((old(self).bridge.accepting && out is Stop) ==> {
                    &&& final(self).worker.phase is Stopped
                    &&& final(self).chan.queue@ == Seq::<Command>::empty()
                    &&& !final(self).chan.receiver_alive
                    &&& final(self).bridge.deferred@ == old(self).bridge.deferred@.push(
                        (Settlement { ticket: c.ticket, outcome: out }),
                    ) + rejections(rest)
                })
                &&& (!old(self).bridge.accepting ==> {
                    &&& final(self).worker.phase is Stopped
                    &&& final(self).chan.queue@ == Seq::<Command>::empty()
                    &&& !final(self).chan.receiver_alive
                    &&& final(self).bridge.deferred@ == old(self).bridge.deferred@
                })
            },
    {
        match &self.worker.phase {
            WorkerPhase::Stopped => {
                return false;
            },
            WorkerPhase::Running => {},
        }
        let cmd = match self.chan.recv() {
            Some(cmd) => cmd,
            None => {
                if self.chan.senders_alive {
                    return false;
                }
                self.worker.phase = WorkerPhase::Stopped;
                self.chan.shut_receiver();
                return true;
            },
        };
        let ghost c = cmd;
        let Command { op, ticket } = cmd;
        let outcome = self.worker.resource.execute(op);
        let stopping = match &outcome {
            Outcome::Stop => true,
            _ => false,
        };
        let posted = self.bridge.post(Settlement { ticket, outcome });
        proof {
            let q = self.chan.queue@;
            let d = self.bridge.deferred@;
            if self.bridge.accepting {
                assert forall|u: int|
                    0 <= u < self.bridge.futures@.len() && (#[trigger] self.bridge.futures@[u])
                        is Pending implies self.has_carrier(u) by {
                    assert(old(self).has_carrier(u));
                    if exists|i: int| queue_carries(old(self).chan.queue@, i, u) {
                        let i = choose|i: int| queue_carries(old(self).chan.queue@, i, u);
                        if i == 0 {
                            assert(deferred_carries(d, d.len() - 1, u));
                        } else {
                            assert(queue_carries(q, i - 1, u));
                        }
                    } else {
                        let j = choose|j: int| deferred_carries(old(self).bridge.deferred@, j, u);
                        assert(deferred_carries(d, j, u));
                    }
                }
            }
        }
        if stopping || !posted {
            self.worker.phase = WorkerPhase::Stopped;
            self.reject_backlog();
            self.chan.shut_receiver();
        }
        true
    }

    /// Rejects every command still queued, in queue order, by posting the
    /// closed error for its future.  Runs while the worker is standing down,
    /// so the channel is still receiving but the phase is already stopped.
    fn reject_backlog(&mut self)
        requires
            old(self).worker.resource.wf(),
            old(self).chan.receiver_alive,
            forall|i: int|
                0 <= i < old(self).chan.queue@.len() ==> (#[trigger] old(self).chan.queue@[i]).ticket
                    < old(self).bridge.futures@.len(),
            forall|j: int|
                0 <= j < old(self).bridge.deferred@.len()
                    ==> (#[trigger] old(self).bridge.deferred@[j]).ticket
                    < old(self).bridge.futures@.len(),
            old(self).bridge.accepting ==> forall|t: int|
                0 <= t < old(self).bridge.futures@.len()
                    && (#[trigger] old(self).bridge.futures@[t]) is Pending
                    ==> old(self).has_carrier(t),
        ensures
            final(self).worker == old(self).worker,
            final(self).chan.queue@ == Seq::<Command>::empty(),
            final(self).chan.senders_alive == old(self).chan.senders_alive,
            final(self).chan.receiver_alive,
            final(self).bridge.futures@ == old(self).bridge.futures@,
            final(self).bridge.accepting == old(self).bridge.accepting,
            old(self).bridge.accepting ==> final(self).bridge.deferred@ == old(
                self,
            ).bridge.deferred@ + rejections(old(self).chan.queue@),
            !old(self).bridge.accepting ==> final(self).bridge.deferred@ == old(
                self,
            ).bridge.deferred@,
            forall|j: int|
                0 <= j < final(self).bridge.deferred@.len()
                    ==> (#[trigger] final(self).bridge.deferred@[j]).ticket
                    < final(self).bridge.futures@.len(),
            final(self).bridge.accepting ==> forall|t: int|
                0 <= t < final(self).bridge.futures@.len()
                    && (#[trigger] final(self).bridge.futures@[t]) is Pending
                    ==> final(self).has_carrier(t),
    {
        while self.chan.queue.len() > 0
            invariant
                self.worker == old(self).worker,
                self.chan.senders_alive == old(self).chan.senders_alive,
                self.chan.receiver_alive,
                self.bridge.futures@ == old(self).bridge.futures@,
                self.bridge.accepting == old(self).bridge.accepting,
                self.bridge.accepting ==> self.bridge.deferred@ + rejections(self.chan.queue@)
                    == old(self).bridge.deferred@ + rejections(old(self).chan.queue@),
                !self.bridge.accepting ==> self.bridge.deferred@ == old(self).bridge.deferred@,
                forall|i: int|
                    0 <= i < self.chan.queue@.len() ==> (#[trigger] self.chan.queue@[i]).ticket
                        < self.bridge.futures@.len(),
                forall|j: int|
                    0 <= j < self.bridge.deferred@.len()
                        ==> (#[trigger] self.bridge.deferred@[j]).ticket
                        < self.bridge.futures@.len(),
                self.bridge.accepting ==> forall|t: int|
                    0 <= t < self.bridge.futures@.len() && (#[trigger] self.bridge.futures@[t])
                        is Pending ==> self.has_carrier(t),
            decreases self.chan.queue@.len(),
        {
            let ghost qpre = self.chan.queue@;
            let ghost dpre = self.bridge.deferred@;
            let cmd = self.chan.recv().unwrap();
            let ghost c = cmd;
            let _ = self.bridge.post(
                Settlement { ticket: cmd.ticket, outcome: Outcome::Continue(Err(Error::Closed)) },
            );
            proof {
                let q = self.chan.queue@;
                let d = self.bridge.deferred@;
                let rc = (Settlement {
                    ticket: c.ticket,
                    outcome: Outcome::Continue(Err(Error::Closed)),
                });
                if self.bridge.accepting {
                    assert(rejections(qpre) =~= seq![rc] + rejections(q));
                    assert(d + rejections(q) =~= dpre + rejections(qpre));
                    assert forall|u: int|
                        0 <= u < self.bridge.futures@.len() && (#[trigger] self.bridge.futures@[u])
                            is Pending implies self.has_carrier(u) by {
                        if exists|i: int| queue_carries(qpre, i, u) {
                            let i = choose|i: int| queue_carries(qpre, i, u);
                            if i == 0 {
                                assert(deferred_carries(d, d.len() - 1, u));
                            } else {
                                assert(queue_carries(q, i - 1, u));
                            }
                        } else {
                            let j = choose|j: int| deferred_carries(dpre, j, u);
                            assert(deferred_carries(d, j, u));
                        }
                    }
                }
            }
        }
        proof {
            if self.bridge.accepting {
                assert(rejections(self.chan.queue@) =~= Seq::<Settlement>::empty());
                assert(self.bridge.deferred@ =~= self.bridge.deferred@ + rejections(
                    self.chan.queue@,
                ));
            }
        }
    }

    /// Runs the worker until it would block or has stopped: the queue is
    /// drained in FIFO order.
    ///
    /// The FIFO guarantee is the middle clause below: starting from a
    /// running worker and an accepting host, the resource's log grows by
    /// exactly the operations of the executed prefix of the old queue — the
    /// send order — and one settlement is posted per queued command, again
    /// in send order.  The worker is still running afterwards if and only
    /// if no close command was queued and some sender remains.
    pub fn run_worker(&mut self)
        requires
            old(self).wf(),
        ensures
            final(self).wf(),
            final(self).chan.queue@.len() == 0,
            final(self).bridge.futures@ == old(self).bridge.futures@,
            final(self).bridge.accepting == old(self).bridge.accepting,
            final(self).chan.senders_alive == old(self).chan.senders_alive,
            final(self).worker.resource.capacity == old(self).worker.resource.capacity,
            (old(self).worker.phase is Running && old(self).bridge.accepting) ==> {
                &&& final(self).worker.resource.log@ == old(self).worker.resource.log@ + ops_of(
                    executed_prefix(old(self).chan.queue@),
                )
                &&& settlement_tickets(final(self).bridge.deferred@) == settlement_tickets(
                    old(self).bridge.deferred@,
                ) + tickets_of(old(self).chan.queue@)
                &&& final(self).bridge.deferred@ == old(self).bridge.deferred@
                    + worker_settlements(
                    old(self).worker.resource.rows@,
                    old(self).worker.resource.capacity as int,
                    old(self).chan.queue@,
                )
                &&& final(self).worker.resource.rows@ == worker_rows(
                    old(self).worker.resource.rows@,
                    old(self).worker.resource.capacity as int,
                    old(self).chan.queue@,
                )
                &&& (final(self).worker.phase is Running <==> (close_free(old(self).chan.queue@)
                    && old(self).chan.senders_alive))
            },
            old(self).worker.phase is Stopped ==> Self::same_state(*old(self), *final(self)),
    {
        let ghost cap = old(self).worker.resource.capacity as int;
        loop
            invariant
                self.wf(),
                self.bridge.futures@ == old(self).bridge.futures@,
                self.bridge.accepting == old(self).bridge.accepting,
                self.chan.senders_alive == old(self).chan.senders_alive,
                self.worker.resource.capacity == old(self).worker.resource.capacity,
                cap == old(self).worker.resource.capacity as int,
                (old(self).worker.phase is Running && old(self).bridge.accepting) ==> {
                    &&& old(self).worker.resource.log@ + ops_of(
                        executed_prefix(old(self).chan.queue@),
                    ) == self.worker.resource.log@ + ops_of(executed_prefix(self.chan.queue@))
                    &&& settlement_tickets(old(self).bridge.deferred@) + tickets_of(
                        old(self).chan.queue@,
                    ) == settlement_tickets(self.bridge.deferred@) + tickets_of(self.chan.queue@)
                    &&& old(self).bridge.deferred@ + worker_settlements(
                        old(self).worker.resource.rows@,
                        cap,
                        old(self).chan.queue@,
                    ) == self.bridge.deferred@ + worker_settlements(
                        self.worker.resource.rows@,
                        cap,
                        self.chan.queue@,
                    )
                    &&& worker_rows(old(self).worker.resource.rows@, cap, old(self).chan.queue@)
                        == worker_rows(self.worker.resource.rows@, cap, self.chan.queue@)
                    &&& ((close_free(old(self).chan.queue@) && old(self).chan.senders_alive)
                        <==> (self.worker.phase is Running && close_free(self.chan.queue@)
                        && self.chan.senders_alive))
                },
                old(self).worker.phase is Stopped ==> Self::same_state(*old(self), *self),
            ensures
                self.chan.queue@.len() == 0,
                self.worker.phase is Running ==> self.chan.senders_alive,
            decreases self.chan.queue@.len() + (if self.worker.phase is Running {
                1int
            } else {
                0int
            }),
        {
            let ghost pre = *self;
            if !self.worker_step() {
                break;
            }
            proof {
                if old(self).worker.phase is Running && old(self).bridge.accepting {
                    let q = pre.chan.queue@;
                    if pre.worker.phase is Running && q.len() > 0 {
                        let c = q[0];
                        let rest = q.drop_first();
                        let rows = pre.worker.resource.rows@;
                        let out = outcome_on(rows, cap, c.op);
                        let s = (Settlement { ticket: c.ticket, outcome: out });
                        assert(tickets_of(q) =~= seq![c.ticket] + tickets_of(rest));
                        if c.op is Close {
                            assert(worker_settlements(rows, cap, q) == seq![s] + rejections(rest));
                            assert(self.bridge.deferred@ =~= pre.bridge.deferred@
                                + worker_settlements(rows, cap, q));
                            assert(worker_settlements(self.worker.resource.rows@, cap,
                            self.chan.queue@) =~= Seq::<Settlement>::empty());
                            assert(pre.bridge.deferred@ + worker_settlements(rows, cap, q)
                                =~= self.bridge.deferred@ + worker_settlements(
                                self.worker.resource.rows@,
                                cap,
                                self.chan.queue@,
                            ));
                            assert(worker_rows(rows, cap, q) == rows);
                            assert(self.worker.resource.rows@ == rows);
                            assert(worker_rows(self.worker.resource.rows@, cap, self.chan.queue@)
                                == self.worker.resource.rows@);
                            assert(executed_prefix(q) == q.take(1));
                            assert(ops_of(q.take(1)) =~= seq![c.op]);
                            assert(self.worker.resource.log@ =~= pre.worker.resource.log@ + ops_of(
                                executed_prefix(q),
                            ));
                            assert(ops_of(executed_prefix(self.chan.queue@)) =~= Seq::<
                                Operation,
                            >::empty());
                            assert(pre.worker.resource.log@ + ops_of(executed_prefix(q))
                                =~= self.worker.resource.log@ + ops_of(
                                executed_prefix(self.chan.queue@),
                            ));
                            assert(settlement_tickets(self.bridge.deferred@) =~= settlement_tickets(
                                pre.bridge.deferred@,
                            ) + tickets_of(q));
                            assert(tickets_of(self.chan.queue@) =~= Seq::<usize>::empty());
                            assert(settlement_tickets(pre.bridge.deferred@) + tickets_of(q)
                                =~= settlement_tickets(self.bridge.deferred@) + tickets_of(
                                self.chan.queue@,
                            ));
                            assert(!close_free(q));
                        } else {
                            assert(!(out is Stop));
                            let rows2 = rows_on(rows, cap, c.op);
                            assert(worker_settlements(rows, cap, q) == seq![s]
                                + worker_settlements(rows2, cap, rest));
                            assert(self.worker.resource.rows@ == rows2);
                            assert(self.bridge.deferred@ =~= pre.bridge.deferred@ + seq![s]);
                            assert(pre.bridge.deferred@ + worker_settlements(rows, cap, q)
                                =~= self.bridge.deferred@ + worker_settlements(rows2, cap, rest));
                            assert(worker_rows(rows, cap, q) == worker_rows(rows2, cap, rest));
                            assert(executed_prefix(q) == seq![q[0]] + executed_prefix(rest));
                            assert(ops_of(executed_prefix(q)) =~= seq![c.op] + ops_of(
                                executed_prefix(rest),
                            ));
                            assert(self.chan.queue@ == rest);
                            assert(self.worker.resource.log@ =~= pre.worker.resource.log@ + seq![
                                c.op,
                            ]);
                            assert(pre.worker.resource.log@ + ops_of(executed_prefix(q))
                                =~= self.worker.resource.log@ + ops_of(executed_prefix(rest)));
                            assert(settlement_tickets(self.bridge.deferred@) =~= settlement_tickets(
                                pre.bridge.deferred@,
                            ) + seq![c.ticket]);
                            assert(settlement_tickets(pre.bridge.deferred@) + tickets_of(q)
                                =~= settlement_tickets(self.bridge.deferred@) + tickets_of(rest));
                            assert(close_free(q) <==> close_free(rest)) by {
                                if close_free(rest) && !(c.op is Close) {
                                    assert forall|i: int| 0 <= i < q.len() implies !(
                                    (#[trigger] q[i]).op is Close) by {
                                        if i > 0 {
                                            assert(q[i] == rest[i - 1]);
                                        }
                                    }
                                }
                            }
                        }
                    }
                }
            }
        }
        proof {
            if old(self).worker.phase is Running && old(self).bridge.accepting {
                assert(executed_prefix(self.chan.queue@) == self.chan.queue@);
                assert(ops_of(self.chan.queue@) =~= Seq::<Operation>::empty());
                assert(tickets_of(self.chan.queue@) =~= Seq::<usize>::empty());
                assert(self.worker.resource.log@ =~= self.worker.resource.log@ + ops_of(
                    executed_prefix(self.chan.queue@),
                ));
                assert(settlement_tickets(self.bridge.deferred@) =~= settlement_tickets(
                    self.bridge.deferred@,
                ) + tickets_of(self.chan.queue@));
                assert(old(self).worker.resource.log@ + ops_of(
                    executed_prefix(old(self).chan.queue@),
                ) =~= self.worker.resource.log@);
                assert(settlement_tickets(old(self).bridge.deferred@) + tickets_of(
                    old(self).chan.queue@,
                ) =~= settlement_tickets(self.bridge.deferred@));
                assert(close_free(self.chan.queue@));
                assert(worker_settlements(self.worker.resource.rows@, cap, self.chan.queue@)
                    =~= Seq::<Settlement>::empty());
                assert(old(self).bridge.deferred@ + worker_settlements(
                    old(self).worker.resource.rows@,
                    cap,
                    old(self).chan.queue@,
                ) =~= self.bridge.deferred@);
                assert(worker_rows(self.worker.resource.rows@, cap, self.chan.queue@)
                    == self.worker.resource.rows@);
            }
        }
    }

    /// The host side runs every deferred settlement, oldest first.  The
    /// future table ends exactly as that ordered run leaves it; futures
    /// already settled are untouched.
    pub fn run_host(&mut self)
        requires
            old(self).wf(),
        ensures
            final(self).wf(),
            final(self).bridge.deferred@ == Seq::<Settlement>::empty(),
            final(self).bridge.futures@ == apply_settlements(
                old(self).bridge.futures@,
                old(self).bridge.deferred@,
            ),
            final(self).bridge.futures@.len() == old(self).bridge.futures@.len(),
            settled_preserved(old(self).bridge.futures@, final(self).bridge.futures@),
            final(self).bridge.accepting == old(self).bridge.accepting,
            final(self).chan.queue@ == old(self).chan.queue@,
            final(self).chan.senders_alive == old(self).chan.senders_alive,
            final(self).chan.receiver_alive == old(self).chan.receiver_alive,
            final(self).worker == old(self).worker,
    {
        self.bridge.run_host();
        proof {
            lemma_apply_preserves_settled(old(self).bridge.futures@, old(self).bridge.deferred@);
            if self.bridge.accepting {
                assert forall|u: int|
                    0 <= u < self.bridge.futures@.len() && (#[trigger] self.bridge.futures@[u])
                        is Pending implies self.has_carrier(u) by {
                    if !(old(self).bridge.futures@[u] is Pending) {
                        assert(self.bridge.futures@[u] == old(self).bridge.futures@[u]);
                    }
                    assert(old(self).bridge.futures@[u] is Pending);
                    assert(old(self).has_carrier(u));
                    if !(exists|i: int| queue_carries(old(self).chan.queue@, i, u)) {
                        lemma_apply_settles(
                            old(self).bridge.futures@,
                            old(self).bridge.deferred@,
                            u,
                        );
                    }
                }
            }
        }
    }

    /// Runs the worker until its queue is empty, then the host until every
    /// posted settlement has run.
    ///
    /// Exactly-once settlement: while the host is accepting, this leaves no
    /// future pending — every future ever created now holds the one
    /// resolution or rejection it was settled with, and futures settled
    /// earlier were not touched again.  From a running worker, the whole
    /// result is pinned: the future table ends exactly as running every
    /// pending settlement of the queued commands, in send order, leaves it.
    pub fn run_until_idle(&mut self)
        requires
            old(self).wf(),
        ensures
            final(self).wf(),
            final(self).chan.queue@.len() == 0,
            final(self).bridge.deferred@.len() == 0,
            final(self).bridge.futures@.len() == old(self).bridge.futures@.len(),
            final(self).bridge.accepting == old(self).bridge.accepting,
            settled_preserved(old(self).bridge.futures@, final(self).bridge.futures@),
            old(self).bridge.accepting ==> forall|t: int|
                0 <= t < final(self).bridge.futures@.len() ==> !(
                #[trigger] final(self).bridge.futures@[t] is Pending),
            (old(self).worker.phase is Running && old(self).bridge.accepting) ==> {
                &&& final(self).bridge.futures@ == apply_settlements(
                    old(self).bridge.futures@,
                    old(self).bridge.deferred@ + worker_settlements(
                        old(self).worker.resource.rows@,
                        old(self).worker.resource.capacity as int,
                        old(self).chan.queue@,
                    ),
                )
                &&& final(self).worker.resource.rows@ == worker_rows(
                    old(self).worker.resource.rows@,
                    old(self).worker.resource.capacity as int,
                    old(self).chan.queue@,
                )
            },
    {
        self.run_worker();
        self.run_host();
        proof {
            if self.bridge.accepting {
                lemma_none_pending(*self);
            }
        }
    }

    /// Records that every handle is gone; the worker will stop once the
    /// backlog is drained.
    pub fn drop_senders(&mut self)
        requires
            old(self).wf(),
        ensures
            final(self).wf(),
            final(self).chan.queue@ == old(self).chan.queue@,
            !final(self).chan.senders_alive,
            final(self).chan.receiver_alive == old(self).chan.receiver_alive,
            final(self).bridge == old(self).bridge,
            final(self).worker == old(self).worker,
    {
        self.chan.drop_senders();
    }

    /// Records that the host side has shut down: settlements can no longer
    /// be delivered, and the worker will stop the next time it tries.
    pub fn host_shutdown(&mut self)
        requires
            old(self).wf(),
        ensures
            final(self).wf(),
            final(self).bridge.futures@ == old(self).bridge.futures@,
            final(self).bridge.deferred@ == Seq::<Settlement>::empty(),
            !final(self).bridge.accepting,
            final(self).chan == old(self).chan,
            final(self).worker == old(self).worker,
    {
        self.bridge.host_shutdown();
    }
}

/// At-most-one-writer: in a well-formed system, no two operations have ever
/// run against the resource at the same time — along the whole access
/// record, the number of operations begun and not yet finished never
/// exceeds one.
pub proof fn lemma_no_concurrent_operations(s: System)
    requires
        s.wf(),
    ensures
        forall|i: int|
            0 <= i <= s.worker.resource.events@.len() ==> 0 <= #[trigger] open_accesses(
                s.worker.resource.events@.take(i),
            ) <= 1,
{
    lemma_at_most_one_writer(s.worker.resource.events@);
}

/// No future left behind: while the host is accepting, a well-formed system
/// with nothing queued and nothing deferred has settled every future it
/// ever created.
pub proof fn lemma_none_pending(s: System)
    requires
        s.wf(),
        s.bridge.accepting,
        s.chan.queue@.len() == 0,
        s.bridge.deferred@.len() == 0,
    ensures
        forall|t: int|
            0 <= t < s.bridge.futures@.len() ==> !(#[trigger] s.bridge.futures@[t] is Pending),
{
    assert forall|t: int|
        0 <= t < s.bridge.futures@.len() implies !(#[trigger] s.bridge.futures@[t] is Pending) by {
        if s.bridge.futures@[t] is Pending {
            assert(s.has_carrier(t));
        }
    }
}

} // verus!
