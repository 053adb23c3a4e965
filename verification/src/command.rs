//! Units of work and their outcomes.
//!
//! A [`Command`] pairs an operation with the ticket of the future that its
//! result must settle.  Commands are moved into the channel, consumed exactly
//! once by the worker, and never duplicated.

use vstd::prelude::*;

verus! {

/// An operation a caller may ask the worker to run against the resource.
#[derive(Debug, PartialEq, Eq)]
pub enum Operation {
    /// Store a name; the resource answers with the generated row id.
    Insert(String),
    /// Look a name up by row id; the resource answers with the name, or with
    /// an explicit not-found value when no such row exists.
    Get(u64),
    /// Ask the worker to stop once every command ahead of this one has run.
    Close,
}

impl Clone for Operation {
    fn clone(&self) -> (r: Self)
        ensures
            r == *self,
    {
        match self {
            Operation::Insert(name) => Operation::Insert(name.clone()),
            Operation::Get(id) => Operation::Get(*id),
            Operation::Close => Operation::Close,
        }
    }
}

/// A value a successfully run operation produces.
#[derive(Debug, Clone, PartialEq, Eq)]
pub enum Value {
    /// The row id an insert generated.
    Id(u64),
    /// The name a lookup found.
    Found(String),
    /// The explicit answer for a lookup of a missing row; distinct from an
    /// error, so the caller's future resolves rather than rejects.
    NotFound,
    /// The acknowledgement that the worker has accepted an order to stop.
    Done,
}

/// The caller-visible failures of the coordination layer.
#[derive(Debug, Clone, Copy, PartialEq, Eq)]
pub enum Error {
    /// The resource could not be created; the worker never started.
    Construction,
    /// The resource rejected one operation; only that operation's future
    /// rejects.
    Operation,
    /// The worker had already terminated when the operation arrived.
    Closed,
    /// The host stopped accepting settlements; the worker shuts down.
    Settlement,
}

/// What running one command produced: a result to settle with, or the order
/// to stop the worker.  Exactly one outcome exists per command.
#[derive(Debug, PartialEq, Eq)]
pub enum Outcome {
    Continue(Result<Value, Error>),
    Stop,
}

/// A unit of work in flight: the operation together with the ticket of the
/// future awaiting its outcome.
#[derive(Debug, PartialEq, Eq)]
pub struct Command {
    pub op: Operation,
    pub ticket: usize,
}

/// The operations of a queue of commands, in queue order.
pub open spec fn ops_of(q: Seq<Command>) -> Seq<Operation> {
    q.map_values(|c: Command| c.op)
}

/// The tickets of a queue of commands, in queue order.
pub open spec fn tickets_of(q: Seq<Command>) -> Seq<usize> {
    q.map_values(|c: Command| c.ticket)
}

/// Whether a queue holds no close command.
pub open spec fn close_free(q: Seq<Command>) -> bool {
    forall|i: int| 0 <= i < q.len() ==> !((#[trigger] q[i]).op is Close)
}

/// The part of a queue the worker executes before it stops on its own:
/// everything up to and including the first close command, or the whole
/// queue when there is none.
pub open spec fn executed_prefix(q: Seq<Command>) -> Seq<Command>
    decreases q.len(),
{
    if q.len() == 0 {
        q
    } else if q[0].op is Close {
        q.take(1)
    } else {
        seq![q[0]] + executed_prefix(q.drop_first())
    }
}

} // verus!
