//! The resource the worker owns: an in-memory table of named rows.
//!
//! The resource is deliberately simple — insert a name and get a generated
//! id back, or look a name up by id — because what matters here is the
//! discipline around it, not the data.  The driver is instrumented: it keeps
//! an access record of begin/end marks and a log of every operation it ran,
//! so that exclusive access and execution order are stated facts, not hopes.

use vstd::prelude::*;

use crate::command::{Error, Operation, Outcome, Value};

verus! {

/// One mark in the access record: an operation began, or the operation that
/// last began finished.
#[derive(Debug, PartialEq, Eq)]
pub enum AccessEvent {
    Begin(Operation),
    End,
}

/// A well-formed access record: begin and end marks strictly alternate,
/// starting with a begin and ending closed.  Every access interval is
/// therefore disjoint from every other.
pub open spec fn bracketed(s: Seq<AccessEvent>) -> bool {
    &&& s.len() % 2 == 0
    &&& forall|i: int| #![trigger s[i]]
        0 <= i < s.len() ==> (if i % 2 == 0 {
            s[i] is Begin
        } else {
            s[i] is End
        })
}

/// How many operations a record leaves begun but not finished.
pub open spec fn open_accesses(s: Seq<AccessEvent>) -> int
    decreases s.len(),
{
    if s.len() == 0 {
        0
    } else {
        open_accesses(s.drop_last()) + (if s.last() is Begin {
            1int
        } else {
            -1int
        })
    }
}

/// The operations a record shows as executed, in execution order.
pub open spec fn executed_ops(s: Seq<AccessEvent>) -> Seq<Operation>
    decreases s.len(),
{
    if s.len() == 0 {
        Seq::empty()
    } else {
        executed_ops(s.drop_last()) + (match s.last() {
            AccessEvent::Begin(op) => seq![op],
            AccessEvent::End => seq![],
        })
    }
}

/// A bracketed record stays bracketed when one whole access is appended.
pub proof fn lemma_bracketed_append(s: Seq<AccessEvent>, op: Operation)
    requires
        bracketed(s),
    ensures
        bracketed(s + seq![AccessEvent::Begin(op), AccessEvent::End]),
{
    let t = s + seq![AccessEvent::Begin(op), AccessEvent::End];
    assert forall|i: int| #![trigger t[i]]
        0 <= i < t.len() implies (if i % 2 == 0 {
        t[i] is Begin
    } else {
        t[i] is End
    }) by {
        if i < s.len() {
            assert(t[i] == s[i]);
        }
    }
}

/// Appending one whole access appends exactly its operation to the record's
/// executed operations.
pub proof fn lemma_executed_ops_append(s: Seq<AccessEvent>, op: Operation)
    ensures
        executed_ops(s + seq![AccessEvent::Begin(op), AccessEvent::End]) == executed_ops(s).push(
            op,
        ),
{
    let t = s + seq![AccessEvent::Begin(op), AccessEvent::End];
    let u = s + seq![AccessEvent::Begin(op)];
    assert(t.drop_last() =~= u);
    assert(u.drop_last() =~= s);
    assert(executed_ops(u) =~= executed_ops(s).push(op));
    assert(executed_ops(t) =~= executed_ops(u));
}

/// In a bracketed record, a prefix of even length is fully closed and a
/// prefix of odd length has exactly one access open.
proof fn lemma_open_prefix(s: Seq<AccessEvent>, i: int)
    requires
        bracketed(s),
        0 <= i <= s.len(),
    ensures
        open_accesses(s.take(i)) == i % 2,
    decreases i,
{
    if i == 0 {
        assert(s.take(0) =~= Seq::<AccessEvent>::empty());
    } else {
        lemma_open_prefix(s, i - 1);
        let t = s.take(i);
        assert(t.drop_last() =~= s.take(i - 1));
        assert(t.last() == s[i - 1]);
    }
}

/// At-most-one-writer: along any bracketed access record, the number of
/// operations begun and not yet finished never exceeds one — no two
/// operations ever run against the resource at the same time.
pub proof fn lemma_at_most_one_writer(s: Seq<AccessEvent>)
    requires
        bracketed(s),
    ensures
        forall|i: int|
            0 <= i <= s.len() ==> 0 <= #[trigger] open_accesses(s.take(i)) <= 1,
{
    assert forall|i: int|
        0 <= i <= s.len() implies 0 <= #[trigger] open_accesses(s.take(i)) <= 1 by {
        lemma_open_prefix(s, i);
    }
}

/// What one operation answers against a table with the given rows and
/// capacity: an insert within capacity stores the name and answers the
/// generated row id, an insert beyond it fails with the operation error, a
/// lookup answers the name or the explicit not-found value, and a close
/// orders the worker to stop.
pub open spec fn outcome_on(rows: Seq<String>, capacity: int, op: Operation) -> Outcome {
    match op {
        Operation::Insert(name) => if rows.len() < capacity {
            Outcome::Continue(Ok(Value::Id((rows.len() + 1) as u64)))
        } else {
            Outcome::Continue(Err(Error::Operation))
        },
        Operation::Get(id) => Outcome::Continue(
            Ok(
                if 1 <= id && id <= rows.len() {
                    Value::Found(rows[id - 1])
                } else {
                    Value::NotFound
                },
            ),
        ),
        Operation::Close => Outcome::Stop,
    }
}

/// The rows after one operation runs against them.
pub open spec fn rows_on(rows: Seq<String>, capacity: int, op: Operation) -> Seq<String> {
    match op {
        Operation::Insert(name) => if rows.len() < capacity {
            rows.push(name)
        } else {
            rows
        },
        _ => rows,
    }
}

/// The worker's exclusively owned table, instrumented for observation.
pub struct Resource {
    /// The stored names; the row with id `i` is `rows[i - 1]`.
    pub rows: Vec<String>,
    /// How many rows the table accepts before it rejects an insert.
    pub capacity: usize,
    /// The access record: a begin mark before each operation runs and an end
    /// mark after it finishes.
    pub events: Vec<AccessEvent>,
    /// Every operation that has run, in execution order.
    pub log: Vec<Operation>,
}

impl Resource {
    /// Well-formedness: a usable capacity, rows within it, a properly
    /// bracketed access record, and a log that matches that record.
    pub open spec fn wf(self) -> bool {
        &&& self.capacity >= 1
        &&& self.rows@.len() <= self.capacity
        &&& bracketed(self.events@)
        &&& self.log@ == executed_ops(self.events@)
    }

    /// What one operation answers, given the current rows.
    pub open spec fn outcome_of(self, op: Operation) -> Outcome {
        outcome_on(self.rows@, self.capacity as int, op)
    }

    /// The rows after one operation runs.
    pub open spec fn rows_after(self, op: Operation) -> Seq<String> {
        rows_on(self.rows@, self.capacity as int, op)
    }

    /// Creates the table, or reports that it cannot be created.  A capacity
    /// of zero could never accept a row, so construction rejects it up
    /// front and the worker never starts.
    pub fn open(capacity: usize) -> (r: Result<Resource, Error>)
        ensures
            capacity == 0 ==> r == Result::<Resource, Error>::Err(Error::Construction),
            capacity >= 1 ==> (match r {
                Ok(res) => {
                    &&& res.wf()
                    &&& res.capacity == capacity
                    &&& res.rows@ == Seq::<String>::empty()
                    &&& res.events@ == Seq::<AccessEvent>::empty()
                    &&& res.log@ == Seq::<Operation>::empty()
                },
                Err(_) => false,
            }),
    {
        if capacity == 0 {
            Err(Error::Construction)
        } else {
            Ok(Resource { rows: Vec::new(), capacity, events: Vec::new(), log: Vec::new() })
        }
    }

    /// Runs one operation with exclusive access: brackets it in the access
    /// record, appends it to the log, applies its effect to the rows, and
    /// answers with its outcome.
    pub fn execute(&mut self, op: Operation) -> (r: Outcome)
        requires
            old(self).wf(),
        ensures
            final(self).wf(),
            final(self).capacity == old(self).capacity,
            final(self).events@ == old(self).events@ + seq![
                AccessEvent::Begin(op),
                AccessEvent::End,
            ],
            final(self).log@ == old(self).log@.push(op),
            final(self).rows@ == old(self).rows_after(op),
            r == old(self).outcome_of(op),
    {
        let recorded = op.clone();
        self.events.push(AccessEvent::Begin(recorded));
        let r = match op {
            Operation::Insert(name) => {
                if self.rows.len() < self.capacity {
                    self.rows.push(name.clone());
                    let id = self.rows.len() as u64;
                    self.log.push(Operation::Insert(name));
                    Outcome::Continue(Ok(Value::Id(id)))
                } else {
                    self.log.push(Operation::Insert(name));
                    Outcome::Continue(Err(Error::Operation))
                }
            },
            Operation::Get(id) => {
                let v = if 1 <= id && id <= self.rows.len() as u64 {
                    let idx = (id - 1) as usize;
                    Value::Found(self.rows[idx].clone())
                } else {
                    Value::NotFound
                };
                self.log.push(Operation::Get(id));
                Outcome::Continue(Ok(v))
            },
            Operation::Close => {
                self.log.push(Operation::Close);
                Outcome::Stop
            },
        };
        self.events.push(AccessEvent::End);
        proof {
            assert(self.events@ =~= old(self).events@ + seq![
                AccessEvent::Begin(op),
                AccessEvent::End,
            ]);
            lemma_bracketed_append(old(self).events@, op);
            lemma_executed_ops_append(old(self).events@, op);
        }
        r
    }
}

} // verus!
