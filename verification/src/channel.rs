//! The command channel: an unbounded FIFO queue from callers to the worker.
//!
//! Sending appends at the back; the worker receives from the front, so
//! commands leave in exactly the order they entered.  Once the receiver is
//! gone a send fails and hands the undelivered command back, so that its
//! future can still be rejected instead of left pending.

use vstd::prelude::*;

use crate::command::Command;

verus! {

/// The queue between the resource handle and the worker.
pub struct Channel {
    /// Commands in flight, oldest first.
    pub queue: Vec<Command>,
    /// Whether any sender is still around; when none is, the worker stops
    /// after draining what remains.
    pub senders_alive: bool,
    /// Whether the worker is still receiving; when it is not, sends fail.
    pub receiver_alive: bool,
}

impl Channel {
    /// A fresh, open channel with nothing queued.
    pub fn new() -> (c: Channel)
        ensures
            c.queue@ == Seq::<Command>::empty(),
            c.senders_alive,
            c.receiver_alive,
    {
        Channel { queue: Vec::new(), senders_alive: true, receiver_alive: true }
    }

    /// Appends a command, or hands it back when the receiver is gone.
    pub fn send(&mut self, c: Command) -> (r: Result<(), Command>)
        ensures
            final(self).senders_alive == old(self).senders_alive,
            final(self).receiver_alive == old(self).receiver_alive,
            old(self).receiver_alive ==> {
                &&& r is Ok
                &&& final(self).queue@ == old(self).queue@.push(c)
            },
            !old(self).receiver_alive ==> {
                &&& r == Result::<(), Command>::Err(c)
                &&& final(self).queue@ == old(self).queue@
            },
    {
        if self.receiver_alive {
            self.queue.push(c);
            Ok(())
        } else {
            Err(c)
        }
    }

    /// Takes the oldest queued command, if any.
    pub fn recv(&mut self) -> (r: Option<Command>)
        ensures
            final(self).senders_alive == old(self).senders_alive,
            final(self).receiver_alive == old(self).receiver_alive,
            old(self).queue@.len() > 0 ==> {
                &&& r == Some(old(self).queue@[0])
                &&& final(self).queue@ == old(self).queue@.drop_first()
            },
            old(self).queue@.len() == 0 ==> {
                &&& r is None
                &&& final(self).queue@ == old(self).queue@
            },
    {
        if self.queue.len() > 0 {
            let c = self.queue.remove(0);
            proof {
                assert(self.queue@ =~= old(self).queue@.drop_first());
            }
            Some(c)
        } else {
            None
        }
    }

    /// Records that every sender is gone; nothing new can be queued, and the
    /// worker will stop once the backlog is drained.
    pub fn drop_senders(&mut self)
        ensures
            final(self).queue@ == old(self).queue@,
            !final(self).senders_alive,
            final(self).receiver_alive == old(self).receiver_alive,
    {
        self.senders_alive = false;
    }

    /// Records that the worker has stopped receiving and discards whatever
    /// was still queued; the worker rejects those commands' futures first.
    pub fn shut_receiver(&mut self)
        ensures
            final(self).queue@ == Seq::<Command>::empty(),
            final(self).senders_alive == old(self).senders_alive,
            !final(self).receiver_alive,
    {
        self.queue.clear();
        self.receiver_alive = false;
    }
}

} // verus!
