//! An asynchronous exclusive-resource worker.
//!
//! A dedicated worker owns a resource that must never be touched by two
//! operations at once.  Callers hand it units of work through a FIFO command
//! channel and receive a future for each; the worker drains the channel one
//! command at a time, runs each operation against the resource, and forwards
//! the outcome to a completion bridge, which settles the matching future on
//! the host side of the boundary.
//!
//! The crate models the whole coordination layer as explicit state so that
//! its guarantees are theorems: operations run one at a time and in send
//! order, every future is settled exactly once, and a closed system rejects
//! new work immediately.

use vstd::prelude::*;

pub mod bridge;
pub mod channel;
pub mod command;
pub mod resource;
pub mod system;

verus! {

/// Canonical greeting, kept as the crate's smallest verified export.
pub fn say_hello() -> (r: String)
    ensures
        r@ == "Hello, World!"@,
{
    "Hello, World!".to_owned()
}

} // verus!
