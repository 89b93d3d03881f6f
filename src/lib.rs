//! Cooperative stream combinators as verified state machines.
//!
//! Each combinator keeps its own state and decides, from what one poll of a
//! collaborator reported, what happens next. The caller owns the upstream
//! sequence and the task pool, polls them, and hands the outcome in.
use vstd::prelude::*;

pub mod chunks;
pub mod for_each_concurrent;

verus! {

/// What one poll of an upstream sequence reported.
pub enum Upstream<T> {
    /// the sequence produced an item
    Item(T),
    /// the sequence is not ready yet
    Pending,
    /// the sequence will produce nothing more
    Exhausted,
}

} // verus!
