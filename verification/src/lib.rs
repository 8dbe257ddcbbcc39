//! Supervision of a dynamic set of cooperating tasks: a live-task counter with a
//! single completion waiter, and a cancellation-safe registry of shutdown waiters.

pub mod group;
pub mod intrusive;
pub mod lemmas;
pub mod spawn;
pub mod state;
pub mod task;
