//! Notifies one task or all attached tasks to wake up.
//!
//! There is at most one permit. A notification of one task wakes the one that waits longest, or leaves
//! the permit if nobody waits. Whoever comes next takes it and does not wait.
//!
//! A notification of all tasks wakes all that wait or are attached to the round, and starts a new round
//! with no permit.

pub mod all;
pub mod conduct;
pub mod laws;
pub mod list;
pub mod machine;
pub mod memory;
pub mod notified;
pub mod one;
pub mod poll;
pub mod remove;
pub mod state;
pub mod wakeful;
pub mod wakers;

pub use crate::notify::memory::Notify;
pub use crate::notify::notified::Notified;
