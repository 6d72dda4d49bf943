//! Utilities to synchronize among asynchronous tasks, and to test them.
//!
//! * [Notify] notifies one task or all attached tasks to wake up.
//! * [watch] is a channel to publish and subscribe values.
//! * [parker] lets one task park and another one unpark it.
//! * [attribute] tells how to run an asynchronous test.
//!
//! Tasks that share memory are made of steps, each of which makes one access to it. What a call does
//! that has the memory for itself is stated of the call; what holds whatever order the steps of
//! several calls come in is stated of the [machine](notify::machine) that makes them.
//!
//! Whoever waits leaves a waker, of a type that is up to the caller. Wakers are not woken here: a call
//! returns those that are to be woken.

pub mod atomic;
pub mod attribute;
pub mod notify;
pub mod parker;
pub mod task;
pub mod watch;

pub use crate::notify::memory::Notify;
pub use crate::notify::notified::Notified;
