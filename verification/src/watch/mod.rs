//! Channel to publish and subscribe values.
//!
//! The latest value can be borrowed at any time. A value stays in its slot as long as it is the latest
//! one or somebody has borrowed it; then it is dropped, and its slot is free for another value.

pub mod channel;
pub mod conduct;
pub mod frees;
pub mod laws;
pub mod lend;
pub mod machine;
pub mod publish;
pub mod shared;
pub mod table;

pub use crate::watch::channel::{channel, Receiver, Sender};
pub use crate::watch::lend::Ref;
pub use crate::watch::shared::{RecvError, SendError, Shared};
