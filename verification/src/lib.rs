//! A bounded first-in first-out queue over a ring of slots, in which each
//! slot carries a sequence marker that hands it from the writer of a turn to
//! the reader of that turn and on to the writer of the next lap.
//!
//! - `turn`: the arithmetic of turns, markers and slot indices.
//! - `slot`, `buffer`: the queue for a single owner, with its contracts
//!   stated over the model in `fifo`; `laws` holds what follows for runs of
//!   pushes and pops.
//! - `driver`: the calls as state machines for a ring in shared memory.
//! - `protocol`, `safety`, `guarantees`, `progress`, `refinement`: the
//!   protocol as a transition system of interleaved threads, its invariant,
//!   what it guarantees, when a call returns, and how the driver follows it.

pub mod turn;
pub mod fifo;
pub mod slot;
pub mod buffer;
pub mod driver;
pub mod laws;
pub mod protocol;
pub mod safety;
pub mod guarantees;
pub mod progress;
pub mod refinement;

pub use crate::buffer::{Buffer, InvalidCapacity, QueueFull};
pub use crate::slot::Slot;
