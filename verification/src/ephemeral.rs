//! The structures, and the two models that say what they do: the queue of
//! values that a structure is from outside, and the arena of cells and indices
//! that a ring is inside.

pub mod arena;
pub mod queue;
pub mod smsc;
pub mod source;
pub mod spsc;
