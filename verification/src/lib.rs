//! Handing values from one producer to one consumer without waiting: a ring of
//! cells that keeps the values in order, and a mailbox of a single cell.
//!
//! Every structure here answers at once. A producer that is turned away gets
//! its value back and may offer it again; a consumer that finds nothing may ask
//! again. How long either of them waits in between is theirs to decide.

pub mod ephemeral;
