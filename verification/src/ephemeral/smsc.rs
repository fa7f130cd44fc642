//! The ring of [`crate::ephemeral::spsc`] at a fixed size of sixteen cells,
//! which hold up to fifteen values.

use crate::ephemeral::arena::Arena;
use crate::ephemeral::queue::{sink_reply, spat, spit_reply, sunk};
use crate::ephemeral::spsc;
use crate::ephemeral::spsc::SPSCEphemeral;
use vstd::prelude::*;

verus! {

/// The number of cells.
pub const ARENA_SIZE: usize = 16;

/// A ring of sixteen cells.
pub struct EphemeralBuffer<T> {
    ring: SPSCEphemeral<T, ARENA_SIZE>,
}

impl<T> View for EphemeralBuffer<T> {
    type V = Seq<T>;

    /// The queued values, oldest first.
    open spec fn view(&self) -> Seq<T> {
        self.arena().queue()
    }
}

impl<T> EphemeralBuffer<T> {
    /// The cells and the two indices.
    pub closed spec fn arena(&self) -> Arena<T> {
        self.ring.arena()
    }

    /// What holds of every buffer at all times: it has sixteen cells, both
    /// indices name a cell, and a cell holds a value exactly when it is live.
    pub open spec fn sound(&self) -> bool {
        self.arena().slots() == ARENA_SIZE && self.arena().coherent()
    }

    /// An empty buffer.
    pub fn new() -> (r: Self)
        ensures
            r@ == Seq::<T>::empty(),
            r.arena() == Arena::<T>::fresh(ARENA_SIZE as nat),
            r.sound(),
    {
        Self { ring: SPSCEphemeral::new() }
    }
}

/// Offers `val` to the buffer. The value goes in behind those already queued,
/// unless the buffer is full: then the buffer stays as it was and the value
/// comes back in `Err`.
pub fn sink_value<T>(b: &mut EphemeralBuffer<T>, val: T) -> (r: Result<(), T>)
    ensures
        r == sink_reply(old(b)@, ARENA_SIZE as nat, val),
        final(b)@ == sunk(old(b)@, ARENA_SIZE as nat, val),
        final(b).arena() == old(b).arena().sunk(val),
        final(b).sound(),
{
    spsc::sink_value(&mut b.ring, val)
}

/// Asks the buffer for its oldest value. `None` when the buffer is empty,
/// which then stays as it was.
pub fn spit_value<T>(b: &mut EphemeralBuffer<T>) -> (r: Option<T>)
    ensures
        r == spit_reply(old(b)@),
        final(b)@ == spat(old(b)@),
        final(b).arena() == old(b).arena().spat(),
        final(b).sound(),
{
    spsc::spit_value(&mut b.ring)
}

} // verus!
