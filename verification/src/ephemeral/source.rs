//! A mailbox: one cell that hands one value at a time from a producer to a
//! consumer. It behaves as a ring of two cells, of which one stays free.

use crate::ephemeral::queue::{sink_reply, spat, spit_reply, sunk};
use vstd::prelude::*;

verus! {

/// The number of cells of the ring that a mailbox behaves as.
pub const SLOTS: usize = 2;

/// A cell that is empty or holds one value.
pub struct EphemeralSource<T> {
    value: Option<T>,
}

impl<T> View for EphemeralSource<T> {
    type V = Seq<T>;

    /// The value that waits, if any: a queue of at most one value.
    closed spec fn view(&self) -> Seq<T> {
        match self.value {
            Some(value) => seq![value],
            None => Seq::empty(),
        }
    }
}

impl<T> EphemeralSource<T> {
    /// An empty mailbox.
    pub fn new() -> (r: Self)
        ensures
            r@ == Seq::<T>::empty(),
    {
        Self { value: None }
    }

    /// Offers `value` to the mailbox. The mailbox takes it unless it still
    /// holds a value: then it stays as it was and `value` comes back in `Err`,
    /// for the producer to offer again once the consumer has been there.
    pub fn set(&mut self, value: T) -> (r: Result<(), T>)
        ensures
            r == sink_reply(old(self)@, SLOTS as nat, value),
            final(self)@ == sunk(old(self)@, SLOTS as nat, value),
            final(self)@.len() <= 1,
    {
        if self.value.is_some() {
            return Err(value);
        }
        self.value = Some(value);
        Ok(())
    }

    /// Takes the value out of the mailbox, which is empty afterwards. `None`
    /// when the mailbox holds no value.
    pub fn get(&mut self) -> (r: Option<T>)
        ensures
            r == spit_reply(old(self)@),
            final(self)@ == spat(old(self)@),
            final(self)@ == Seq::<T>::empty(),
    {
        let value = self.value.take();
        assert(self@ =~= spat(old(self)@));
        value
    }
}

} // verus!
