//! A ring of `N` cells that hands values from one producer to one consumer,
//! oldest first, without ever waiting. It holds up to `N - 1` values.
//!
//! The cells are set up once, when the ring is made; sinking and spitting a
//! value allocate nothing. A ring has one owner at a time: whoever shares it
//! between a producer and a consumer hands it to one of them for each attempt.

use crate::ephemeral::arena::{lemma_after, lemma_fresh, lemma_spat, lemma_sunk, Arena};
use crate::ephemeral::queue::{sink_reply, spat, spit_reply, sunk};
use vstd::prelude::*;

verus! {

/// A ring of `N` cells, each empty or holding one value.
pub struct SPSCEphemeral<T, const N: usize> {
    bufr: Vec<Option<T>>,
    head: usize,  // read index
    tail: usize,  // write index
}

impl<T, const N: usize> View for SPSCEphemeral<T, N> {
    type V = Seq<T>;

    /// The queued values, oldest first.
    open spec fn view(&self) -> Seq<T> {
        self.arena().queue()
    }
}

impl<T, const N: usize> SPSCEphemeral<T, N> {
    /// The cells and the two indices.
    pub closed spec fn arena(&self) -> Arena<T> {
        Arena { cells: self.bufr@, head: self.head as nat, tail: self.tail as nat }
    }

    /// What holds of every ring at all times: it has `N` cells, both indices
    /// name a cell, and a cell holds a value exactly when it is live.
    pub open spec fn sound(&self) -> bool {
        self.arena().slots() == N && self.arena().coherent()
    }

    #[verifier::type_invariant]
    spec fn inv(&self) -> bool {
        self.sound()
    }

    /// An empty ring. A ring needs at least one cell, and holds values only
    /// from two cells on.
    pub fn new() -> (r: Self)
        requires
            N >= 1,
        ensures
            r@ == Seq::<T>::empty(),
            r.arena() == Arena::<T>::fresh(N as nat),
            r.sound(),
    {
        let mut bufr: Vec<Option<T>> = Vec::with_capacity(N);
        let mut i: usize = 0;
        while i < N
            invariant
                i <= N,
                bufr@ =~= Seq::new(i as nat, |j: int| None::<T>),
            decreases N - i,
        {
            bufr.push(None);
            i = i + 1;
        }
        proof {
            lemma_fresh::<T>(N as nat);
        }
        Self { bufr, head: 0, tail: 0 }
    }
}

/// Offers `val` to the ring. The value goes in behind those already queued,
/// unless the ring is full: then the ring stays as it was and the value comes
/// back in `Err`.
pub fn sink_value<T, const N: usize>(b: &mut SPSCEphemeral<T, N>, val: T) -> (r: Result<(), T>)
    ensures
        r == sink_reply(old(b)@, N as nat, val),
        final(b)@ == sunk(old(b)@, N as nat, val),
        final(b).arena() == old(b).arena().sunk(val),
        final(b).sound(),
{
    proof {
        use_type_invariant(&*b);
        lemma_after(b.tail as nat, N as nat);
        lemma_sunk(b.arena(), val);
    }
    let head = b.head;
    let tail = b.tail;
    let next = (tail + 1) % N;

    // guard: full
    if next == head {
        return Err(val);
    }
    publish(&mut b.bufr, &mut b.tail, next, val);
    Ok(())
}

/// Asks the ring for its oldest value. `None` when the ring is empty, which
/// then stays as it was.
pub fn spit_value<T, const N: usize>(b: &mut SPSCEphemeral<T, N>) -> (r: Option<T>)
    ensures
        r == spit_reply(old(b)@),
        final(b)@ == spat(old(b)@),
        final(b).arena() == old(b).arena().spat(),
        final(b).sound(),
{
    proof {
        use_type_invariant(&*b);
        lemma_after(b.head as nat, N as nat);
        lemma_spat(b.arena());
    }
    let head = b.head;
    let tail = b.tail;
    let next = (head + 1) % N;

    // guard: empty
    if head == tail {
        return None;
    }
    retire(&mut b.bufr, &mut b.head, next)
}

/// Writes `val` into the cell at `tail`, then moves `tail` to `next`: only
/// then does the value count as queued.
fn publish<T>(cells: &mut Vec<Option<T>>, tail: &mut usize, next: usize, val: T)
    requires
        *old(tail) < old(cells)@.len(),
    ensures
        final(cells)@ == old(cells)@.update(*old(tail) as int, Some(val)),
        *final(tail) == next,
    no_unwind
{
    cells[*tail] = Some(val);
    *tail = next;
}

/// Takes what the cell at `head` holds, leaving it empty, then moves `head` to
/// `next`: only then does the cell count as free.
fn retire<T>(cells: &mut Vec<Option<T>>, head: &mut usize, next: usize) -> (r: Option<T>)
    requires
        *old(head) < old(cells)@.len(),
    ensures
        r == old(cells)@[*old(head) as int],
        final(cells)@ == old(cells)@.update(*old(head) as int, None),
        *final(head) == next,
    no_unwind
{
    let mut val: Option<T> = None;
    core::mem::swap(&mut cells[*head], &mut val);
    *head = next;
    val
}

} // verus!
