//! The cells of a ring and its two indices, as plain values, and the proof that
//! moving the indices as this module says carries out the bounded queue of
//! [`crate::ephemeral::queue`].
//!
//! `head` is the next cell to read and belongs to the consumer; `tail` is the
//! next cell to write and belongs to the producer. The cells from `head` up to,
//! but not including, `tail`, going round the ring, hold the queued values.
//! `head == tail` means empty; a ring whose `tail` stands one cell before
//! `head` is full, so one cell is always left unused and no counter is needed
//! to tell the two apart.

use crate::ephemeral::queue;
use vstd::prelude::*;

verus! {

/// The cells and indices of a ring.
pub struct Arena<T> {
    /// What each cell holds: a value that waits for the consumer, or nothing.
    pub cells: Seq<Option<T>>,
    /// The index of the next cell to read.
    pub head: nat,
    /// The index of the next cell to write.
    pub tail: nat,
}

impl<T> Arena<T> {
    /// The number of cells.
    pub open spec fn slots(self) -> nat {
        self.cells.len()
    }

    /// The index that follows `i`, going round.
    pub open spec fn after(self, i: nat) -> nat {
        (i + 1) % self.slots()
    }

    /// No value waits.
    pub open spec fn is_empty(self) -> bool {
        self.head == self.tail
    }

    /// No further value fits.
    pub open spec fn is_full(self) -> bool {
        self.after(self.tail) == self.head
    }

    /// Whether cell `i` lies from `head` up to, but not including, `tail`,
    /// going round.
    pub open spec fn live(self, i: int) -> bool {
        if self.head <= self.tail {
            self.head <= i < self.tail
        } else {
            self.head <= i < self.slots() || 0 <= i < self.tail
        }
    }

    /// The number of cells from `head` up to `tail`.
    pub open spec fn count(self) -> nat {
        if self.head <= self.tail {
            (self.tail - self.head) as nat
        } else {
            (self.tail + self.slots() - self.head) as nat
        }
    }

    /// The index of the cell that lies `k` cells after `head`.
    pub open spec fn at(self, k: int) -> int {
        (self.head + k) % (self.slots() as int)
    }

    /// The queued values, oldest first.
    pub open spec fn queue(self) -> Seq<T> {
        Seq::new(self.count(), |k: int| self.cells[self.at(k)].unwrap())
    }

    /// Both indices name a cell, and a cell holds a value exactly when it is
    /// live.
    pub open spec fn coherent(self) -> bool {
        &&& self.head < self.slots()
        &&& self.tail < self.slots()
        &&& forall|i: int| 0 <= i < self.slots() ==> (#[trigger] self.cells[i] is Some <==> self.live(i))
    }

    /// A ring of `slots` empty cells with both indices at the first.
    pub open spec fn fresh(slots: nat) -> Self {
        Arena { cells: Seq::new(slots, |i: int| None), head: 0, tail: 0 }
    }

    /// The ring with `val` in the cell at `tail` and `tail` moved on.
    pub open spec fn written(self, val: T) -> Self {
        Arena {
            cells: self.cells.update(self.tail as int, Some(val)),
            head: self.head,
            tail: self.after(self.tail),
        }
    }

    /// The ring with the cell at `head` emptied and `head` moved on.
    pub open spec fn read(self) -> Self {
        Arena {
            cells: self.cells.update(self.head as int, None),
            head: self.after(self.head),
            tail: self.tail,
        }
    }

    /// The ring after a sink attempt with `val`: written to unless full.
    pub open spec fn sunk(self, val: T) -> Self {
        if self.is_full() {
            self
        } else {
            self.written(val)
        }
    }

    /// The ring after a spit attempt: read from unless empty.
    pub open spec fn spat(self) -> Self {
        if self.is_empty() {
            self
        } else {
            self.read()
        }
    }
}

/// Going round: the index after the last cell is the first, and the index
/// after any other cell is the next one.
pub proof fn lemma_after(i: nat, slots: nat)
    requires
        i < slots,
    ensures
        (i + 1) % slots == (if i + 1 == slots {
            0
        } else {
            i + 1
        }),
{
    if i + 1 == slots {
        vstd::arithmetic::div_mod::lemma_mod_self_0(slots as int);
    } else {
        vstd::arithmetic::div_mod::lemma_small_mod(i + 1, slots);
    }
}

/// The cell that lies `k` cells after `head`, for `k` below the number of
/// cells.
proof fn lemma_at<T>(a: Arena<T>, k: int)
    requires
        a.head < a.slots(),
        0 <= k < a.slots(),
    ensures
        a.at(k) == (if a.head + k < a.slots() {
            a.head + k
        } else {
            a.head + k - a.slots()
        }),
{
    let n = a.slots() as int;
    if a.head + k < n {
        vstd::arithmetic::div_mod::lemma_small_mod((a.head + k) as nat, a.slots());
    } else {
        vstd::arithmetic::div_mod::lemma_mod_sub_multiples_vanish(a.head + k, n);
        vstd::arithmetic::div_mod::lemma_small_mod((a.head + k - n) as nat, a.slots());
    }
}

/// A fresh ring is coherent and holds nothing.
pub proof fn lemma_fresh<T>(slots: nat)
    requires
        slots >= 1,
    ensures
        Arena::<T>::fresh(slots).coherent(),
        Arena::<T>::fresh(slots).slots() == slots,
        Arena::<T>::fresh(slots).queue() == Seq::<T>::empty(),
{
    assert(Arena::<T>::fresh(slots).queue() =~= Seq::<T>::empty());
}

/// A coherent ring holds at most `slots - 1` values; it is empty exactly when
/// it holds none, and full exactly when it holds `slots - 1`. Each queued value
/// sits in a live cell.
pub proof fn lemma_occupancy<T>(a: Arena<T>)
    requires
        a.coherent(),
    ensures
        a.queue().len() == a.count(),
        a.queue().len() + 1 <= a.slots(),
        a.is_empty() <==> a.queue().len() == 0,
        a.is_full() <==> queue::is_full(a.queue(), a.slots()),
        forall|k: int|
            0 <= k < a.count() ==> 0 <= #[trigger] a.at(k) < a.slots() && a.live(a.at(k))
                && a.cells[a.at(k)] == Some(a.queue()[k]),
{
    lemma_after(a.tail, a.slots());
    assert forall|k: int| 0 <= k < a.count() implies 0 <= #[trigger] a.at(k) < a.slots()
        && a.live(a.at(k)) && a.cells[a.at(k)] == Some(a.queue()[k]) by {
        lemma_at(a, k);
    }
}

/// A sink attempt on a coherent ring leaves a coherent ring of as many cells,
/// and does to the queued values what a sink attempt does to a queue. A value
/// is only ever written into an empty cell.
pub proof fn lemma_sunk<T>(a: Arena<T>, val: T)
    requires
        a.coherent(),
    ensures
        a.sunk(val).coherent(),
        a.sunk(val).slots() == a.slots(),
        a.sunk(val).queue() == queue::sunk(a.queue(), a.slots(), val),
        a.cells[a.tail as int] is None,
{
    lemma_occupancy(a);
    lemma_after(a.tail, a.slots());
    if !a.is_full() {
        let b = a.written(val);
        assert(b.coherent());
        assert(b.count() == a.count() + 1);
        assert forall|k: int| 0 <= k < b.count() implies b.queue()[k] == a.queue().push(val)[k] by {
            lemma_at(a, k);
            lemma_at(b, k);
        }
        assert(b.queue() =~= a.queue().push(val));
    }
}

/// A spit attempt on a coherent ring leaves a coherent ring of as many cells,
/// and does to the queued values what a spit attempt does to a queue. The
/// value handed out is the one in the cell at `head`, which is empty
/// afterwards: no value is read twice.
pub proof fn lemma_spat<T>(a: Arena<T>)
    requires
        a.coherent(),
    ensures
        a.spat().coherent(),
        a.spat().slots() == a.slots(),
        a.spat().queue() == queue::spat(a.queue()),
        queue::spit_reply(a.queue()) == (if a.is_empty() {
            None
        } else {
            a.cells[a.head as int]
        }),
        a.spat().cells[a.head as int] is None,
{
    lemma_occupancy(a);
    lemma_after(a.head, a.slots());
    if !a.is_empty() {
        let b = a.read();
        lemma_at(a, 0);
        assert(b.coherent());
        assert(b.count() + 1 == a.count());
        assert forall|k: int| 0 <= k < b.count() implies b.queue()[k] == a.queue().drop_first()[k] by {
            lemma_at(a, k + 1);
            lemma_at(b, k);
        }
        assert(b.queue() =~= a.queue().drop_first());
    }
}

} // verus!
