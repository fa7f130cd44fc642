//! The bounded first-in-first-out queue that every handoff structure of this
//! crate behaves as, written over plain sequences.
//!
//! A structure with `slots` cells keeps one cell free at all times, so it holds
//! at most `slots - 1` values. A sink attempt appends a value unless the queue
//! is full; a spit attempt removes the oldest value unless the queue is empty.
//! Neither attempt ever waits.

use vstd::prelude::*;

verus! {

/// Whether a structure of `slots` cells that holds `q` has no room for another
/// value.
pub open spec fn is_full<T>(q: Seq<T>, slots: nat) -> bool {
    q.len() + 1 >= slots
}

/// What a sink attempt with `val` answers: `Ok` when the value was taken in,
/// and the value itself, handed back, when the queue was full.
pub open spec fn sink_reply<T>(q: Seq<T>, slots: nat, val: T) -> Result<(), T> {
    if is_full(q, slots) {
        Err(val)
    } else {
        Ok(())
    }
}

/// The queue after a sink attempt with `val`.
pub open spec fn sunk<T>(q: Seq<T>, slots: nat, val: T) -> Seq<T> {
    if is_full(q, slots) {
        q
    } else {
        q.push(val)
    }
}

/// What a spit attempt answers: the oldest value, or `None` when the queue is
/// empty.
pub open spec fn spit_reply<T>(q: Seq<T>) -> Option<T> {
    if q.len() == 0 {
        None
    } else {
        Some(q.first())
    }
}

/// The queue after a spit attempt.
pub open spec fn spat<T>(q: Seq<T>) -> Seq<T> {
    if q.len() == 0 {
        q
    } else {
        q.drop_first()
    }
}

/// One attempt on a structure: the producer offers a value, or the consumer
/// asks for one.
pub enum Attempt<T> {
    Sink(T),
    Spit,
}

/// What a series of attempts has led to.
pub struct Ledger<T> {
    /// The values that the structure holds, oldest first.
    pub held: Seq<T>,
    /// The values that sink attempts were granted, in the order of the
    /// attempts.
    pub taken: Seq<T>,
    /// The values that spit attempts handed out, in the order of the attempts.
    pub given: Seq<T>,
}

/// The ledger of a structure that nothing has been done to yet.
pub open spec fn opening<T>() -> Ledger<T> {
    Ledger { held: Seq::empty(), taken: Seq::empty(), given: Seq::empty() }
}

/// The ledger after one more attempt on a structure of `slots` cells.
pub open spec fn entered<T>(l: Ledger<T>, slots: nat, attempt: Attempt<T>) -> Ledger<T> {
    match attempt {
        Attempt::Sink(val) => Ledger {
            held: sunk(l.held, slots, val),
            taken: match sink_reply(l.held, slots, val) {
                Ok(_) => l.taken.push(val),
                Err(_) => l.taken,
            },
            given: l.given,
        },
        Attempt::Spit => Ledger {
            held: spat(l.held),
            taken: l.taken,
            given: match spit_reply(l.held) {
                Some(val) => l.given.push(val),
                None => l.given,
            },
        },
    }
}

/// The ledger after `attempts`, made one after the other on a fresh structure
/// of `slots` cells. The attempts of the producer and of the consumer may
/// alternate in any way, and any of them may be turned away.
pub open spec fn run<T>(attempts: Seq<Attempt<T>>, slots: nat) -> Ledger<T>
    decreases attempts.len(),
{
    if attempts.len() == 0 {
        opening()
    } else {
        entered(run(attempts.drop_last(), slots), slots, attempts.last())
    }
}

/// The attempts of a producer that offers each of `vals` once, in order.
pub open spec fn offers<T>(vals: Seq<T>) -> Seq<Attempt<T>> {
    Seq::new(vals.len(), |i: int| Attempt::Sink(vals[i]))
}

/// First in, first out. Whatever attempts were made, the values handed out,
/// followed by the values still held, are the values taken in, in the order in
/// which they were taken in. So the values handed out are the first of the
/// values taken in, in the same order: none comes out before an older one,
/// none twice, and none is lost. The structure never holds more than
/// `slots - 1` values.
pub proof fn lemma_first_in_first_out<T>(attempts: Seq<Attempt<T>>, slots: nat)
    ensures
        run(attempts, slots).taken == run(attempts, slots).given + run(attempts, slots).held,
        run(attempts, slots).given.len() <= run(attempts, slots).taken.len(),
        run(attempts, slots).given == run(attempts, slots).taken.take(
            run(attempts, slots).given.len() as int,
        ),
        slots >= 1 ==> run(attempts, slots).held.len() < slots,
    decreases attempts.len(),
{
    let now = run(attempts, slots);
    if attempts.len() == 0 {
        assert(now.taken =~= now.given + now.held);
    } else {
        let before = run(attempts.drop_last(), slots);
        lemma_first_in_first_out(attempts.drop_last(), slots);
        assert(now == entered(before, slots, attempts.last()));
        assert(now.taken =~= now.given + now.held);
    }
    assert(now.given =~= (now.given + now.held).take(now.given.len() as int));
}

/// Nothing is lost when both sides keep trying. Say that the producer has
/// offered each of `vals` until it was taken in, and that the consumer has
/// asked until it was handed as many values. Then the values handed out are
/// `vals`, each once and in order, and the structure is empty again.
pub proof fn lemma_all_delivered<T>(attempts: Seq<Attempt<T>>, slots: nat, vals: Seq<T>)
    requires
        run(attempts, slots).taken == vals,
        run(attempts, slots).given.len() == vals.len(),
    ensures
        run(attempts, slots).given == vals,
        run(attempts, slots).held == Seq::<T>::empty(),
{
    let now = run(attempts, slots);
    lemma_first_in_first_out(attempts, slots);
    assert(now.held =~= Seq::<T>::empty());
    assert(now.given =~= now.taken);
}

/// A producer alone fills a fresh structure without being turned away, as long
/// as it offers no more values than fit.
proof fn lemma_offers_granted<T>(vals: Seq<T>, slots: nat)
    requires
        vals.len() + 1 <= slots,
    ensures
        run(offers(vals), slots).taken == vals,
        run(offers(vals), slots).held == vals,
        run(offers(vals), slots).given == Seq::<T>::empty(),
    decreases vals.len(),
{
    if vals.len() > 0 {
        lemma_offers_granted(vals.drop_last(), slots);
        assert(offers(vals).drop_last() =~= offers(vals.drop_last()));
        assert(offers(vals).last() == Attempt::Sink(vals.last()));
        assert(vals.drop_last().push(vals.last()) =~= vals);
    } else {
        assert(vals =~= Seq::<T>::empty());
    }
}

/// The boundary. Each of `slots - 1` values offered to a fresh structure is
/// taken in. The structure is then full: a further value is handed back as it
/// was offered, and the structure is left as it was. Once a spit attempt has
/// handed out a value, the next value offered is taken in.
pub proof fn lemma_boundary<T>(slots: nat, vals: Seq<T>, extra: T)
    requires
        vals.len() + 1 == slots,
    ensures
        run(offers(vals), slots).taken == vals,
        run(offers(vals), slots).held == vals,
        sink_reply(vals, slots, extra) == Err::<(), T>(extra),
        sunk(vals, slots, extra) == vals,
        slots >= 2 ==> spit_reply(vals) == Some(vals.first()),
        spit_reply(vals) is Some ==> sink_reply(spat(vals), slots, extra) == Ok::<(), T>(()),
{
    lemma_offers_granted(vals, slots);
}

/// A structure that has taken in no value has none to hand out, however often
/// it is asked.
pub proof fn lemma_empty_start<T>(attempts: Seq<Attempt<T>>, slots: nat)
    requires
        forall|i: int| 0 <= i < attempts.len() ==> attempts[i] is Spit,
    ensures
        spit_reply(Seq::<T>::empty()) == None::<T>,
        run(attempts, slots) == opening::<T>(),
    decreases attempts.len(),
{
    if attempts.len() > 0 {
        lemma_empty_start(attempts.drop_last(), slots);
    }
}

/// The queue after `n` spit attempts.
pub open spec fn drained<T>(q: Seq<T>, n: nat) -> Seq<T>
    decreases n,
{
    if n == 0 {
        q
    } else {
        drained(spat(q), (n - 1) as nat)
    }
}

/// As many spit attempts as there are values empty a queue of all but those
/// that came last.
proof fn lemma_drained<T>(q: Seq<T>, n: nat)
    requires
        n <= q.len(),
    ensures
        drained(q, n) == q.skip(n as int),
    decreases n,
{
    if n == 0 {
        assert(q.skip(0) =~= q);
    } else {
        lemma_drained(spat(q), (n - 1) as nat);
        assert(q.drop_first().skip(n - 1) =~= q.skip(n as int));
    }
}

/// What goes in comes out as it went in. A value that is taken in behind
/// `q.len()` others is what the spit attempt after theirs hands out, and it is
/// handed out once: the structure is empty afterwards.
pub proof fn lemma_round_trip<T>(q: Seq<T>, slots: nat, val: T)
    requires
        sink_reply(q, slots, val) is Ok,
    ensures
        spit_reply(drained(sunk(q, slots, val), q.len())) == Some(val),
        spat(drained(sunk(q, slots, val), q.len())) == Seq::<T>::empty(),
{
    let after = sunk(q, slots, val);
    lemma_drained(after, q.len());
    assert(after.skip(q.len() as int) =~= seq![val]);
    assert(seq![val].drop_first() =~= Seq::<T>::empty());
}

} // verus!
