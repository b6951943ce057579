//! Laws of the queue model, and through the buffers' contracts, of both
//! storage strategies.
use vstd::prelude::*;
use crate::array::ArrayBuffer;
use crate::model::{accepted, popped, replay, Op, Outcome};
use crate::slab_buffer::SlabBuffer;

verus! {

/// A push of each value of `vals`, in order.
pub open spec fn pushes<T>(vals: Seq<T>) -> Seq<Op<T>> {
    vals.map_values(|v: T| Op::Push(v))
}

/// Running `ops` yields one outcome per operation.
pub proof fn lemma_replay_len<T>(q: Seq<T>, cap: nat, ops: Seq<Op<T>>)
    ensures
        replay(q, cap, ops).1.len() == ops.len(),
    decreases ops.len(),
{
    if ops.len() > 0 {
        lemma_replay_len(q, cap, ops.drop_last());
    }
}

/// Values leave in the order in which they were accepted: what the queue held
/// at the start followed by every accepted value equals every popped value
/// followed by what the queue holds at the end.
pub proof fn lemma_conservation<T>(q: Seq<T>, cap: nat, ops: Seq<Op<T>>)
    ensures
        q + accepted(ops, replay(q, cap, ops).1) == popped(replay(q, cap, ops).1) + replay(
            q,
            cap,
            ops,
        ).0,
    decreases ops.len(),
{
    if ops.len() == 0 {
        assert(q + Seq::<T>::empty() =~= Seq::<T>::empty() + q);
    } else {
        let prev = ops.drop_last();
        lemma_conservation(q, cap, prev);
        lemma_replay_len(q, cap, prev);
        let (mid, outs) = replay(q, cap, prev);
        let (fin, all) = replay(q, cap, ops);
        assert(all.drop_last() =~= outs);
        match ops.last() {
            Op::Push(v) => {
                if mid.len() < cap {
                    assert((q + accepted(prev, outs)).push(v) =~= q + accepted(prev, outs).push(v));
                    assert((popped(outs) + mid).push(v) =~= popped(outs) + mid.push(v));
                }
            },
            Op::Pop => {
                if mid.len() > 0 {
                    assert(popped(outs).push(mid[0]) + mid.drop_first() =~= popped(outs) + mid);
                }
            },
        }
    }
}

/// FIFO: starting from an empty queue, the popped values are exactly the first
/// accepted values, in push order, and never more than were accepted.
pub proof fn lemma_fifo<T>(cap: nat, ops: Seq<Op<T>>)
    ensures
        ({
            let outs = replay(Seq::<T>::empty(), cap, ops).1;
            &&& popped(outs).len() <= accepted(ops, outs).len()
            &&& popped(outs) == accepted(ops, outs).take(popped(outs).len() as int)
        }),
{
    let q = Seq::<T>::empty();
    lemma_conservation(q, cap, ops);
    let (fin, outs) = replay(q, cap, ops);
    assert(q + accepted(ops, outs) =~= accepted(ops, outs));
    assert((popped(outs) + fin).take(popped(outs).len() as int) =~= popped(outs));
}

/// `k` pushes into an empty queue of capacity at least `k` are all accepted
/// and leave the queue holding the pushed values.
pub proof fn lemma_pushes_fill<T>(vals: Seq<T>, cap: nat)
    requires
        vals.len() <= cap,
    ensures
        replay(Seq::<T>::empty(), cap, pushes(vals)) == (vals, Seq::new(
            vals.len(),
            |i: int| Outcome::<T>::Accepted,
        )),
    decreases vals.len(),
{
    if vals.len() == 0 {
        assert(pushes(vals) =~= Seq::<Op<T>>::empty());
        assert(Seq::new(vals.len(), |i: int| Outcome::<T>::Accepted) =~= Seq::<Outcome<T>>::empty());
        assert(vals =~= Seq::<T>::empty());
    } else {
        let prev = vals.drop_last();
        lemma_pushes_fill(prev, cap);
        assert(pushes(vals).drop_last() =~= pushes(prev));
        assert(prev.push(vals.last()) =~= vals);
        assert(Seq::new(prev.len(), |i: int| Outcome::<T>::Accepted).push(Outcome::Accepted)
            =~= Seq::new(vals.len(), |i: int| Outcome::<T>::Accepted));
    }
}

/// Capacity bound: after `cap` accepted pushes into an empty queue, the next
/// push is rejected with its own value and the queue is full.
pub proof fn lemma_capacity_bound<T>(vals: Seq<T>, v: T, cap: nat)
    requires
        vals.len() == cap,
    ensures
        ({
            let (fin, outs) = replay(Seq::<T>::empty(), cap, pushes(vals).push(Op::Push(v)));
            &&& outs.len() == cap + 1
            &&& forall|i: int| 0 <= i < cap ==> outs[i] == Outcome::<T>::Accepted
            &&& outs[cap as int] == Outcome::Rejected(v)
            &&& fin == vals
            &&& fin.len() == cap
        }),
{
    lemma_pushes_fill(vals, cap);
    assert(pushes(vals).push(Op::Push(v)).drop_last() =~= pushes(vals));
}

/// Round trip: on an empty queue of positive capacity, a push of `v` followed
/// by a pop gives `v` back and leaves the queue empty.
pub proof fn lemma_round_trip<T>(cap: nat, v: T)
    requires
        cap > 0,
    ensures
        replay(Seq::<T>::empty(), cap, seq![Op::Push(v), Op::Pop]) == (
            Seq::<T>::empty(),
            seq![Outcome::<T>::Accepted, Outcome::Popped(v)],
        ),
{
    let e = Seq::<T>::empty();
    let ops = seq![Op::Push(v), Op::Pop];
    assert(ops.drop_last() =~= seq![Op::Push(v)]);
    assert(seq![Op::Push(v)].drop_last() =~= Seq::<Op<T>>::empty());
    assert(replay(e, cap, Seq::<Op<T>>::empty()) == (e, Seq::<Outcome<T>>::empty()));
    assert(replay(e, cap, seq![Op::Push(v)]) == (e.push(v), Seq::<Outcome<T>>::empty().push(
        Outcome::Accepted,
    )));
    assert(Seq::<T>::empty().push(v).drop_first() =~= Seq::<T>::empty());
    assert(Seq::<Outcome<T>>::empty().push(Outcome::Accepted).push(Outcome::Popped(v)) =~= seq![
        Outcome::<T>::Accepted,
        Outcome::Popped(v),
    ]);
}

/// Backend equivalence: an array-backed and a slab-backed buffer of the same
/// capacity that hold the same values report the same outcomes and end up
/// holding the same values for every sequence of operations; and both start
/// out empty.
pub proof fn lemma_backend_equivalence<const N: usize>(
    a: ArrayBuffer<u64, N>,
    s: SlabBuffer<N>,
    ops: Seq<Op<u64>>,
)
    requires
        a.wf(),
        s.wf(),
        a@ == s@,
    ensures
        replay(a@, N as nat, ops) == replay(s@, N as nat, ops),
{
}

} // verus!
