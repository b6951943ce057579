//! The abstract queue that both buffers implement: a sequence of values and a
//! capacity, driven by a sequence of operations.
use vstd::prelude::*;

verus! {

/// One operation on a queue.
#[derive(Clone, Copy, Debug, PartialEq, Eq)]
pub enum Op<T> {
    Push(T),
    Pop,
}

/// What one operation reports.
#[derive(Clone, Copy, Debug, PartialEq, Eq)]
pub enum Outcome<T> {
    /// A push that stored its value.
    Accepted,
    /// A push on a full queue; the value comes back unchanged.
    Rejected(T),
    /// A pop that removed this value.
    Popped(T),
    /// A pop on an empty queue.
    Empty,
}

/// The queue and the outcome after one operation on queue `q` of capacity `cap`.
pub open spec fn step<T>(q: Seq<T>, cap: nat, op: Op<T>) -> (Seq<T>, Outcome<T>) {
    match op {
        Op::Push(v) => if q.len() >= cap {
            (q, Outcome::Rejected(v))
        } else {
            (q.push(v), Outcome::Accepted)
        },
        Op::Pop => if q.len() == 0 {
            (q, Outcome::Empty)
        } else {
            (q.drop_first(), Outcome::Popped(q[0]))
        },
    }
}

/// The queue and the outcomes, in order, after running `ops` on queue `q` of
/// capacity `cap`.
pub open spec fn replay<T>(q: Seq<T>, cap: nat, ops: Seq<Op<T>>) -> (Seq<T>, Seq<Outcome<T>>)
    decreases ops.len(),
{
    if ops.len() == 0 {
        (q, Seq::empty())
    } else {
        let (mid, outs) = replay(q, cap, ops.drop_last());
        let (fin, o) = step(mid, cap, ops.last());
        (fin, outs.push(o))
    }
}

/// The values of the pushes in `ops` whose outcome in `outs` is `Accepted`, in
/// order.
pub open spec fn accepted<T>(ops: Seq<Op<T>>, outs: Seq<Outcome<T>>) -> Seq<T>
    decreases ops.len(),
{
    if ops.len() == 0 || outs.len() == 0 {
        Seq::empty()
    } else {
        let before = accepted(ops.drop_last(), outs.drop_last());
        match (ops.last(), outs.last()) {
            (Op::Push(v), Outcome::Accepted) => before.push(v),
            _ => before,
        }
    }
}

/// The values that the pops in `outs` removed, in order.
pub open spec fn popped<T>(outs: Seq<Outcome<T>>) -> Seq<T>
    decreases outs.len(),
{
    if outs.len() == 0 {
        Seq::empty()
    } else {
        match outs.last() {
            Outcome::Popped(v) => popped(outs.drop_last()).push(v),
            _ => popped(outs.drop_last()),
        }
    }
}

} // verus!
