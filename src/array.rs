//! Ring buffer backed by a fixed sequence of optional cells.
use vstd::prelude::*;
use crate::model::{replay, step, Op, Outcome};
use crate::ring::{ring_slot, slot_of};

verus! {

/// The value held by an occupied cell.
pub open spec fn occupant<T>(o: Option<T>) -> T {
    match o {
        Some(v) => v,
        None => arbitrary(),
    }
}

/// A bounded FIFO queue of capacity `N` whose elements live in `N` optional
/// cells. The read cursor `read` is the cell of the oldest element and the
/// `len` queued elements follow it around the ring, so the write cursor is
/// `read + len` reduced modulo `N`. Cursors are kept reduced modulo `N`, so they
/// never overflow.
pub struct ArrayBuffer<T, const N: usize> {
    entries: Vec<Option<T>>,
    read: usize,
    len: usize,
}

impl<T, const N: usize> View for ArrayBuffer<T, N> {
    type V = Seq<T>;

    /// The queued elements, oldest first.
    closed spec fn view(&self) -> Seq<T> {
        Seq::new(
            self.len as nat,
            |i: int| occupant(self.entries@[ring_slot(self.read as int, i, N as int)]),
        )
    }
}

impl<T, const N: usize> ArrayBuffer<T, N> {
    /// The buffer's internal invariant: `N` cells, the read cursor inside the
    /// ring, at most `N` queued elements, each queued position occupied and
    /// every other cell empty.
    pub closed spec fn wf(&self) -> bool {
        &&& N > 0
        &&& self.entries@.len() == N
        &&& self.read < N
        &&& self.len <= N
        &&& forall|i: int|
            0 <= i < N ==> (#[trigger] self.entries@[ring_slot(self.read as int, i, N as int)]).is_some()
                == (i < self.len)
    }

    /// Creates an empty buffer of capacity `N`.
    pub fn new() -> (r: Self)
        requires
            N > 0,
        ensures
            r.wf(),
            r@ == Seq::<T>::empty(),
    {
        let mut entries: Vec<Option<T>> = Vec::new();
        let mut k: usize = 0;
        while k < N
            invariant
                k <= N,
                entries@.len() == k,
                forall|j: int| 0 <= j < k ==> (#[trigger] entries@[j]).is_none(),
            decreases N - k,
        {
            entries.push(None);
            k = k + 1;
        }
        let r = ArrayBuffer { entries, read: 0, len: 0 };
        assert(r@ =~= Seq::<T>::empty());
        r
    }

    /// Creates an empty buffer of capacity `N`; the same as `new`.
    pub fn with_capacity() -> (r: Self)
        requires
            N > 0,
        ensures
            r.wf(),
            r@ == Seq::<T>::empty(),
    {
        Self::new()
    }

    /// Appends `item` at the back. On a full buffer nothing changes and the
    /// item comes back as `Some(item)`; otherwise the result is `None`.
    pub fn push(&mut self, item: T) -> (r: Option<T>)
        requires
            old(self).wf(),
        ensures
            final(self).wf(),
            old(self)@.len() == N ==> r == Some(item) && final(self)@ == old(self)@,
            old(self)@.len() < N ==> r == None::<T> && final(self)@ == old(self)@.push(item),
    {
        if self.len == N {
            return Some(item);
        }
        let ghost before = self@;
        let slot = slot_of(self.read, self.len, N);
        self.entries[slot] = Some(item);
        self.len = self.len + 1;
        proof {
            assert forall|i: int| 0 <= i < N implies (#[trigger] self.entries@[ring_slot(
                self.read as int,
                i,
                N as int,
            )]).is_some() == (i < self.len) by {
                assert(ring_slot(self.read as int, i, N as int) == slot <==> i == self.len - 1);
            }
            assert(self@ =~= before.push(item));
        }
        None
    }

    /// Removes and returns the oldest element, or `None` when the buffer is
    /// empty, in which case nothing changes.
    pub fn pop(&mut self) -> (r: Option<T>)
        requires
            old(self).wf(),
        ensures
            final(self).wf(),
            old(self)@.len() == 0 ==> r == None::<T> && final(self)@ == old(self)@,
            old(self)@.len() > 0 ==> r == Some(old(self)@[0]) && final(self)@ == old(self)@.drop_first(),
    {
        if self.len == 0 {
            return None;
        }
        let ghost before = self@;
        let ghost old_read = self.read;
        let slot = self.read;
        assert(ring_slot(old_read as int, 0, N as int) == slot);
        let item = self.entries[slot].take();
        self.read = slot_of(slot, 1, N);
        self.len = self.len - 1;
        proof {
            assert forall|i: int| 0 <= i < N implies (#[trigger] self.entries@[ring_slot(
                self.read as int,
                i,
                N as int,
            )]).is_some() == (i < self.len) by {
                if i < N - 1 {
                    assert(ring_slot(self.read as int, i, N as int) == ring_slot(old_read as int, i + 1, N as int));
                } else {
                    assert(ring_slot(self.read as int, i, N as int) == slot);
                }
            }
            assert forall|i: int| 0 <= i < self.len implies #[trigger] ring_slot(self.read as int, i, N as int)
                == ring_slot(old_read as int, i + 1, N as int) by {}
            assert(self@ =~= before.drop_first());
        }
        item
    }

    /// Performs one operation and reports its outcome, as the queue model
    /// `step` says.
    pub fn apply(&mut self, op: Op<T>) -> (r: Outcome<T>)
        requires
            old(self).wf(),
        ensures
            final(self).wf(),
            (final(self)@, r) == step(old(self)@, N as nat, op),
    {
        match op {
            Op::Push(v) => match self.push(v) {
                None => Outcome::Accepted,
                Some(back) => Outcome::Rejected(back),
            },
            Op::Pop => match self.pop() {
                None => Outcome::Empty,
                Some(v) => Outcome::Popped(v),
            },
        }
    }

    /// Performs `ops` in order and returns their outcomes, as the queue model
    /// `replay` says.
    pub fn replay(&mut self, ops: Vec<Op<T>>) -> (r: Vec<Outcome<T>>)
        requires
            old(self).wf(),
        ensures
            final(self).wf(),
            (final(self)@, r@) == replay(old(self)@, N as nat, ops@),
    {
        let ghost q0 = self@;
        let ghost all = ops@;
        let mut rest = ops;
        let mut outs: Vec<Outcome<T>> = Vec::new();
        let n = rest.len();
        let mut i: usize = 0;
        assert(all.take(0) =~= Seq::<Op<T>>::empty());
        while i < n
            invariant
                self.wf(),
                n == all.len(),
                i <= n,
                rest@ == all.subrange(i as int, n as int),
                (self@, outs@) == replay(q0, N as nat, all.take(i as int)),
            decreases n - i,
        {
            let op = rest.remove(0);
            assert(op == all[i as int]);
            let o = self.apply(op);
            outs.push(o);
            assert(all.take(i + 1).drop_last() =~= all.take(i as int));
            assert(rest@ =~= all.subrange(i + 1, n as int));
            i = i + 1;
        }
        assert(all.take(n as int) =~= all);
        outs
    }

    /// Whether no element is queued.
    pub fn is_empty(&self) -> (r: bool)
        requires
            self.wf(),
        ensures
            r == (self@.len() == 0),
    {
        self.len == 0
    }

    /// Whether `N` elements are queued, so that a push would be rejected.
    pub fn is_full(&self) -> (r: bool)
        requires
            self.wf(),
        ensures
            r == (self@.len() == N),
    {
        self.len() == N
    }

    /// The number of queued elements.
    pub fn len(&self) -> (r: usize)
        requires
            self.wf(),
        ensures
            r == self@.len(),
            r <= N,
    {
        self.len
    }

    /// The fixed capacity `N`.
    pub fn capacity(&self) -> (r: usize)
        ensures
            r == N,
    {
        N
    }
}

} // verus!
