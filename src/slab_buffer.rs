//! Ring buffer whose elements live in a slab pool, reached from each ring slot
//! through an index table of pool keys.
use vstd::prelude::*;
use slab::Slab;
use crate::pool::{pool_entries, pool_insert, pool_remove, pool_set, pool_with_capacity};
use crate::model::{replay, step, Op, Outcome};
use crate::ring::{ring_slot, slot_of};

verus! {

/// The key held by a used index entry.
pub open spec fn handle(o: Option<usize>) -> usize {
    match o {
        Some(k) => k,
        None => arbitrary(),
    }
}

/// A bounded FIFO queue of capacity `N` of `u64` values kept in a slab pool.
/// The values are plain integers so that what the pool holds can be described
/// as a map from key to value.
/// `index` maps each ring slot to the pool key of its element, or to `None`
/// while the slot is unused. The oldest element sits in slot `read`; the `len`
/// queued elements follow it around the ring.
pub struct SlabBuffer<const N: usize> {
    entries: Slab<u64>,
    index: Vec<Option<usize>>,
    read: usize,
    len: usize,
}

impl<const N: usize> View for SlabBuffer<N> {
    type V = Seq<u64>;

    /// The queued elements, oldest first.
    closed spec fn view(&self) -> Seq<u64> {
        Seq::new(
            self.len as nat,
            |i: int|
                pool_entries(self.entries)[handle(
                    self.index@[ring_slot(self.read as int, i, N as int)],
                )],
        )
    }
}

impl<const N: usize> SlabBuffer<N> {
    /// The buffer's internal invariant: an index entry for each of the `N`
    /// slots, the read cursor inside the ring, at most `N` queued elements,
    /// each queued slot holding a key, and every key held by the index live in
    /// the pool and held by one slot only.
    pub closed spec fn wf(&self) -> bool {
        &&& N > 0
        &&& self.index@.len() == N
        &&& self.read < N
        &&& self.len <= N
        &&& forall|i: int|
            0 <= i < self.len ==> (#[trigger] self.index@[ring_slot(
                self.read as int,
                i,
                N as int,
            )]).is_some()
        &&& forall|p: int|
            0 <= p < N && (#[trigger] self.index@[p]).is_some() ==> pool_entries(
                self.entries,
            ).contains_key(handle(self.index@[p]))
        &&& forall|p: int, q: int|
            0 <= p < N && 0 <= q < N && p != q && (#[trigger] self.index@[p]).is_some() && (
            #[trigger] self.index@[q]).is_some() ==> handle(self.index@[p]) != handle(
                self.index@[q],
            )
    }

    /// Creates an empty buffer of capacity `N`, with room in the pool for `N`
    /// values and every index entry unused.
    pub fn with_capacity() -> (r: Self)
        requires
            N > 0,
        ensures
            r.wf(),
            r@ == Seq::<u64>::empty(),
    {
        let entries = pool_with_capacity(N);
        let mut index: Vec<Option<usize>> = Vec::new();
        let mut k: usize = 0;
        while k < N
            invariant
                k <= N,
                index@.len() == k,
                forall|j: int| 0 <= j < k ==> (#[trigger] index@[j]).is_none(),
            decreases N - k,
        {
            index.push(None);
            k = k + 1;
        }
        let r = SlabBuffer { entries, index, read: 0, len: 0 };
        assert(r@ =~= Seq::<u64>::empty());
        r
    }

    /// Appends `item` at the back. On a full buffer nothing changes and the
    /// item comes back as `Some(item)`; otherwise the result is `None`. An
    /// unused slot gets a fresh pool entry; a slot that still holds a key has
    /// its entry overwritten in place.
    pub fn push(&mut self, item: u64) -> (r: Option<u64>)
        requires
            old(self).wf(),
        ensures
            final(self).wf(),
            old(self)@.len() == N ==> r == Some(item) && final(self)@ == old(self)@,
            old(self)@.len() < N ==> r == None::<u64> && final(self)@ == old(self)@.push(item),
    {
        if self.len == N {
            return Some(item);
        }
        let ghost before = self@;
        let ghost old_index = self.index@;
        let slot = slot_of(self.read, self.len, N);
        match self.index[slot] {
            None => {
                let k = pool_insert(&mut self.entries, item);
                self.index[slot] = Some(k);
            },
            Some(k) => {
                pool_set(&mut self.entries, k, item);
            },
        }
        self.len = self.len + 1;
        proof {
            assert forall|i: int| 0 <= i < self.len - 1 implies #[trigger] ring_slot(
                self.read as int,
                i,
                N as int,
            ) != slot by {}
            assert forall|i: int| 0 <= i < self.len implies (#[trigger] self.index@[ring_slot(
                self.read as int,
                i,
                N as int,
            )]).is_some() by {
                if i < self.len - 1 {
                    assert(old_index[ring_slot(self.read as int, i, N as int)].is_some());
                }
            }
            assert forall|p: int| 0 <= p < N && (#[trigger] self.index@[p]).is_some() implies pool_entries(
                self.entries,
            ).contains_key(handle(self.index@[p])) by {
                if p != slot {
                    assert(old_index[p].is_some());
                }
            }
            assert forall|p: int, q: int|
                0 <= p < N && 0 <= q < N && p != q && (#[trigger] self.index@[p]).is_some() && (
                #[trigger] self.index@[q]).is_some() implies handle(self.index@[p]) != handle(
                self.index@[q],
            ) by {
                if p != slot && q != slot {
                    assert(old_index[p].is_some() && old_index[q].is_some());
                } else if p == slot {
                    assert(old_index[q].is_some());
                } else {
                    assert(old_index[p].is_some());
                }
            }
            assert forall|i: int| 0 <= i < self.len - 1 implies self@[i] == before[i] by {
                let s = ring_slot(self.read as int, i, N as int);
                assert(old_index[s].is_some());
                assert(old_index[slot as int].is_some() ==> handle(old_index[s]) != handle(
                    old_index[slot as int],
                ));
            }
            assert(self@ =~= before.push(item));
        }
        None
    }

    /// Removes and returns the oldest element, or `None` when the buffer is
    /// empty, in which case nothing changes. The element's pool entry is
    /// released and its slot marked unused.
    pub fn pop(&mut self) -> (r: Option<u64>)
        requires
            old(self).wf(),
        ensures
            final(self).wf(),
            old(self)@.len() == 0 ==> r == None::<u64> && final(self)@ == old(self)@,
            old(self)@.len() > 0 ==> r == Some(old(self)@[0]) && final(self)@
                == old(self)@.drop_first(),
    {
        if self.len == 0 {
            return None;
        }
        let ghost before = self@;
        let ghost old_read = self.read;
        let ghost old_index = self.index@;
        let slot = self.read;
        assert(ring_slot(old_read as int, 0, N as int) == slot);
        let k = match self.index[slot] {
            None => {
                return None;
            },
            Some(k) => k,
        };
        let item = pool_remove(&mut self.entries, k);
        self.index[slot] = None;
        self.read = slot_of(slot, 1, N);
        self.len = self.len - 1;
        proof {
            assert forall|i: int| 0 <= i < self.len implies #[trigger] ring_slot(
                self.read as int,
                i,
                N as int,
            ) == ring_slot(old_read as int, i + 1, N as int) && ring_slot(
                old_read as int,
                i + 1,
                N as int,
            ) != slot by {}
            assert forall|i: int| 0 <= i < self.len implies (#[trigger] self.index@[ring_slot(
                self.read as int,
                i,
                N as int,
            )]).is_some() by {
                assert(old_index[ring_slot(old_read as int, i + 1, N as int)].is_some());
            }
            assert forall|p: int| 0 <= p < N && (#[trigger] self.index@[p]).is_some() implies pool_entries(
                self.entries,
            ).contains_key(handle(self.index@[p])) by {
                assert(old_index[p].is_some());
                assert(old_index[slot as int].is_some());
            }
            assert forall|p: int, q: int|
                0 <= p < N && 0 <= q < N && p != q && (#[trigger] self.index@[p]).is_some() && (
                #[trigger] self.index@[q]).is_some() implies handle(self.index@[p]) != handle(
                self.index@[q],
            ) by {
                assert(old_index[p].is_some() && old_index[q].is_some());
            }
            assert forall|i: int| 0 <= i < self.len implies self@[i] == before[i + 1] by {
                let s = ring_slot(old_read as int, i + 1, N as int);
                assert(old_index[s].is_some());
                assert(old_index[slot as int].is_some());
            }
            assert(self@ =~= before.drop_first());
        }
        Some(item)
    }

    /// Performs one operation and reports its outcome, as the queue model
    /// `step` says.
    pub fn apply(&mut self, op: Op<u64>) -> (r: Outcome<u64>)
        requires
            old(self).wf(),
        ensures
            final(self).wf(),
            (final(self)@, r) == step(old(self)@, N as nat, op),
    {
        match op {
            Op::Push(v) => match self.push(v) {
                None => Outcome::Accepted,
                Some(back) => Outcome::Rejected(back),
            },
            Op::Pop => match self.pop() {
                None => Outcome::Empty,
                Some(v) => Outcome::Popped(v),
            },
        }
    }

    /// Performs `ops` in order and returns their outcomes, as the queue model
    /// `replay` says.
    pub fn replay(&mut self, ops: Vec<Op<u64>>) -> (r: Vec<Outcome<u64>>)
        requires
            old(self).wf(),
        ensures
            final(self).wf(),
            (final(self)@, r@) == replay(old(self)@, N as nat, ops@),
    {
        let ghost q0 = self@;
        let ghost all = ops@;
        let mut rest = ops;
        let mut outs: Vec<Outcome<u64>> = Vec::new();
        let n = rest.len();
        let mut i: usize = 0;
        assert(all.take(0) =~= Seq::<Op<u64>>::empty());
        while i < n
            invariant
                self.wf(),
                n == all.len(),
                i <= n,
                rest@ == all.subrange(i as int, n as int),
                (self@, outs@) == replay(q0, N as nat, all.take(i as int)),
            decreases n - i,
        {
            let op = rest.remove(0);
            assert(op == all[i as int]);
            let o = self.apply(op);
            outs.push(o);
            assert(all.take(i + 1).drop_last() =~= all.take(i as int));
            assert(rest@ =~= all.subrange(i + 1, n as int));
            i = i + 1;
        }
        assert(all.take(n as int) =~= all);
        outs
    }

    /// Whether no element is queued.
    pub fn is_empty(&self) -> (r: bool)
        requires
            self.wf(),
        ensures
            r == (self@.len() == 0),
    {
        self.len == 0
    }

    /// Whether `N` elements are queued, so that a push would be rejected.
    pub fn is_full(&self) -> (r: bool)
        requires
            self.wf(),
        ensures
            r == (self@.len() == N),
    {
        self.len() == N
    }

    /// The number of queued elements.
    pub fn len(&self) -> (r: usize)
        requires
            self.wf(),
        ensures
            r == self@.len(),
            r <= N,
    {
        self.len
    }

    /// The fixed capacity `N`.
    pub fn capacity(&self) -> (r: usize)
        ensures
            r == N,
    {
        N
    }
}

} // verus!
