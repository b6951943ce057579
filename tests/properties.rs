use donut::{ArrayBuffer, Op, Outcome, SlabBuffer};

#[test]
fn fifo_interleaved_array() {
    let mut b: ArrayBuffer<u64, 6> = ArrayBuffer::new();
    let mut out = Vec::new();
    for v in 1..=10u64 {
        assert_eq!(b.push(v), None);
        if v % 2 == 0 {
            out.push(b.pop().unwrap());
        }
    }
    while let Some(v) = b.pop() {
        out.push(v);
    }
    assert_eq!(out, (1..=10u64).collect::<Vec<u64>>());
}

#[test]
fn fifo_interleaved_slab() {
    let mut b: SlabBuffer<6> = SlabBuffer::with_capacity();
    let mut out = Vec::new();
    for v in 1..=10u64 {
        assert_eq!(b.push(v * 7), None);
        if v % 2 == 0 {
            out.push(b.pop().unwrap());
        }
    }
    while let Some(v) = b.pop() {
        out.push(v);
    }
    assert_eq!(out, (1..=10u64).map(|v| v * 7).collect::<Vec<u64>>());
}

#[test]
fn capacity_bound_array() {
    let mut b: ArrayBuffer<String, 3> = ArrayBuffer::new();
    assert_eq!(b.push("a".to_string()), None);
    assert_eq!(b.push("b".to_string()), None);
    assert_eq!(b.push("c".to_string()), None);
    assert!(b.is_full());
    assert_eq!(b.push("d".to_string()), Some("d".to_string()));
    assert!(b.is_full());
    assert_eq!(b.len(), 3);
    assert_eq!(b.capacity(), 3);
}

#[test]
fn capacity_bound_slab() {
    let mut b: SlabBuffer<2> = SlabBuffer::with_capacity();
    assert_eq!(b.push(5), None);
    assert_eq!(b.push(6), None);
    assert!(b.is_full());
    assert_eq!(b.push(u64::MAX), Some(u64::MAX));
    assert_eq!(b.len(), 2);
    assert_eq!(b.capacity(), 2);
}

#[test]
fn pop_on_empty() {
    let mut a: ArrayBuffer<u64, 2> = ArrayBuffer::new();
    let mut s: SlabBuffer<2> = SlabBuffer::with_capacity();
    assert!(a.is_empty());
    assert_eq!(a.pop(), None);
    assert_eq!(a.len(), 0);
    assert!(a.is_empty());
    assert!(s.is_empty());
    assert_eq!(s.pop(), None);
    assert_eq!(s.len(), 0);
    assert!(!s.is_full());
}

#[test]
fn round_trip_both() {
    let mut a: ArrayBuffer<u64, 1> = ArrayBuffer::new();
    let mut s: SlabBuffer<1> = SlabBuffer::with_capacity();
    for v in [0u64, 1, 42, u64::MAX] {
        assert_eq!(a.push(v), None);
        assert_eq!(a.pop(), Some(v));
        assert_eq!(s.push(v), None);
        assert_eq!(s.pop(), Some(v));
    }
    assert!(a.is_empty());
    assert!(s.is_empty());
}

#[test]
fn replay_outcomes_exact() {
    let mut a: ArrayBuffer<u64, 2> = ArrayBuffer::new();
    let ops = vec![
        Op::Pop,
        Op::Push(9),
        Op::Push(8),
        Op::Push(7),
        Op::Pop,
        Op::Push(6),
        Op::Pop,
        Op::Pop,
        Op::Pop,
    ];
    let outs = a.replay(ops);
    assert_eq!(
        outs,
        vec![
            Outcome::Empty,
            Outcome::Accepted,
            Outcome::Accepted,
            Outcome::Rejected(7),
            Outcome::Popped(9),
            Outcome::Accepted,
            Outcome::Popped(8),
            Outcome::Popped(6),
            Outcome::Empty,
        ]
    );
}

#[test]
fn backend_equivalence() {
    let mut a: ArrayBuffer<u64, 4> = ArrayBuffer::new();
    let mut s: SlabBuffer<4> = SlabBuffer::with_capacity();
    let mut ops = Vec::new();
    for k in 0..40u64 {
        if k % 3 == 2 || k % 7 == 0 {
            ops.push(Op::Pop);
        } else {
            ops.push(Op::Push(k * 11));
        }
    }
    let ra = a.replay(ops.clone());
    let rs = s.replay(ops);
    assert_eq!(ra, rs);
    assert_eq!(a.len(), s.len());
    while let Some(v) = a.pop() {
        assert_eq!(s.pop(), Some(v));
    }
    assert_eq!(s.pop(), None);
}

#[test]
fn apply_single_steps() {
    let mut s: SlabBuffer<1> = SlabBuffer::with_capacity();
    assert_eq!(s.apply(Op::Push(3)), Outcome::Accepted);
    assert_eq!(s.apply(Op::Push(4)), Outcome::Rejected(4));
    assert_eq!(s.apply(Op::Pop), Outcome::Popped(3));
    assert_eq!(s.apply(Op::Pop), Outcome::Empty);
}
