use circbuf::CircBuf;

/// Collect the values an iteration yields, oldest first.
fn collected<const SIZE: usize>(buf: &CircBuf<i32, SIZE>) -> Vec<i32> {
    let mut out = Vec::new();
    let mut it = buf.iter();
    while let Some(v) = it.next() {
        out.push(*v);
    }
    out
}

#[test]
fn test_empty_pop() {
    let mut buf: CircBuf<i32, 8> = CircBuf::new();
    assert!(buf.is_empty());
    assert_eq!(buf.pop(), None);
}

#[test]
fn test_wrapping_push() {
    let mut buf: CircBuf<_, 5> = CircBuf::new();
    for i in 0..5 {
        buf.push(i);
    }
    for (j, expected) in [0, 1, 2, 3, 4].iter().enumerate() {
        assert_eq!(buf.cell(j).copied(), Some(*expected));
    }
    buf.push(5);
    for (j, expected) in [5, 1, 2, 3, 4].iter().enumerate() {
        assert_eq!(buf.cell(j).copied(), Some(*expected));
    }
}

#[test]
fn test_wrapping_pop() {
    let mut buf: CircBuf<_, 5> = CircBuf::new();
    for i in 0..6 {
        buf.push(i);
    }
    assert_eq!(buf.pop(), Some(1));
    assert_eq!(buf.len(), 4);
    assert_eq!(buf.cell(0).copied(), Some(5));
    for (j, expected) in [2, 3, 4].iter().enumerate() {
        assert_eq!(buf.cell(j + 2).copied(), Some(*expected));
    }
}

#[test]
fn test_iter() {
    let mut buf: CircBuf<_, 8> = CircBuf::new();
    for i in 0..6 {
        buf.push(i);
    }
    buf.pop();

    assert_eq!(collected(&buf), vec![1, 2, 3, 4, 5]);
}

#[test]
fn fill_to_capacity_keeps_order() {
    let mut buf: CircBuf<i32, 4> = CircBuf::new();
    for i in 0..4 {
        assert!(!buf.is_full());
        buf.push(10 + i);
    }
    assert_eq!(buf.len(), 4);
    assert!(buf.is_full());
    assert_eq!(collected(&buf), vec![10, 11, 12, 13]);
}

#[test]
fn push_past_capacity_evicts_oldest() {
    let mut buf: CircBuf<i32, 4> = CircBuf::new();
    for i in 0..4 {
        buf.push(i);
    }
    buf.push(4);
    assert_eq!(buf.len(), 4);
    assert!(buf.is_full());
    assert_eq!(collected(&buf), vec![1, 2, 3, 4]);
}

#[test]
fn empty_pop_leaves_state_unchanged() {
    let mut buf: CircBuf<i32, 3> = CircBuf::new();
    assert!(buf.is_empty());
    assert_eq!(buf.pop(), None);
    assert!(buf.is_empty());
    assert_eq!(buf.len(), 0);
    buf.push(7);
    assert_eq!(buf.len(), 1);
    assert_eq!(*buf.get(0), 7);
}

#[test]
fn partial_fill_pops_in_fifo_order() {
    let mut buf: CircBuf<i32, 8> = CircBuf::new();
    for i in 0..5 {
        buf.push(i);
    }
    for expected in 0..5 {
        let before = buf.len();
        assert_eq!(buf.pop(), Some(expected));
        assert_eq!(buf.len(), before - 1);
        let rest = collected(&buf);
        assert!(!rest.contains(&expected));
    }
    assert!(buf.is_empty());
}

#[test]
fn random_access_matches_iteration() {
    let mut buf: CircBuf<i32, 5> = CircBuf::new();
    for i in 0..7 {
        buf.push(i * 3);
    }
    let seq = collected(&buf);
    assert_eq!(seq.len(), buf.len());
    for (i, v) in seq.iter().enumerate() {
        assert_eq!(buf.get(i), v);
    }
}

#[test]
fn capacity_five_example() {
    let mut buf: CircBuf<i32, 5> = CircBuf::new();
    for i in 0..5 {
        buf.push(i);
    }
    assert_eq!(collected(&buf), vec![0, 1, 2, 3, 4]);
    buf.push(5);
    for (j, expected) in [5, 1, 2, 3, 4].iter().enumerate() {
        assert_eq!(buf.cell(j).copied(), Some(*expected));
    }
    assert_eq!(collected(&buf), vec![1, 2, 3, 4, 5]);
    assert_eq!(buf.pop(), Some(1));
    assert_eq!(collected(&buf), vec![2, 3, 4, 5]);
    assert_eq!(buf.len(), 4);
}

#[test]
fn mutation_touches_one_position_only() {
    let mut buf: CircBuf<i32, 4> = CircBuf::new();
    for i in 0..6 {
        buf.push(i);
    }
    assert_eq!(collected(&buf), vec![2, 3, 4, 5]);
    *buf.get_mut(1) = 42;
    assert_eq!(buf.len(), 4);
    assert_eq!(collected(&buf), vec![2, 42, 4, 5]);
}

#[test]
fn round_trip_returns_original_sequence() {
    let mut buf: CircBuf<i32, 6> = CircBuf::new();
    let values = vec![9, 8, 7, 6];
    for v in &values {
        buf.push(*v);
    }
    let mut drained = Vec::new();
    for _ in 0..values.len() {
        drained.push(buf.pop().unwrap());
    }
    assert_eq!(drained, values);
    assert!(buf.is_empty());
    assert_eq!(buf.pop(), None);
}

#[test]
fn zero_capacity_is_degenerate() {
    let mut buf: CircBuf<i32, 0> = CircBuf::new();
    assert!(buf.is_empty());
    assert!(buf.is_full());
    buf.push(1);
    assert!(buf.is_empty());
    assert!(buf.is_full());
    assert_eq!(buf.len(), 0);
    assert_eq!(buf.pop(), None);
}

#[test]
fn default_is_empty() {
    let buf: CircBuf<i32, 3> = CircBuf::default();
    assert!(buf.is_empty());
    assert_eq!(buf.len(), 0);
}

#[test]
fn size_hint_is_exact() {
    let mut buf: CircBuf<i32, 4> = CircBuf::new();
    buf.push(1);
    buf.push(2);
    let it = buf.iter();
    assert_eq!(it.size_hint(), (2, Some(2)));
}

#[test]
fn iteration_cursors_are_independent() {
    let mut buf: CircBuf<i32, 4> = CircBuf::new();
    buf.push(1);
    buf.push(2);
    let mut a = buf.iter();
    assert_eq!(a.next(), Some(&1));
    let mut b = buf.iter();
    assert_eq!(b.next(), Some(&1));
    assert_eq!(a.next(), Some(&2));
    assert_eq!(a.next(), None);
    assert_eq!(b.next(), Some(&2));
}

#[test]
fn owned_values_round_trip() {
    let mut buf: CircBuf<String, 2> = CircBuf::new();
    buf.push(String::from("alpha"));
    buf.push(String::from("beta"));
    buf.push(String::from("gamma"));
    assert_eq!(buf.pop(), Some(String::from("beta")));
    assert_eq!(buf.pop(), Some(String::from("gamma")));
    assert_eq!(buf.pop(), None);
}

#[test]
fn wrapped_access_crosses_boundary() {
    let mut buf: CircBuf<i32, 3> = CircBuf::new();
    for i in 0..5 {
        buf.push(i);
    }
    assert_eq!(*buf.get(0), 2);
    assert_eq!(*buf.get(1), 3);
    assert_eq!(*buf.get(2), 4);
    *buf.get_mut(2) = 40;
    assert_eq!(collected(&buf), vec![2, 3, 40]);
}

#[test]
fn stale_cells_hold_nothing() {
    let mut buf: CircBuf<i32, 3> = CircBuf::new();
    buf.push(1);
    buf.push(2);
    assert_eq!(buf.cell(2), None);
    buf.pop();
    assert_eq!(buf.cell(0), None);
    assert_eq!(buf.cell(1).copied(), Some(2));
}
