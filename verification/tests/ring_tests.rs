use ring_buffer::Ring;

#[test]
fn pop_new() {
    let mut ring: Ring<i32> = Ring::new(3);
    assert_eq!(ring.pop(), None);
}

#[test]
fn push_all_pop_all() {
    let mut ring: Ring<i32> = Ring::new(10);
    ring.push(10);
    ring.push(20);
    ring.push(30);
    let ten = ring.pop();
    let twenty = ring.pop();
    let thirty = ring.pop();
    assert_eq!(ten.unwrap(), 10);
    assert_eq!(twenty.unwrap(), 20);
    assert_eq!(thirty.unwrap(), 30);
}

#[test]
fn push_pop_alternating() {
    let mut ring: Ring<i32> = Ring::new(3);
    ring.push(10);
    let ten = ring.pop();
    assert_eq!(ten.unwrap(), 10);

    ring.push(20);
    let twenty = ring.pop().unwrap();
    assert_eq!(twenty, 20);
}

#[test]
fn push_past_capacity() {
    let mut ring: Ring<i32> = Ring::new(3);
    for i in 1..10 {
        ring.push(i);
    }
    let first = ring.pop().unwrap();
    let second = ring.pop().unwrap();
    let third = ring.pop().unwrap();

    assert_eq!(first, 7);
    assert_eq!(second, 8);
    assert_eq!(third, 9);
}

#[test]
fn from_vec() {
    let mut ring: Ring<i32> = Ring::from(vec![1, 2, 3]);
    ring.push(4);
    // The push overwrites the first element, assumed to be the 'oldest'
    assert_eq!(ring.pop().unwrap(), 4);
    assert_eq!(ring.pop().unwrap(), 2);
    assert_eq!(ring.pop().unwrap(), 3);
    assert_eq!(ring.pop(), None);
}

#[test]
fn pop_nothing_for_first_capacity_calls() {
    let mut ring: Ring<u8> = Ring::new(4);
    for _ in 0..4 {
        assert_eq!(ring.pop(), None);
    }
}

#[test]
fn round_trip_below_capacity() {
    let mut ring: Ring<i32> = Ring::new(5);
    ring.push(7);
    ring.push(8);
    assert_eq!(ring.pop(), Some(7));
    assert_eq!(ring.pop(), Some(8));
    assert_eq!(ring.pop(), None);
}

#[test]
fn overflow_full_laps_keeps_fifo_order() {
    let mut ring: Ring<i32> = Ring::new(2);
    for i in 1..7 {
        ring.push(i);
    }
    assert_eq!(ring.pop(), Some(5));
    assert_eq!(ring.pop(), Some(6));
    assert_eq!(ring.pop(), None);
}

#[test]
fn overflow_mid_lap_reads_from_slot_zero() {
    // One push past capacity: the read cursor is still at slot zero, where
    // the newest value landed, so the pops start with it.
    let mut ring: Ring<i32> = Ring::new(3);
    for i in 1..5 {
        ring.push(i);
    }
    assert_eq!(ring.pop(), Some(4));
    assert_eq!(ring.pop(), Some(2));
    assert_eq!(ring.pop(), Some(3));
    assert_eq!(ring.pop(), None);
}

#[test]
fn pop_of_empty_slot_consumes_the_position() {
    let mut ring: Ring<i32> = Ring::new(3);
    assert_eq!(ring.pop(), None);
    ring.push(10);
    ring.push(20);
    // The read cursor moved past slot zero, so the first value seen is 20;
    // slot two was never written; slot zero still holds 10.
    assert_eq!(ring.pop(), Some(20));
    assert_eq!(ring.pop(), None);
    assert_eq!(ring.pop(), Some(10));
}

#[test]
fn capacity_one_overwrites() {
    let mut ring: Ring<i32> = Ring::new(1);
    ring.push(1);
    ring.push(2);
    assert_eq!(ring.pop(), Some(2));
    assert_eq!(ring.pop(), None);
}

#[test]
fn from_single_element_then_push() {
    let mut ring: Ring<i32> = Ring::from(vec![5]);
    ring.push(9);
    assert_eq!(ring.pop(), Some(9));
    assert_eq!(ring.pop(), None);
}
