use rolling_buffer::RollingBuffer;

#[test]
fn new_fills_every_slot_with_default() {
    let buff: RollingBuffer<6, i32> = RollingBuffer::new(7);
    assert_eq!(buff.slots(), vec![7, 7, 7, 7, 7, 7]);
}

#[test]
fn new_buffer_is_empty() {
    let mut buff: RollingBuffer<6, i32> = RollingBuffer::new(0);
    assert_eq!(buff.read(), None);
}

#[test]
fn capacity_is_one_less_than_size() {
    let mut buff: RollingBuffer<8, u32> = RollingBuffer::new(0);
    for i in 0..7 {
        assert!(buff.write(i));
    }
    assert_eq!(buff.write(7), false);
}

#[test]
fn fifo_order_kept() {
    let mut buff: RollingBuffer<8, u32> = RollingBuffer::new(0);
    for v in [11, 22, 33, 44, 55] {
        assert!(buff.write(v));
    }
    for v in [11, 22, 33, 44, 55] {
        assert_eq!(buff.read(), Some(v));
    }
    assert_eq!(buff.read(), None);
}

#[test]
fn empty_after_drain_stays_empty() {
    let mut buff: RollingBuffer<5, u8> = RollingBuffer::new(0);
    for v in 1..=4 {
        assert!(buff.write(v));
    }
    for v in 1..=4 {
        assert_eq!(buff.read(), Some(v));
    }
    for _ in 0..100 {
        assert_eq!(buff.read(), None);
    }
}

#[test]
fn wraparound_one_by_one() {
    // Writing and reading one value at a time wraps both cursors past the
    // end of the storage many times over.
    let mut buff: RollingBuffer<4, u32> = RollingBuffer::new(0);
    for v in 0..25 {
        assert!(buff.write(v));
        assert_eq!(buff.read(), Some(v));
        assert_eq!(buff.read(), None);
    }
}

#[test]
fn unchecked_overwrite_loses_unread_values() {
    let mut buff: RollingBuffer<4, u32> = RollingBuffer::new(0);
    // One unchecked write more than the capacity: the write cursor catches
    // up with the read cursor, and everything unread tests as gone.
    buff.write_unchecked(1);
    buff.write_unchecked(2);
    buff.write_unchecked(3);
    buff.write_unchecked(4);
    assert_eq!(buff.read(), None);
    // The cursors are still consistent: the buffer works on as usual.
    assert!(buff.write(5));
    assert_eq!(buff.read(), Some(5));
    assert_eq!(buff.read(), None);
}

#[test]
fn unchecked_overwrite_beyond_capacity() {
    let mut buff: RollingBuffer<4, u32> = RollingBuffer::new(0);
    for v in 1..=6 {
        buff.write_unchecked(v);
    }
    // Writes 1..=4 filled and then emptied the buffer; 5 and 6 remain.
    assert_eq!(buff.read(), Some(5));
    assert_eq!(buff.read(), Some(6));
    assert_eq!(buff.read(), None);
}

#[test]
fn single_slot_buffer_holds_nothing() {
    let mut buff: RollingBuffer<1, u8> = RollingBuffer::new(0);
    assert_eq!(buff.write(1), false);
    assert_eq!(buff.read(), None);
}

#[test]
fn two_slot_buffer_holds_one_value() {
    let mut buff: RollingBuffer<2, u8> = RollingBuffer::new(0);
    assert!(buff.write(9));
    assert_eq!(buff.write(10), false);
    assert_eq!(buff.read(), Some(9));
    assert_eq!(buff.read(), None);
}

#[test]
fn producer_consumer_interleaved() {
    // One producer writing 0..59 in order, retrying refused writes, and one
    // consumer draining with checked reads, interleaved in bursts so that
    // the buffer repeatedly fills up and empties out: the consumer observes
    // every value exactly once, in ascending order.
    let mut buff: RollingBuffer<25, i32> = RollingBuffer::new(0);
    let mut next: i32 = 0;
    let mut seen: Vec<i32> = Vec::new();
    while seen.len() < 60 {
        // Producer burst: the write of a refused value is retried in a
        // later burst.
        for _ in 0..31 {
            if next < 60 && buff.write(next) {
                next += 1;
            }
        }
        // Consumer burst.
        for _ in 0..7 {
            if let Some(v) = buff.read() {
                seen.push(v);
            }
        }
    }
    let expected: Vec<i32> = (0..60).collect();
    assert_eq!(seen, expected);
    assert_eq!(buff.read(), None);
}

#[test]
fn boundary_full_cycle() {
    // Nine writes into ten slots all succeed, the tenth write is refused,
    // nine reads hand the values back in order, and a tenth read reports
    // emptiness.
    let mut buff: RollingBuffer<10, i32> = RollingBuffer::new(0);
    for i in 0..9 {
        assert!(buff.write(i));
    }
    assert_eq!(buff.write(9), false);
    for i in 0..9 {
        assert_eq!(buff.read(), Some(i));
    }
    assert_eq!(buff.read(), None);
}
