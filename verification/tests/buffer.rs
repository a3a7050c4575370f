use rolling_buffer::RollingBuffer;

#[test]
fn just_write_unchecked() {
    let mut buff: RollingBuffer<4, usize> = RollingBuffer::new(0);
    buff.write_unchecked(1);
    buff.write_unchecked(2);
    buff.write_unchecked(3);
    assert_eq!(buff.slots(), vec![1, 2, 3, 0]);

    buff.write_unchecked(4);
    buff.write_unchecked(5);
    assert_eq!(buff.slots(), vec![5, 2, 3, 4]);
}

#[test]
fn read_write_unchecked() {
    let mut buff: RollingBuffer<4, usize> = RollingBuffer::new(0);
    buff.write_unchecked(1);
    buff.write_unchecked(2);
    buff.write_unchecked(3);
    assert_eq!(buff.slots(), vec![1, 2, 3, 0]);

    assert_eq!(buff.read_unchecked(), Some(1));
    assert_eq!(buff.read_unchecked(), Some(2));
    assert_eq!(buff.read_unchecked(), Some(3));
    assert_eq!(buff.read_unchecked(), None);

    buff.write_unchecked(54);
    assert_eq!(buff.read_unchecked(), Some(54));
}

#[test]
fn just_write_checked() {
    let mut buff: RollingBuffer<5, usize> = RollingBuffer::new(0);
    buff.write(1);
    buff.write(2);
    buff.write(3);
    assert_eq!(buff.write(4), true);
    assert_eq!(buff.write(5), false);
}

#[test]
fn read_write_checked() {
    let mut buff: RollingBuffer<4, usize> = RollingBuffer::new(0);
    buff.write(1);
    buff.write(2);
    assert_eq!(buff.read(), Some(1));
    buff.write(3);
    assert_eq!(buff.write(4), true);
}

#[test]
fn snake() {
    let mut buffer: RollingBuffer<10, i32> = RollingBuffer::new(0);

    for c in 0..5 {
        // Write as much as possible
        for i in 0..9 {
            assert!(buffer.write(i), "Index {i} iter {c}");
        }
        for _ in 0..50 {
            assert_eq!(buffer.write(0), false);
        }

        // Read as much as possible
        for i in 0..9 {
            assert_eq!(buffer.read(), Some(i), "Index {i} iter {c}");
        }
        for _ in 0..50 {
            assert_eq!(buffer.read(), None);
        }

        // Buffer should now be empty
        assert_eq!(buffer.read(), None);
    }
}
