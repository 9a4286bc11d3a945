use sdr_pipeline::ringbuf::RingBuf;

#[test]
fn test_ringbuf_overwrite() {
    let capacity = 5;
    let mut ring = RingBuf::<u8>::new(capacity, true, 0);

    let message = "hello world, this is your programmer writing".as_bytes();

    let mut buff = Vec::<u8>::new();
    buff.resize(message.len(), 0);

    let w = ring.put(message);
    assert_eq!(message.len(), w);
    let r = ring.get(buff.as_mut_slice());
    assert_eq!(capacity, r);

    let expected = std::str::from_utf8(&message[message.len() - capacity..]).unwrap();
    let actual = std::str::from_utf8(&buff.as_slice()[..capacity]).unwrap();

    assert_eq!(expected, actual);
}

#[test]
fn test_ringbuf_wrap_around() {
    let mut ring = RingBuf::<u8>::new(50, false, 0);

    let message = "hello world, this is your programmer writing";

    let mut buff = Vec::<u8>::new();
    buff.resize(message.as_bytes().len(), 0);

    let _ = ring.put(message.as_bytes());
    let _ = ring.get(buff.as_mut_slice());

    let _ = ring.put(message.as_bytes());
    let _ = ring.get(buff.as_mut_slice());

    assert_eq!(message.as_bytes(), buff.as_slice());
}

#[test]
fn test_ringbuf_too_big() {
    let mut ring = RingBuf::<u8>::new(10, false, 0);

    let expected = "hello world, this is your programmer writing".as_bytes();

    let mut actual = Vec::<u8>::new();

    let mut off = 0;
    while off < expected.len() {
        let w = ring.put(&expected[off..]);
        let end = off + w;
        actual.resize(end, 0);

        let r = ring.get(&mut actual.as_mut_slice()[off..end]);
        assert_eq!(w, r);
        off += w;
    }

    assert_eq!(expected, actual.as_slice());
}

#[test]
fn test_ringbuf_write_to_full_buf_without_overwrite() {
    let capacity = 10;

    let mut ring = RingBuf::<u8>::new(capacity, false, 0);

    let expected = "hello world, this is your programmer writing".as_bytes();

    // Age the buffer so its pointers sit away from the start: three items
    // in, three items out.
    let pre = [0u8, 0, 0];
    assert_eq!(3, ring.put(&pre));
    let mut sink = [0u8; 3];
    assert_eq!(3, ring.get(&mut sink));

    let mut off = 0;

    off += ring.put(expected);
    assert_eq!(capacity, off);

    let w = ring.put(&expected[off..]);
    assert_eq!(0, w);
}

#[test]
fn test_ringbuf_len_and_capacity() {
    let mut ring = RingBuf::<u8>::new(4, false, 0);
    assert_eq!(0, ring.len());
    assert_eq!(4, ring.capacity());
    assert_eq!(3, ring.put(&[1, 2, 3]));
    assert_eq!(3, ring.len());
    let mut out = [0u8; 2];
    assert_eq!(2, ring.get(&mut out));
    assert_eq!([1, 2], out);
    assert_eq!(1, ring.len());
    assert_eq!(4, ring.capacity());
}

#[test]
fn test_ringbuf_partial_accept_without_overwrite() {
    let mut ring = RingBuf::<u8>::new(4, false, 0);
    assert_eq!(3, ring.put(&[1, 2, 3]));
    // Only one free cell is left: a longer write is truncated to it.
    assert_eq!(1, ring.put(&[9, 8, 7]));
    let mut out = [0u8; 4];
    assert_eq!(4, ring.get(&mut out));
    assert_eq!([1, 2, 3, 9], out);
}

#[test]
fn test_ringbuf_round_trip_in_order() {
    // Writes totaling no more than the capacity, then reads of the same
    // total, come back as the written sequence in order.
    let mut ring = RingBuf::<u8>::new(8, false, 0);
    assert_eq!(3, ring.put(&[1, 2, 3]));
    assert_eq!(2, ring.put(&[4, 5]));
    assert_eq!(3, ring.put(&[6, 7, 8]));
    let mut out = [0u8; 8];
    assert_eq!(5, ring.get(&mut out[..5]));
    assert_eq!(3, ring.get(&mut out[5..]));
    assert_eq!([1, 2, 3, 4, 5, 6, 7, 8], out);
}

#[test]
fn test_ringbuf_overwrite_keeps_last() {
    // Writing more than the capacity in overwrite mode keeps exactly the
    // last `capacity` items.
    let mut ring = RingBuf::<u8>::new(3, true, 0);
    assert_eq!(2, ring.put(&[1, 2]));
    assert_eq!(5, ring.put(&[3, 4, 5, 6, 7]));
    assert_eq!(3, ring.len());
    let mut out = [0u8; 3];
    assert_eq!(3, ring.get(&mut out));
    assert_eq!([5, 6, 7], out);
}

#[test]
fn test_ringbuf_advance_and_runs() {
    let mut ring = RingBuf::<u8>::new(4, false, 0);
    assert_eq!(4, ring.put(&[1, 2, 3, 4]));
    let mut out = [0u8; 2];
    assert_eq!(2, ring.get(&mut out));
    // Two more wrap around the end of the backing.
    assert_eq!(2, ring.put(&[5, 6]));
    {
        let (a, b) = ring.runs();
        let mut seen = Vec::new();
        seen.extend_from_slice(a);
        seen.extend_from_slice(b);
        assert_eq!(vec![3, 4, 5, 6], seen);
    }
    ring.advance(3);
    let mut rest = [0u8; 4];
    assert_eq!(1, ring.get(&mut rest));
    assert_eq!(6, rest[0]);
}
