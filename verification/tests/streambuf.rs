use sdr_pipeline::streambuf::new_stream;
use sdr_pipeline::traits::SdrError;

#[test]
fn test_create() -> Result<(), SdrError> {
    let (reader, writer) = new_stream::<f32>(1024, true, false, true, 0.0)?;

    let mut buff = Vec::<f32>::new();
    buff.push(0.0);

    writer.put(buff.as_slice())?;
    reader.get(buff.as_mut_slice())?;

    Ok(())
}

#[test]
fn test_stream_preserves_datum() {
    let (reader, writer) = new_stream::<f32>(1024, true, false, true, 0.0).unwrap();
    writer.put(&[0.5f32]).unwrap();
    let mut buff = [0.0f32; 1];
    let n = reader.get(&mut buff).unwrap();
    assert_eq!(1, n);
    assert_eq!(0.5, buff[0]);
}

#[test]
fn test_stream_rejects_overwrite_with_blocking_writes() {
    let r = new_stream::<u8>(16, true, true, false, 0);
    assert!(matches!(r, Err(SdrError::InvalidInput)));
}

#[test]
fn test_stream_rejects_empty_capacity() {
    let r = new_stream::<u8>(0, false, false, false, 0);
    assert!(matches!(r, Err(SdrError::InvalidInput)));
}

#[test]
fn test_stream_zero_length_io_is_invalid() {
    let (reader, writer) = new_stream::<u8>(8, false, false, false, 0).unwrap();
    assert_eq!(Err(SdrError::InvalidInput), writer.put(&[]));
    let mut empty: [u8; 0] = [];
    assert_eq!(Err(SdrError::InvalidInput), reader.get(&mut empty));
}

#[test]
fn test_stream_nonblocking_empty_read_would_block() {
    let (reader, _writer) = new_stream::<u8>(8, false, false, false, 0).unwrap();
    let mut buff = [0u8; 4];
    assert_eq!(Err(SdrError::WouldBlock), reader.get(&mut buff));
}

#[test]
fn test_stream_nonblocking_full_write_would_block() {
    let (_reader, writer) = new_stream::<u8>(2, false, false, false, 0).unwrap();
    assert_eq!(Ok(2), writer.put(&[1, 2, 3]));
    assert_eq!(Err(SdrError::WouldBlock), writer.put(&[4]));
}

#[test]
fn test_stream_write_after_close_fails() {
    let (_reader, writer) = new_stream::<u8>(8, false, false, false, 0).unwrap();
    writer.close();
    assert_eq!(Err(SdrError::Closed), writer.put(&[1]));
}

#[test]
fn test_stream_eof_after_writer_close_and_drain() {
    let (reader, writer) = new_stream::<u8>(8, false, false, true, 0).unwrap();
    writer.put(&[1, 2]).unwrap();
    writer.close();
    let mut buff = [0u8; 8];
    // The queued items still come out first; end of stream only once drained.
    assert_eq!(Ok(2), reader.get(&mut buff));
    assert_eq!([1, 2], buff[..2]);
    assert_eq!(Ok(0), reader.get(&mut buff));
}

#[test]
fn test_stream_overwrite_accepts_everything() {
    let (reader, writer) = new_stream::<u8>(3, true, false, false, 0).unwrap();
    assert_eq!(Ok(5), writer.put(&[1, 2, 3, 4, 5]));
    let mut buff = [0u8; 3];
    assert_eq!(Ok(3), reader.get(&mut buff));
    assert_eq!([3, 4, 5], buff);
}

#[test]
fn test_stream_drain() {
    let (reader, mut writer) = new_stream::<u8>(8, false, false, false, 0).unwrap();
    writer.put(&[1]).unwrap();
    assert_eq!(Err(SdrError::WouldBlock), writer.drain());
    let mut buff = [0u8; 1];
    reader.get(&mut buff).unwrap();
    assert_eq!(Ok(()), writer.drain());
}

#[test]
fn test_stream_peek_consume() {
    let (reader, writer) = new_stream::<u8>(4, false, false, false, 0).unwrap();
    writer.put(&[1, 2, 3]).unwrap();
    {
        let mut view = reader.peek().unwrap();
        assert_eq!(3, view.len());
        let (a, b) = view.runs();
        let mut seen = Vec::new();
        seen.extend_from_slice(a);
        seen.extend_from_slice(b);
        assert_eq!(vec![1, 2, 3], seen);
        view.consume(2);
        view.finish();
    }
    let mut buff = [0u8; 4];
    assert_eq!(Ok(1), reader.get(&mut buff));
    assert_eq!(3, buff[0]);
}

#[test]
fn test_stream_peek_empty_would_block() {
    let (reader, _writer) = new_stream::<u8>(4, false, false, false, 0).unwrap();
    assert!(matches!(reader.peek(), Err(SdrError::WouldBlock)));
}

#[test]
fn test_stream_peek_convert_burst() {
    // The zero-copy path a driver bridge takes: wait for a burst, convert
    // the queued IQ bytes in place, consume them, release the view.
    let (reader, writer) =
        new_stream(16, true, false, true, num_complex::Complex::new(0i8, 0i8)).unwrap();
    writer
        .put(&[
            num_complex::Complex::new(127i8, 0i8),
            num_complex::Complex::new(0i8, -127i8),
        ])
        .unwrap();
    let mut it = match reader.peek() {
        Ok(v) => v,
        Err(e) => panic!("{:?}", e),
    };
    let read = it.len();
    let mut dst: Vec<(f32, f32)> = Vec::new();
    {
        let (a, b) = it.runs();
        for s in a.iter().chain(b.iter()).take(read) {
            dst.push((s.re as f32 / 127.0, s.im as f32 / 127.0));
        }
    }
    it.consume(read);
    it.finish();
    assert_eq!(vec![(1.0, 0.0), (0.0, -1.0)], dst);
    let mut buf = [num_complex::Complex::new(0i8, 0i8); 4];
    assert!(matches!(reader.get(&mut buf), Err(SdrError::WouldBlock)));
}
