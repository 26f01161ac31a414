use iowrap::Cursor;
use iowrap::Ignore;
use iowrap::ReadMany;
use iowrap::ReadOutcome;
use iowrap::ReadStream;
use iowrap::SeekFrom;
use iowrap::ShortRead;
use iowrap::StreamError;
use iowrap::VarBufReader;

#[test]
fn fill_growth_is_monotone() {
    // Repeated fills with no consumption in between return buffers that only
    // grow, each extending the one before.
    let mut vb = VarBufReader::new(ShortRead::new(
        Cursor::new(b"abcdefgh".to_vec()),
        vec![1, 2, 1, 3, 1],
    ));
    let mut last: Vec<u8> = Vec::new();
    for target in [1, 3, 3, 6, 8] {
        let now = vb.fill_many(target).unwrap();
        assert!(now.len() >= last.len());
        assert_eq!(&last[..], &now[..last.len()], "prefix-consistent extension");
        last = now;
    }
}

#[test]
fn fill_smaller_target_is_a_no_op() {
    // After a fill reached five bytes, filling for three reads nothing more
    // and returns the very same, larger buffer.
    let mut vb = VarBufReader::new(ShortRead::new(
        Cursor::new(b"abcdefgh".to_vec()),
        vec![5, 1],
    ));
    let five = vb.fill_many(5).unwrap();
    assert_eq!(b"abcde", &five[..]);
    let again = vb.fill_many(3).unwrap();
    assert_eq!(five, again, "no additional reads, same buffer");
    let mut inner = vb.into_inner();
    let leftover = inner.read_many(10).unwrap();
    assert_eq!(
        b"f",
        &leftover[..],
        "the injector's one remaining decision was not spent by the no-op fill"
    );
}

#[test]
fn consume_fill_conservation() {
    // Interleaved fills, consumes and reads deliver the stream content in
    // order, exactly once each.
    let mut vb = VarBufReader::new(ShortRead::new(
        Cursor::new(b"the quick brown fox".to_vec()),
        vec![3, 1, 0, 7, 2, 0, 4, 99, 99],
    ));
    let mut got: Vec<u8> = Vec::new();

    let first = vb.fill_many(4).unwrap();
    got.extend_from_slice(&first[..4]);
    vb.consume(4);

    match vb.read(5) {
        ReadOutcome::Bytes(v) => got.extend_from_slice(&v),
        other => panic!("expected bytes, got {:?}", other),
    }

    let rest = vb.fill_many(100).unwrap();
    got.extend_from_slice(&rest);
    vb.consume(rest.len());

    assert_eq!(b"the quick brown fox".to_vec(), got);
    assert!(matches!(vb.read(1), ReadOutcome::End));
}

#[test]
fn end_of_stream_shortfall() {
    // The stream has exactly two bytes left; a five-byte fill returns just
    // those two, and a strict five-byte fill then fails.
    let mut vb = VarBufReader::new(Cursor::new(b"ab".to_vec()));
    let short = vb.fill_many(5).unwrap();
    assert_eq!(b"ab", &short[..]);
    assert_eq!(StreamError::UnexpectedEof, vb.fill_at_least(5).unwrap_err());
    assert_eq!(b"ab", &vb.fill_many(5).unwrap()[..], "nothing was lost");
}

#[test]
fn delimiter_not_found_leaves_buffer() {
    let mut vb = VarBufReader::new(Cursor::new(b"no-delimiter-here".to_vec()));
    assert_eq!(
        StreamError::NotFound,
        vb.read_until_limit(b' ', 200).unwrap_err()
    );
    assert_eq!(
        b"no-delimiter-here",
        &vb.fill_many(17).unwrap()[..],
        "failure left every byte in place"
    );
    assert_eq!(b"no", vb.read_until_limit(b'-', 3).unwrap().as_slice());
}

#[test]
fn discard_sink_and_source() {
    let mut null = Ignore::new();
    assert_eq!(17, null.write(b"seventeen bytes!!").unwrap());
    assert_eq!(0, null.write(b"").unwrap());
    null.write_all(b"whatever").unwrap();
    null.flush().unwrap();

    assert!(matches!(null.read(10), ReadOutcome::End));
    assert_eq!(
        StreamError::UnexpectedEof,
        null.read_exact(1).unwrap_err(),
        "a non-empty exact-fill request always fails"
    );
    assert_eq!(
        0,
        null.read_exact(0).unwrap().len(),
        "a zero-length exact-fill request always succeeds"
    );

    assert_eq!(0, null.seek(SeekFrom::Start(500)).unwrap());
    assert_eq!(0, null.seek(SeekFrom::End(-3)).unwrap());
    assert_eq!(0, null.seek(SeekFrom::Current(7)).unwrap());

    assert_eq!(0, null.fill_buf().len());
    null.consume(12);

    let other = Ignore::default();
    let _copy = other;
    assert!(matches!(Ignore::default().read(1), ReadOutcome::End));
}

#[test]
fn end_to_end() {
    // Stream content "1234567890" behind injected short reads of 2,3,4,5,6:
    // four three-byte fill/consume cycles reconstruct the content exactly,
    // and one more fill returns an empty buffer with no error.
    let mut vb = VarBufReader::new(ShortRead::new(
        Cursor::new(b"1234567890".to_vec()),
        vec![2, 3, 4, 5, 6],
    ));
    let mut rebuilt: Vec<u8> = Vec::new();
    for _ in 0..4 {
        let buf = vb.fill_many(3).unwrap();
        let use_now = buf.len().min(3);
        rebuilt.extend_from_slice(&buf[..use_now]);
        vb.consume(use_now);
    }
    assert_eq!(b"1234567890".to_vec(), rebuilt);
    let empty = vb.fill_many(3).unwrap();
    assert_eq!(0, empty.len(), "end-of-stream: empty buffer, no error");
}
