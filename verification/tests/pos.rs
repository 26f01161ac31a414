use iowrap::Cursor;
use iowrap::Pos;
use iowrap::ReadMany;
use iowrap::ReadOutcome;
use iowrap::ReadStream;
use iowrap::ShortRead;

fn read_ok<R: ReadStream>(s: &mut R, max: usize) -> Vec<u8> {
    match s.read(max) {
        ReadOutcome::Bytes(v) => v,
        other => panic!("expected bytes, got {:?}", other),
    }
}

#[test]
fn pos_smoke_cursor() {
    let mut pos = Pos::new(Cursor::new(vec![7, 8, 9, 10, 11, 12]));
    assert_eq!(0, pos.position());
    let buf = pos.read_many(2).unwrap();
    assert_eq!(&[7, 8], &buf[..]);
    assert_eq!(2, pos.position());

    let buf = read_ok(&mut pos, 20);
    assert_eq!(4, buf.len());
    assert_eq!(6, pos.position());

    assert!(matches!(pos.read(20), ReadOutcome::End));
    assert_eq!(6, pos.position());
}

#[test]
fn pos_counts_short_reads() {
    // However many calls it takes and however short each one is, the counter
    // ends at exactly the number of bytes delivered.
    let mut pos = Pos::new(ShortRead::new(
        Cursor::new(b"abcdefghij".to_vec()),
        vec![1, 0, 2, 3, 0, 1, 3],
    ));
    let mut total = 0u64;
    loop {
        match pos.read(4) {
            ReadOutcome::Bytes(v) => total += v.len() as u64,
            ReadOutcome::End => break,
            ReadOutcome::Interrupted => continue,
            ReadOutcome::Fail(e) => panic!("unexpected failure: {:?}", e),
        }
    }
    assert_eq!(total, pos.position());
    assert_eq!(10, pos.position());
    let inner = pos.into_inner();
    let _ = inner.into_inner();
}
