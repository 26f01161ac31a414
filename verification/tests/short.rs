use iowrap::Cursor;
use iowrap::ReadOutcome;
use iowrap::ReadStream;
use iowrap::ShortRead;

fn read_ok<R: ReadStream>(s: &mut R, max: usize) -> Vec<u8> {
    match s.read(max) {
        ReadOutcome::Bytes(v) => v,
        other => panic!("expected bytes, got {:?}", other),
    }
}

#[test]
fn shorten() {
    let mut naughty = ShortRead::new(Cursor::new(b"1234567890".to_vec()), vec![2, 3, 4, 5, 6]);
    let buf = read_ok(&mut naughty, 10);
    assert_eq!(2, buf.len());
    assert_eq!(b"12", &buf[..2]);
    let buf = read_ok(&mut naughty, 10);
    assert_eq!(3, buf.len());
    assert_eq!(b"345", &buf[..3]);
    let buf = read_ok(&mut naughty, 10);
    assert_eq!(4, buf.len());
    assert_eq!(b"6789", &buf[..4]);
    let buf = read_ok(&mut naughty, 10);
    assert_eq!(1, buf.len());
    assert_eq!(b"0", &buf[..1]);

    assert!(matches!(naughty.read(10), ReadOutcome::End));
    assert!(matches!(naughty.read(10), ReadOutcome::End));
}

#[test]
fn interrupt() {
    let mut interrupting = ShortRead::new(Cursor::new(b"12".to_vec()), vec![0, 1, 0, 1]);

    assert!(matches!(interrupting.read(1), ReadOutcome::Interrupted));
    assert_eq!(1, read_ok(&mut interrupting, 1).len());
    assert!(matches!(interrupting.read(1), ReadOutcome::Interrupted));
    assert_eq!(1, read_ok(&mut interrupting, 1).len());
}
