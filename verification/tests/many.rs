use iowrap::Cursor;
use iowrap::ReadMany;
use iowrap::ShortRead;

#[test]
fn short_read() {
    let mut naughty = ShortRead::new(Cursor::new(b"1234567890".to_vec()), vec![2, 1, 4, 5]);
    let buf = naughty.read_many(3).unwrap();
    assert_eq!(3, buf.len());
    assert_eq!(b"123", &buf[..]);

    let buf = naughty.read_many(12).unwrap();
    assert_eq!(7, buf.len());
    assert_eq!(b"4567890", &buf[..7]);
}

#[test]
fn many_interrupted_read() {
    let mut take_a_break = ShortRead::new(Cursor::new(b"12345".to_vec()), vec![2, 0, 3]);
    let buf = take_a_break.read_many(5).unwrap();
    assert_eq!(5, buf.len());
    assert_eq!(b"12345", &buf[..]);
}

#[test]
fn read_many_stops_at_end() {
    let mut short = ShortRead::new(Cursor::new(b"xy".to_vec()), vec![1, 1]);
    let buf = short.read_many(10).unwrap();
    assert_eq!(b"xy", &buf[..]);
    let buf = short.read_many(10).unwrap();
    assert_eq!(0, buf.len(), "decisions exhausted: end-of-stream");
}
