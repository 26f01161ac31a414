use iowrap::Cursor;
use iowrap::Eof;
use iowrap::ReadMany;
use iowrap::ReadOutcome;
use iowrap::ReadStream;
use iowrap::ShortRead;

fn read_ok<R: ReadStream>(s: &mut R, max: usize) -> Vec<u8> {
    match s.read(max) {
        ReadOutcome::Bytes(v) => v,
        other => panic!("expected bytes, got {:?}", other),
    }
}

#[test]
fn eof_smoke_cursor() {
    let mut eof = Eof::new(Cursor::new(vec![7, 8, 9, 10, 11, 12]));
    assert_eq!(None, eof.held_state(), "nothing held initially");
    assert_eq!(
        false,
        eof.eof().unwrap(),
        "there's bytes to read, we're not at the end"
    );
    assert_eq!(
        false,
        eof.eof().unwrap(),
        "we weren't at the end before, so we're not now"
    );
    assert_eq!(Some(7), eof.held_state(), "the state is the first byte");
    assert_eq!(
        false,
        eof.eof().unwrap(),
        "viewing the state doesn't move us to the end"
    );

    let buf = eof.read_many(2).unwrap();
    assert_eq!(2, buf.len());

    assert_eq!(None, eof.held_state(), "reading consumed the state");
    assert_eq!(
        false,
        eof.eof().unwrap(),
        "reading two bytes didn't push us past the end"
    );
    assert_eq!(
        Some(9),
        eof.held_state(),
        "checking the eof read the third byte into state"
    );

    let buf = read_ok(&mut eof, 20);
    assert_eq!(
        1,
        buf.len(),
        "[implementation detail] read will only return one byte"
    );
    assert_eq!(9, buf[0], "it was the right byte");
    let buf = read_ok(&mut eof, 20);
    assert_eq!(3, buf.len(), "there's three more bytes");
    assert_eq!(
        None,
        eof.held_state(),
        "there's no state after some reading"
    );
    assert_eq!(true, eof.eof().unwrap(), "we're at the end");
    assert_eq!(None, eof.held_state(), "there's still no state");

    eof.get_mut().push(100);
    assert_eq!(
        false,
        eof.eof().unwrap(),
        "if the underlying reader starts returning data again, so do we"
    );
}

#[test]
fn eof_interrupted_read() {
    let take_a_break = ShortRead::new(
        Cursor::new(b"12345".to_vec()),
        vec![0, 1, 0, 1, 0, 0, 0, 9, 9, 0, 1],
    );
    let mut eof = Eof::new(take_a_break);

    assert_eq!(
        false,
        eof.eof().unwrap(),
        "skip interruption at the beginning"
    );
    let buf = read_ok(&mut eof, 2);
    assert_eq!(1, buf.len());
    assert_eq!(b'1', buf[0]);

    let buf = read_ok(&mut eof, 2);
    assert_eq!(1, buf.len(), "skip interruption while reading");
    assert_eq!(b'2', buf[0]);

    assert_eq!(false, eof.eof().unwrap(), "skip multiple interruptions");
    let buf = read_ok(&mut eof, 2);
    assert_eq!(1, buf.len());
    assert_eq!(b'3', buf[0]);
    let buf = read_ok(&mut eof, 2);
    assert_eq!(2, buf.len());
    assert_eq!(b"45", &buf[..]);

    assert_eq!(true, eof.eof().unwrap(), "skip interruption before eof");
}

#[test]
fn eof_transparency() {
    // Reading fully through the lookahead, with probes interleaved anywhere,
    // yields byte for byte what the stream held, and the probe answers "at
    // the end" for the first time exactly after the last byte was consumed.
    let content = b"abcdef".to_vec();
    let mut eof = Eof::new(Cursor::new(content.clone()));
    let mut seen: Vec<u8> = Vec::new();
    let mut probes_true: u32 = 0;
    loop {
        let at_end = eof.eof().unwrap();
        if at_end {
            probes_true += 1;
            break;
        }
        assert_eq!(false, eof.eof().unwrap(), "probing twice changes nothing");
        let chunk = read_ok(&mut eof, 3);
        assert!(!chunk.is_empty());
        seen.extend_from_slice(&chunk);
    }
    assert_eq!(content, seen, "lookahead is transparent to the data");
    assert_eq!(1, probes_true, "the end is reported once, at the end");
    assert_eq!(true, eof.eof().unwrap(), "and stays reported while empty");
}

#[test]
fn eof_accessors() {
    let eof = Eof::new(Cursor::new(vec![5]));
    let _ = eof.get_ref();
    let mut inner = eof.into_inner();
    let got = read_ok(&mut inner, 1);
    assert_eq!(vec![5], got);
}
