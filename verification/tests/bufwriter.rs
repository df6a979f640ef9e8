use renegadex_patcher::bufwriter::{flush_step, BoundedSink, BufWriter, CursorSink, FlushStep, SeekFrom, DEFAULT_CAPACITY};
use renegadex_patcher::error::Error;

#[test]
fn small_writes_are_buffered_until_flush() {
    let mut reports: Vec<u64> = Vec::new();
    {
        let mut w = BufWriter::with_capacity(8, Vec::new(), |_: &mut Vec<u8>, n: &mut u64| reports.push(*n));
        assert_eq!(w.write(b"abc"), Ok(3));
        assert_eq!(w.write(b"de"), Ok(2));
        assert!(w.get_mut().is_empty());
        assert_eq!(w.flush(), Ok(()));
        assert_eq!(w.get_mut().as_slice(), b"abcde");
        assert_eq!(w.write(b"fgh"), Ok(3));
        let inner = w.into_inner().unwrap();
        assert_eq!(inner.as_slice(), b"abcdefgh");
    }
    assert_eq!(reports, vec![5, 8]);
}

#[test]
fn a_write_that_does_not_fit_flushes_first() {
    let mut w = BufWriter::with_capacity(4, Vec::new(), |_: &mut Vec<u8>, _: &mut u64| {});
    assert_eq!(w.write(b"abc"), Ok(3));
    assert_eq!(w.write(b"de"), Ok(2));
    assert_eq!(w.get_mut().as_slice(), b"abc");
    assert_eq!(w.write(b"0123456789"), Ok(10));
    assert_eq!(w.get_mut().as_slice(), b"abcde0123456789");
}

#[test]
fn the_callback_may_adjust_the_count() {
    let mut w = BufWriter::new(Vec::new(), |_: &mut Vec<u8>, n: &mut u64| *n = 0);
    assert_eq!(w.write(b"xyz"), Ok(3));
    assert_eq!(w.flush(), Ok(()));
    assert_eq!(w.get_mut().len(), 3);
    let _ = DEFAULT_CAPACITY;
}

#[test]
fn a_sink_that_takes_nothing_fails_the_flush() {
    let mut called = false;
    let mut w = BufWriter::with_capacity(8, BoundedSink::new(0), |_: &mut BoundedSink, _: &mut u64| called = true);
    assert_eq!(w.write(b"ab"), Ok(2));
    assert_eq!(w.flush(), Err(Error::IoError("failed to write the buffered data".to_string())));
    assert!(w.into_inner().is_err());
    assert!(!called);
}

#[test]
fn a_full_sink_keeps_what_it_accepted() {
    let mut w = BufWriter::with_capacity(8, BoundedSink::new(3), |_: &mut BoundedSink, _: &mut u64| {});
    assert_eq!(w.write(b"abcde"), Ok(5));
    assert_eq!(w.flush(), Err(Error::IoError("failed to write the buffered data".to_string())));
    assert_eq!(w.get_mut().contents().as_slice(), b"abc");
}

#[test]
fn into_inner_hands_back_everything_written() {
    let mut calls: Vec<u64> = Vec::new();
    let v = {
        let mut w = BufWriter::with_capacity(8, Vec::new(), |_: &mut Vec<u8>, n: &mut u64| calls.push(*n));
        assert_eq!(w.write(b"abc"), Ok(3));
        w.into_inner().unwrap()
    };
    assert_eq!(v, b"abc".to_vec());
    assert_eq!(calls, vec![3]);
}

#[test]
fn bytes_arrive_once_and_in_order() {
    let mut w = BufWriter::with_capacity(4, Vec::new(), |_: &mut Vec<u8>, _: &mut u64| {});
    for chunk in [&b"ab"[..], b"cde", b"f", b"ghijkl", b"m"] {
        assert_eq!(w.write(chunk), Ok(chunk.len()));
    }
    assert_eq!(w.flush(), Ok(()));
    assert_eq!(w.get_mut().as_slice(), b"abcdefghijklm");
}

#[test]
fn seeking_writes_out_the_buffer_first() {
    let mut counts: Vec<u64> = Vec::new();
    let data = {
        let mut w = BufWriter::with_capacity(8, CursorSink::new(), |_: &mut CursorSink, n: &mut u64| counts.push(*n));
        assert_eq!(w.write(b"abc"), Ok(3));
        assert_eq!(w.seek(SeekFrom::Start(1)), Ok(1));
        assert_eq!(w.get_mut().contents().as_slice(), b"abc");
        assert_eq!(w.write(b"X"), Ok(1));
        assert_eq!(w.seek(SeekFrom::End(0)), Ok(3));
        assert_eq!(w.write(b"de"), Ok(2));
        w.into_inner().unwrap().contents().clone()
    };
    assert_eq!(data, b"aXcde".to_vec());
    assert_eq!(counts, vec![4, 5, 7]);
}

#[test]
fn a_cursor_refuses_negative_positions() {
    let mut w = BufWriter::with_capacity(8, CursorSink::new(), |_: &mut CursorSink, _: &mut u64| {});
    assert!(matches!(w.seek(SeekFrom::Current(-1)), Err(Error::IoError(_))));
    assert_eq!(w.seek(SeekFrom::Start(2)), Ok(2));
    assert_eq!(w.write(b"z"), Ok(1));
    assert_eq!(w.flush(), Ok(()));
    assert_eq!(w.get_mut().contents().as_slice(), &[0u8, 0, b'z'][..]);
    assert_eq!(w.get_mut().get_position(), 3);
}

#[test]
fn a_flush_step_follows_the_sink_answer() {
    assert!(matches!(flush_step(2, 10, Ok(3)), FlushStep::Sent(5)));
    assert!(matches!(flush_step(0, 4, Ok(4)), FlushStep::Sent(4)));
    match flush_step(2, 10, Ok(0)) {
        FlushStep::Stop(e) => assert_eq!(e, Error::IoError("failed to write the buffered data".to_string())),
        FlushStep::Sent(_) => panic!("a write of nothing must stop the flush"),
    }
    match flush_step(1, 3, Err(Error::IoError("disk full".to_string()))) {
        FlushStep::Stop(e) => assert_eq!(e, Error::IoError("disk full".to_string())),
        FlushStep::Sent(_) => panic!("a failed write must stop the flush"),
    }
}

#[test]
fn a_sink_with_room_for_the_buffer_flushes() {
    let mut calls: Vec<u64> = Vec::new();
    let held = {
        let mut w = BufWriter::with_capacity(8, BoundedSink::new(5), |_: &mut BoundedSink, n: &mut u64| calls.push(*n));
        assert_eq!(w.write(b"abcde"), Ok(5));
        assert_eq!(w.flush(), Ok(()));
        w.into_inner().unwrap().contents().clone()
    };
    assert_eq!(held, b"abcde".to_vec());
    assert_eq!(calls, vec![5, 5]);
}

#[test]
fn into_inner_over_a_sink_with_room_succeeds() {
    let mut calls = 0u32;
    let held = {
        let mut w = BufWriter::with_capacity(8, BoundedSink::new(3), |_: &mut BoundedSink, _: &mut u64| calls += 1);
        assert_eq!(w.write(b"xyz"), Ok(3));
        w.into_inner().unwrap().contents().clone()
    };
    assert_eq!(held, b"xyz".to_vec());
    assert_eq!(calls, 1);
}

#[test]
fn writes_then_flush_deliver_every_reported_byte_in_order() {
    let mut w = BufWriter::with_capacity(3, vec![b'>'], |_: &mut Vec<u8>, _: &mut u64| {});
    let mut expected: Vec<u8> = vec![b'>'];
    for chunk in [&b"a"[..], b"bc", b"defg", b"", b"h", b"ij"] {
        let n = w.write(chunk).unwrap();
        expected.extend_from_slice(&chunk[..n]);
        assert!(w.get_mut().len() <= expected.len());
    }
    assert_eq!(w.flush(), Ok(()));
    assert_eq!(w.get_mut().as_slice(), expected.as_slice());
    assert_eq!(w.get_mut().as_slice(), b">abcdefghij");
}
