use kernel::pipe::{
    pipe_create, pipe_read_step, pipe_write_step, PipeBuffer, PipeEnd, PipeHandle, PipeReadStep,
    PipeWriteStep, PIPE_BUFFER_CAPACITY,
};
use kernel::ring::Ring;

#[test]
fn ring_is_first_in_first_out() {
    let mut ring = Ring::new(8);
    assert_eq!(ring.push_bytes(b"abcde"), 5);
    let mut out = [0u8; 3];
    assert_eq!(ring.pop_bytes(&mut out), 3);
    assert_eq!(&out, b"abc");
    // Wraps around the end of the storage.
    assert_eq!(ring.push_bytes(b"fghijk"), 6);
    assert_eq!(ring.len(), 8);
    assert_eq!(ring.free(), 0);
    let mut rest = [0u8; 10];
    assert_eq!(ring.pop_bytes(&mut rest), 8);
    assert_eq!(&rest[..8], b"defghijk");
}

#[test]
fn ring_push_stops_when_full() {
    let mut ring = Ring::new(4);
    assert_eq!(ring.push_bytes(b"123456"), 4);
    assert_eq!(ring.push_bytes(b"7"), 0);
    let mut out = [0u8; 4];
    assert_eq!(ring.pop_bytes(&mut out), 4);
    assert_eq!(&out, b"1234");
}

#[test]
fn pipe_round_trip_and_eof() {
    let (mut buf, read_end, write_end) = pipe_create();
    assert_eq!(read_end.end(), PipeEnd::ReadEnd);
    assert_eq!(write_end.end(), PipeEnd::WriteEnd);
    assert_eq!(buf.available_to_write(), PIPE_BUFFER_CAPACITY);
    match pipe_write_step(&mut buf, b"hello") {
        PipeWriteStep::Wrote { n, wake } => {
            assert_eq!(n, 5);
            assert_eq!(wake, None);
        }
        other => panic!("unexpected {:?}", other),
    }
    let mut dst = [0u8; 16];
    assert_eq!(pipe_read_step(&mut buf, &mut dst), PipeReadStep::Read { n: 5, wake: None });
    assert_eq!(&dst[..5], b"hello");
    assert_eq!(pipe_read_step(&mut buf, &mut dst), PipeReadStep::Block);
    let (_, all_closed) = write_end.close(&mut buf);
    assert!(!all_closed);
    assert!(buf.is_write_closed());
    assert_eq!(pipe_read_step(&mut buf, &mut dst), PipeReadStep::Eof);
    let (_, all_closed) = read_end.close(&mut buf);
    assert!(all_closed);
}

#[test]
fn pipe_write_without_reader_is_broken() {
    let (mut buf, read_end, _write_end) = pipe_create();
    read_end.close(&mut buf);
    assert!(buf.is_read_closed());
    assert_eq!(pipe_write_step(&mut buf, b"x"), PipeWriteStep::BrokenPipe);
}

#[test]
fn pipe_wakes_blocked_reader_on_write() {
    let mut buf = PipeBuffer::new();
    buf.set_blocked_reader(Some(7));
    assert_eq!(buf.blocked_reader(), Some(7));
    match pipe_write_step(&mut buf, b"x") {
        PipeWriteStep::Wrote { n, wake } => {
            assert_eq!(n, 1);
            assert_eq!(wake, Some(7));
        }
        other => panic!("unexpected {:?}", other),
    }
    assert_eq!(buf.blocked_reader(), None);
}

#[test]
fn pipe_cloned_read_end_keeps_pipe_open() {
    let (mut buf, read_end, _write_end) = pipe_create();
    let second = PipeHandle::clone_read_end(&read_end, &mut buf);
    read_end.close(&mut buf);
    assert!(!buf.is_read_closed());
    second.close(&mut buf);
    assert!(buf.is_read_closed());
}
