use kernel::ipc::{
    queue_limits, Message, MessageQueueTable, MqReceive, SemaphoreTable, O_CREAT, O_EXCL,
};
use kernel::socket::{
    parse_sockaddr_path, sockaddr_out, socket_type_from_flags, ReceiveStep, SocketState, SocketTable,
    SocketType,
};
use kernel::inode::FsError;

#[test]
fn semaphore_open_close_unlink() {
    let mut t = SemaphoreTable::new();
    assert_eq!(t.open(b"/s", 0, 1), Err(-2));
    assert_eq!(t.open(b"/s", O_CREAT, 1), Ok(0));
    assert_eq!(t.open(b"/s", O_CREAT | O_EXCL, 1), Err(-17));
    assert_eq!(t.open(b"/s", 0, 9), Ok(0));
    assert_eq!(t.open(b"", O_CREAT, 1), Err(-22));
    assert_eq!(t.trywait(0), 0);
    assert_eq!(t.trywait(0), -11);
    assert_eq!(t.trywait(5), -9);
    t.add_waiter(0, 77);
    assert_eq!(t.post(0), Some(77));
    assert_eq!(t.getvalue(0), Some(0));
    assert_eq!(t.post(0), None);
    assert_eq!(t.getvalue(0), Some(1));
    assert_eq!(t.unlink(b"/s"), 0);
    t.close(0);
    assert_eq!(t.getvalue(0), Some(1));
    t.close(0);
    assert_eq!(t.getvalue(0), None);
    assert_eq!(t.unlink(b"/s"), -2);
}

#[test]
fn message_queue_table_round_trip() {
    assert_eq!(queue_limits(None), (16, 1024));
    assert_eq!(queue_limits(Some((4, 2000))), (4, 1024));
    assert_eq!(queue_limits(Some((0, 8))), (16, 8));
    let mut t = MessageQueueTable::new();
    assert_eq!(t.open(b"/q", O_CREAT, Some((2, 8))), Ok(0));
    assert_eq!(t.getattr(0), Some((2, 8, 0)));
    assert_eq!(t.send_check(0, 9), Err(-90));
    assert_eq!(t.send_check(3, 1), Err(-9));
    assert_eq!(t.send_check(0, 8), Ok(()));
    t.add_waiter(0, 5, false);
    assert_eq!(t.send(0, Message { data: b"lo".to_vec(), priority: 1 }), Some(5));
    assert_eq!(t.send(0, Message { data: b"high".to_vec(), priority: 9 }), None);
    assert!(t.is_full(0));
    assert!(matches!(t.receive_step(0, 2), MqReceive::TooSmall));
    match t.receive_step(0, 8) {
        MqReceive::Received { message, wake } => {
            assert_eq!(message.data, b"high".to_vec());
            assert_eq!(message.priority, 9);
            assert_eq!(wake, None);
        }
        _ => panic!("expected a message"),
    }
    match t.receive_step(0, 8) {
        MqReceive::Received { message, .. } => assert_eq!(message.data, b"lo".to_vec()),
        _ => panic!("expected a message"),
    }
    assert!(matches!(t.receive_step(0, 8), MqReceive::Empty));
    assert!(matches!(t.receive_step(1, 8), MqReceive::NoQueue));
    assert_eq!(t.unlink(b"/q"), 0);
    t.close(0);
    assert_eq!(t.getattr(0), None);
}

#[test]
fn socket_types_and_addresses() {
    assert_eq!(socket_type_from_flags(1, 1 | 0x800), Ok(SocketType::Stream));
    assert_eq!(socket_type_from_flags(1, 2 | 0x80000), Ok(SocketType::Datagram));
    assert_eq!(socket_type_from_flags(2, 1), Err(-97));
    assert_eq!(socket_type_from_flags(1, 5), Err(-94));
    let mut addr = vec![1u8, 0];
    addr.extend_from_slice(b"/tmp/s\0junk");
    assert_eq!(parse_sockaddr_path(&addr, true), Ok("/tmp/s"));
    addr[0] = 2;
    assert_eq!(parse_sockaddr_path(&addr, true), Err(-22));
    assert_eq!(parse_sockaddr_path(&addr, false), Ok("/tmp/s"));
    assert_eq!(parse_sockaddr_path(&[1, 0], false), Err(-22));
    let (path, len) = sockaddr_out(b"/tmp/s");
    assert_eq!(&path[..7], b"/tmp/s\0");
    assert_eq!(len, 9);
}

#[test]
fn socket_connect_accept_send_receive() {
    let mut counter = 100u64;
    let mut t = SocketTable::new();
    let server = t.create(SocketType::Stream, &mut counter).unwrap();
    let client = t.create(SocketType::Stream, &mut counter).unwrap();
    assert_eq!((server, client), (0, 1));
    assert_eq!(t.listen(server), -22);
    t.mark_bound(server, "/srv");
    assert_eq!(t.listen(server), 0);
    assert!(t.is_listening(server));
    t.add_waiter(server, 42, true);
    assert_eq!(t.connect(client, 1, &mut counter), Err(-111));
    assert_eq!(t.connect(client, server, &mut counter), Ok(Some(42)));
    let accepted = t.accept_pop(server).unwrap();
    assert_eq!(accepted, 2);
    assert_eq!(t.accept_pop(server), None);
    assert_eq!(t.peer_bound_path(accepted), None);
    assert_eq!(t.bound_path(server), Some(b"/srv".to_vec()));
    let (r, wake) = t.send(client, b"ping");
    assert_eq!(r, Ok(4));
    assert_eq!(wake, None);
    let mut buf = [0u8; 8];
    assert_eq!(t.receive_step(accepted, &mut buf), ReceiveStep::Read(4));
    assert_eq!(&buf[..4], b"ping");
    assert_eq!(t.receive_step(accepted, &mut buf), ReceiveStep::Block);
    assert_eq!(t.shutdown(accepted, 0), Vec::<u64>::new());
    assert_eq!(t.receive_step(accepted, &mut buf), ReceiveStep::Read(0));
    assert_eq!(t.send(server, b"x").0, Err(FsError::BrokenPipe));
    assert_eq!(counter, 103);
}

#[test]
fn socketpair_is_connected() {
    let mut counter = 0u64;
    let mut t = SocketTable::new();
    let (a, b) = t.socketpair(SocketType::Datagram, &mut counter).unwrap();
    assert_eq!((a, b), (0, 1));
    let (r, _) = t.send(a, b"hi");
    assert_eq!(r, Ok(2));
    let mut buf = [0u8; 2];
    assert_eq!(t.receive_step(b, &mut buf), ReceiveStep::Read(2));
    assert_eq!(&buf, b"hi");
    let _ = SocketState::Connected;
}
