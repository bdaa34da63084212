use kernel::pty::{pty_master_inode, pty_slave_inode, PtyTable};

#[test]
fn pty_bytes_flow_both_ways() {
    let mut table = PtyTable::new();
    let index = table.pty_allocate().expect("free pair");
    assert_eq!(index, 0);
    let mut counter = 1u64;
    let master = pty_master_inode(index, &mut counter);
    let slave = pty_slave_inode(index, &mut counter);
    assert_eq!(master.write_at(&mut table, 0, b"ls\n"), Ok(3));
    let mut buf = [0u8; 8];
    assert_eq!(slave.read_at(&mut table, 0, &mut buf), Ok(3));
    assert_eq!(&buf[..3], b"ls\n");
    assert_eq!(slave.write_at(&mut table, 0, b"out"), Ok(3));
    assert_eq!(table.pty_master_readable_count(index), 3);
    assert_eq!(master.read_at(&mut table, 0, &mut buf[..2]), Ok(2));
    assert_eq!(&buf[..2], b"ou");
    assert_eq!(master.read_at(&mut table, 0, &mut buf), Ok(1));
    assert_eq!(buf[0], b't');
}

#[test]
fn pty_free_pair_moves_nothing() {
    let mut table = PtyTable::new();
    let mut counter = 1u64;
    let master = pty_master_inode(5, &mut counter);
    assert_eq!(master.write_at(&mut table, 0, b"x"), Ok(0));
    let mut buf = [9u8; 4];
    assert_eq!(master.read_at(&mut table, 0, &mut buf), Ok(0));
    assert_eq!(buf, [9u8; 4]);
    assert_eq!(table.pty_get_window_size(0), (0, 0));
    let index = table.pty_allocate().unwrap();
    table.pty_set_window_size(index, 50, 132);
    assert_eq!(table.pty_get_window_size(index), (50, 132));
    table.pty_free(index);
    assert_eq!(table.pty_allocate(), Some(index));
}

#[test]
fn pty_buffer_holds_four_kib() {
    let mut table = PtyTable::new();
    let index = table.pty_allocate().unwrap();
    let mut counter = 1u64;
    let master = pty_master_inode(index, &mut counter);
    let big = vec![1u8; 5000];
    assert_eq!(master.write_at(&mut table, 0, &big), Ok(4096));
    assert_eq!(master.write_at(&mut table, 0, b"more"), Ok(0));
}
