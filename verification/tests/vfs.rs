use kernel::procfs::ProcSnapshot;
use kernel::vfs::{FileDescriptor, FileDescriptorTable, SEEK_CUR, SEEK_END, SEEK_SET};

static BOOT_FILE: [u8; 10] = *b"0123456789";

#[test]
fn fd_install_takes_lowest_free_slot() {
    let mut table = FileDescriptorTable::new_with_tty();
    let fd = table.install(FileDescriptor::InoFile { inode: 9, position: 0 });
    assert_eq!(fd, 3);
    assert!(table.close(1));
    assert!(!table.close(1));
    let fd = table.install(FileDescriptor::InoFile { inode: 10, position: 0 });
    assert_eq!(fd, 1);
    assert!(matches!(table.get(1), Some(FileDescriptor::InoFile { inode: 10, .. })));
    assert!(table.get(7).is_none());
}

#[test]
fn fd_dup2_and_dup() {
    let mut table = FileDescriptorTable::new_with_tty();
    let fd = table.install(FileDescriptor::InoFile { inode: 4, position: 12 });
    assert_eq!(fd, 3);
    assert_eq!(table.dup2(3, 8), 8);
    assert!(matches!(table.get(8), Some(FileDescriptor::InoFile { inode: 4, position: 12 })));
    assert_eq!(table.dup2(6, 9), -9);
    assert_eq!(table.dup2(3, 5000), -1);
    assert_eq!(table.dup(3), 4);
    assert_eq!(table.dup(42), -9);
}

#[test]
fn fd_masks() {
    let mut mask = [0u64; 16];
    FileDescriptorTable::mask_set(&mut mask, 70);
    assert!(FileDescriptorTable::mask_test(&mask, 70));
    assert_eq!(mask[1], 1u64 << 6);
    FileDescriptorTable::mask_clear(&mut mask, 70);
    assert!(!FileDescriptorTable::mask_test(&mask, 70));
}

#[test]
fn fd_close_all_empties_table() {
    let mut table = FileDescriptorTable::new_with_tty();
    table.close_all();
    assert!(table.get(0).is_none());
    assert_eq!(table.install(FileDescriptor::Tty), 0);
}

#[test]
fn seek_on_ram_file() {
    let mut fd = FileDescriptor::RamFsFile { data: &BOOT_FILE, position: 0 };
    assert_eq!(fd.seek(4, SEEK_SET, 0), 4);
    assert_eq!(fd.seek(2, SEEK_CUR, 0), 6);
    assert_eq!(fd.seek(-3, SEEK_END, 0), 7);
    assert_eq!(fd.seek(1, SEEK_END, 0), -22);
    assert_eq!(fd.seek(-1, SEEK_SET, 0), -22);
    assert_eq!(fd.seek(0, 9, 0), -22);
}

#[test]
fn seek_on_inode_file_and_tty() {
    let mut fd = FileDescriptor::InoFile { inode: 1, position: 0 };
    assert_eq!(fd.seek(100, SEEK_SET, 50), 100);
    assert_eq!(fd.seek(-10, SEEK_END, 50), 40);
    assert_eq!(fd.seek(5, SEEK_CUR, 50), 45);
    let mut tty = FileDescriptor::Tty;
    assert_eq!(tty.seek(0, SEEK_SET, 0), -1);
    assert!(matches!(tty, FileDescriptor::Tty));
}

#[test]
fn proc_snapshot_reads_in_pieces() {
    let mut snap = ProcSnapshot { data: b"hello".to_vec(), position: 0 };
    let mut buf = [0u8; 3];
    assert_eq!(snap.read(&mut buf), 3);
    assert_eq!(&buf, b"hel");
    assert_eq!(snap.read(&mut buf), 2);
    assert_eq!(&buf[..2], b"lo");
    assert_eq!(snap.read(&mut buf), 0);
}

#[test]
fn fd_take_hands_back_pipe_end() {
    use_pipe_end();
}

fn use_pipe_end() {
    let (mut buf, read_end, _write_end) = kernel::pipe::pipe_create();
    let mut table = FileDescriptorTable::empty();
    let fd = table.install(FileDescriptor::Pipe { pipe: 7, handle: read_end });
    assert_eq!(fd, 0);
    match table.take(0) {
        Some(FileDescriptor::Pipe { pipe, handle }) => {
            assert_eq!(pipe, 7);
            handle.close(&mut buf);
            assert!(buf.is_read_closed());
        }
        _ => panic!("pipe descriptor expected"),
    }
    assert!(table.take(0).is_none());
}

#[test]
fn dup2_takes_the_non_blocking_bit_of_its_source() {
    let mut table = FileDescriptorTable::new_with_tty();
    FileDescriptorTable::mask_set(&mut table.nonblock_mask, 1);
    FileDescriptorTable::mask_set(&mut table.cloexec_mask, 5);
    assert_eq!(table.dup2(1, 5), 5);
    assert!(FileDescriptorTable::mask_test(&table.nonblock_mask, 5));
    assert!(!FileDescriptorTable::mask_test(&table.cloexec_mask, 5));
    assert_eq!(table.dup2(2, 5), 5);
    assert!(!FileDescriptorTable::mask_test(&table.nonblock_mask, 5));
}
