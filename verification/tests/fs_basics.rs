use kernel::devfs::{devfs_seed_entropy, DevNull, DevUrandom, DevZero, UrandomState};
use kernel::inode::{
    alloc_inode_number, vfs_check_access, FsError, InodeStat, InodeType, ACCESS_EXECUTE,
    ACCESS_READ, ACCESS_WRITE,
};
use kernel::tmpfs::{TmpfsDir, TmpfsFile};

#[test]
fn inode_numbers_count_up() {
    let mut counter = 10u64;
    assert_eq!(alloc_inode_number(&mut counter), 10);
    assert_eq!(alloc_inode_number(&mut counter), 11);
    assert_eq!(counter, 12);
}

#[test]
fn errno_values() {
    assert_eq!(FsError::NotFound.to_errno(), -2);
    assert_eq!(FsError::PermissionDenied.to_errno(), -1);
    assert_eq!(FsError::BrokenPipe.to_errno(), -32);
    assert_eq!(FsError::WouldBlock.to_errno(), -11);
    assert_eq!(FsError::TooManyLinks.to_errno(), -40);
    assert_eq!(FsError::InvalidArgument.to_errno(), -22);
    assert_eq!(FsError::NotSupported.to_errno(), -38);
}

#[test]
fn access_checks_follow_owner_group_other() {
    let stat = InodeStat { inode_number: 1, size: 0, mode: 0o100640, nlinks: 1, uid: 100, gid: 200 };
    let groups = [0u32; 16];
    assert!(vfs_check_access(&stat, 100, 1, &groups, 0, ACCESS_READ | ACCESS_WRITE).is_ok());
    assert!(vfs_check_access(&stat, 5, 200, &groups, 0, ACCESS_READ).is_ok());
    assert_eq!(vfs_check_access(&stat, 5, 200, &groups, 0, ACCESS_WRITE), Err(FsError::PermissionDenied));
    assert_eq!(vfs_check_access(&stat, 5, 6, &groups, 0, ACCESS_READ), Err(FsError::PermissionDenied));
    let mut supplementary = [0u32; 16];
    supplementary[1] = 200;
    assert!(vfs_check_access(&stat, 5, 6, &supplementary, 2, ACCESS_READ).is_ok());
    // Root reads anything but executes only where some x bit is set.
    assert!(vfs_check_access(&stat, 0, 0, &groups, 0, ACCESS_READ).is_ok());
    assert_eq!(vfs_check_access(&stat, 0, 0, &groups, 0, ACCESS_EXECUTE), Err(FsError::PermissionDenied));
}

#[test]
fn tmpfs_read_after_write() {
    let mut counter = 1u64;
    let mut file = TmpfsFile::new(&mut counter);
    assert_eq!(file.write_at(4, b"data"), Ok(4));
    assert_eq!(file.stat().size, 8);
    let mut buf = [0xAAu8; 8];
    assert_eq!(file.read_at(0, &mut buf), Ok(8));
    assert_eq!(&buf, b"\0\0\0\0data");
    let mut tail = [0u8; 4];
    assert_eq!(file.read_at(6, &mut tail), Ok(2));
    assert_eq!(&tail[..2], b"ta");
    assert_eq!(file.read_at(100, &mut tail), Ok(0));
}

#[test]
fn tmpfs_truncate_cuts_and_extends() {
    let mut counter = 1u64;
    let mut file = TmpfsFile::new_with_data(b"hello world", &mut counter);
    assert_eq!(file.truncate(5), Ok(()));
    let mut buf = [0u8; 16];
    assert_eq!(file.read_at(0, &mut buf), Ok(5));
    assert_eq!(&buf[..5], b"hello");
    assert_eq!(file.truncate(7), Ok(()));
    assert_eq!(file.read_at(0, &mut buf), Ok(7));
    assert_eq!(&buf[..7], b"hello\0\0");
}

#[test]
fn tmpfs_directory_operations() {
    let mut counter = 1u64;
    let mut root = TmpfsDir::new(&mut counter);
    let file = root.create("b.txt", &mut counter).unwrap();
    let sub = root.mkdir("a", &mut counter).unwrap();
    assert_eq!(root.create("b.txt", &mut counter).err(), Some(FsError::AlreadyExists));
    assert_eq!(root.lookup("b.txt"), Some((file.stat().inode_number, InodeType::RegularFile)));
    assert_eq!(root.lookup("a"), Some((sub.stat().inode_number, InodeType::Directory)));
    assert_eq!(root.lookup("c"), None);
    // Entries come out sorted by name.
    assert_eq!(root.readdir(0).unwrap().name, ".");
    assert_eq!(root.readdir(1).unwrap().name, "..");
    assert_eq!(root.readdir(2).unwrap().name, "a");
    assert_eq!(root.readdir(3).unwrap().name, "b.txt");
    assert!(root.readdir(4).is_none());
    assert_eq!(root.unlink("a", true), Err(FsError::DirectoryNotEmpty));
    assert_eq!(root.unlink("a", false), Ok(()));
    assert_eq!(root.lookup("a"), None);
    assert_eq!(root.unlink("zzz", false), Err(FsError::NotFound));
}

#[test]
fn dev_null_and_zero() {
    let mut counter = 1u64;
    let null = DevNull::new(&mut counter);
    let mut buf = [7u8; 4];
    assert_eq!(null.read_at(0, &mut buf), Ok(0));
    assert_eq!(null.write_at(0, b"abc"), Ok(3));
    let zero = DevZero::new(&mut counter);
    assert_eq!(zero.read_at(0, &mut buf), Ok(4));
    assert_eq!(buf, [0u8; 4]);
}

#[test]
fn urandom_is_xorshift() {
    let mut rng = UrandomState { state: 1 };
    let mut x = 1u64;
    x ^= x << 13;
    x ^= x >> 7;
    x ^= x << 17;
    assert_eq!(rng.urandom_next(), x);
    devfs_seed_entropy(&mut rng, 0xFF);
    assert_eq!(rng.state, x ^ 0xFF);
    let mut counter = 1u64;
    let dev = DevUrandom::new(&mut counter);
    let mut a = UrandomState::new();
    let mut b = UrandomState::new();
    let mut buf = [0u8; 12];
    assert_eq!(dev.read_at(&mut a, 0, &mut buf), Ok(12));
    let first = b.urandom_next().to_le_bytes();
    assert_eq!(&buf[..8], &first);
}
