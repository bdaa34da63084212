use kernel::inode::{FsError, InodeType};
use kernel::mount::MountTable;
use kernel::superblock::{validate_superblock, SuperblockError};
use kernel::tmpfs::TmpfsFile;

fn fs_table() -> MountTable {
    let mut table = MountTable::new();
    table.mount("/", 1);
    table
}

// Inode 1: root directory with "loop" (3, a link to itself) and "bad" (4, a
// link whose target is not UTF-8) and "dir" (5) holding "f" (6).
fn lookup(dir: u64, name: &[u8]) -> Option<u64> {
    match (dir, name) {
        (1, b"loop") => Some(3),
        (1, b"bad") => Some(4),
        (1, b"dir") => Some(5),
        (5, b"f") => Some(6),
        _ => None,
    }
}

fn type_of(ino: u64) -> InodeType {
    match ino {
        1 | 5 => InodeType::Directory,
        3 | 4 => InodeType::Symlink,
        _ => InodeType::RegularFile,
    }
}

fn read_link(ino: u64) -> Result<Vec<u8>, FsError> {
    match ino {
        3 => Ok(b"/loop".to_vec()),
        4 => Ok(vec![0xFF, 0xFE]),
        _ => Err(FsError::InvalidArgument),
    }
}

#[test]
fn symlink_loop_is_too_many_links() {
    let table = fs_table();
    assert_eq!(table.resolve_inode("loop", Some(1), &lookup, &type_of, &read_link), Err(FsError::TooManyLinks));
    assert_eq!(FsError::TooManyLinks.to_errno(), -40);
}

#[test]
fn non_utf8_link_target_is_invalid() {
    let table = fs_table();
    assert_eq!(table.resolve_inode("bad", Some(1), &lookup, &type_of, &read_link), Err(FsError::InvalidArgument));
}

#[test]
fn relative_resolution_through_cwd() {
    let table = fs_table();
    assert_eq!(table.resolve_inode("dir/./f", Some(1), &lookup, &type_of, &read_link), Ok(6));
    assert_eq!(table.resolve_inode("dir/f/x", Some(1), &lookup, &type_of, &read_link), Err(FsError::NotDirectory));
    assert_eq!(table.resolve_inode("dir/g", Some(1), &lookup, &type_of, &read_link), Err(FsError::NotFound));
    assert_eq!(table.resolve_inode("dir", None, &lookup, &type_of, &read_link), Err(FsError::NotFound));
}

#[test]
fn file_has_no_children() {
    let mut counter = 1u64;
    let f = TmpfsFile::new(&mut counter);
    assert_eq!(f.unlink("x"), Err(FsError::NotDirectory));
    assert!(f.readdir(0).is_none());
}

fn superblock_bytes() -> Vec<u8> {
    let mut raw = vec![0u8; 4096];
    raw[0x40..0x48].copy_from_slice(b"_BHRfS_M");
    raw[0x90..0x94].copy_from_slice(&4096u32.to_le_bytes());
    raw[0x94..0x98].copy_from_slice(&16384u32.to_le_bytes());
    raw
}

fn seal(raw: &mut [u8]) {
    let csum = kernel::crc32c::btrfs_checksum(&raw[0x20..4096]);
    raw[0..4].copy_from_slice(&csum.to_le_bytes());
}

#[test]
fn superblock_errors() {
    let mut raw = superblock_bytes();
    seal(&mut raw);
    let sb = validate_superblock(&raw).expect("valid superblock");
    assert_eq!(sb.nodesize, 16384);
    let mut bad = raw.clone();
    bad[0x40] = b'X';
    assert_eq!(validate_superblock(&bad).err(), Some(SuperblockError::BadMagic));
    let mut bad = raw.clone();
    bad[0x100] ^= 1;
    assert_eq!(validate_superblock(&bad).err(), Some(SuperblockError::BadChecksum));
    let mut bad = raw.clone();
    bad[0xC4] = 1;
    seal(&mut bad);
    assert_eq!(validate_superblock(&bad).err(), Some(SuperblockError::UnsupportedChecksumType));
    let mut bad = superblock_bytes();
    bad[0x94..0x98].copy_from_slice(&1024u32.to_le_bytes());
    seal(&mut bad);
    assert_eq!(validate_superblock(&bad).err(), Some(SuperblockError::InvalidGeometry));
}
