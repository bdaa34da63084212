use std::cell::RefCell;
use std::rc::Rc;

use kernel::disk::BlockDevice;
use kernel::fat32::{
    fat32_init_partition, fat32_root_inode, fat32_volume_label, fat32_volume_uuid, Fat32Inode, Fat32Volume,
};
use kernel::inode::{FsError, InodeType};
use kernel::partition::enumerate_partitions;

/// A disk held in memory; clones share the bytes.
#[derive(Clone)]
struct MemDisk {
    bytes: Rc<RefCell<Vec<u8>>>,
}

impl BlockDevice for MemDisk {
    fn spec_contents(&self) -> kernel::disk::DeviceContents {
        panic!("the contents view exists for proofs only")
    }
    fn read_sectors(&self, lba: u64, count: u32, buf: &mut [u8]) -> bool {
        let start = lba as usize * 512;
        let len = count as usize * 512;
        let bytes = self.bytes.borrow();
        if buf.len() < len || start + len > bytes.len() {
            return false;
        }
        buf[..len].copy_from_slice(&bytes[start..start + len]);
        true
    }
    fn write_sectors(&mut self, lba: u64, count: u32, buf: &[u8]) -> bool {
        let start = lba as usize * 512;
        let len = count as usize * 512;
        let mut bytes = self.bytes.borrow_mut();
        if buf.len() < len || start + len > bytes.len() {
            return false;
        }
        bytes[start..start + len].copy_from_slice(&buf[..len]);
        true
    }
    fn sector_count(&self) -> u64 {
        (self.bytes.borrow().len() / 512) as u64
    }
    fn sector_size(&self) -> u32 {
        512
    }
    fn name(&self) -> &str {
        "mem"
    }
}

const TOTAL_SECTORS: usize = 1048;

fn put16(b: &mut [u8], off: usize, v: u16) {
    b[off..off + 2].copy_from_slice(&v.to_le_bytes());
}
fn put32(b: &mut [u8], off: usize, v: u32) {
    b[off..off + 4].copy_from_slice(&v.to_le_bytes());
}

/// A freshly formatted FAT32 volume: 512-byte sectors, one sector per
/// cluster, 32 reserved sectors, two FATs of 8 sectors, root at cluster 2.
fn formatted_disk() -> MemDisk {
    let mut img = vec![0u8; TOTAL_SECTORS * 512];
    {
        let boot = &mut img[..512];
        boot[0] = 0xEB;
        boot[1] = 0x58;
        boot[2] = 0x90;
        put16(boot, 11, 512);
        boot[13] = 1;
        put16(boot, 14, 32);
        boot[16] = 2;
        put32(boot, 32, TOTAL_SECTORS as u32);
        put32(boot, 36, 8);
        put32(boot, 44, 2);
        put16(boot, 48, 1);
        put32(boot, 67, 0x1234_ABCD);
        boot[71..82].copy_from_slice(b"TESTVOL    ");
        boot[82..90].copy_from_slice(b"FAT32   ");
        boot[510] = 0x55;
        boot[511] = 0xAA;
    }
    {
        let fsinfo = &mut img[512..1024];
        put32(fsinfo, 0, 0x4161_5252);
        put32(fsinfo, 484, 0x6141_7272);
        put32(fsinfo, 488, 997);
    }
    for fat in 0..2 {
        let base = (32 + fat * 8) * 512;
        put32(&mut img, base, 0x0FFF_FFF8);
        put32(&mut img, base + 4, 0x0FFF_FFFF);
        put32(&mut img, base + 8, 0x0FFF_FFFF);
    }
    MemDisk { bytes: Rc::new(RefCell::new(img)) }
}

fn mounted() -> (Fat32Volume<MemDisk>, kernel::fat32::Fat32DirInode, u64) {
    let disk = formatted_disk();
    let vol = fat32_init_partition(disk, 0).expect("volume mounts");
    let mut counter = 1u64;
    let root = fat32_root_inode(&vol, &mut counter).expect("root inode");
    (vol, root, counter)
}

#[test]
fn fat32_mounts_and_reports_identity() {
    let disk = formatted_disk();
    let parts = enumerate_partitions(&disk, 0);
    assert_eq!(parts.len(), 1);
    assert_eq!(parts[0].partition_type, 0x0C);
    assert!(parts[0].is_fat32_candidate());
    let (vol, root, _) = mounted();
    assert_eq!(&fat32_volume_label(&vol), b"TESTVOL    ");
    assert_eq!(fat32_volume_uuid(&vol), 0x1234_ABCD);
    assert_eq!(root.fat32_first_cluster(), Some(2));
    assert_eq!(root.inode_type(), InodeType::Directory);
}

#[test]
fn fat32_rejects_bad_boot_sector() {
    let disk = formatted_disk();
    disk.bytes.borrow_mut()[510] = 0;
    assert!(fat32_init_partition(disk, 0).is_none());
}

#[test]
fn fat32_create_write_read_back() {
    let (mut vol, root, mut counter) = mounted();
    let mut file = root.create(&mut vol, "hello.txt", &mut counter).expect("create");
    let text = b"Hello, FAT32! This text fits in one cluster. ".repeat(5);
    assert_eq!(file.write_at(&mut vol, 0, &text), Ok(text.len()));
    let mut buf = vec![0u8; text.len()];
    assert_eq!(file.read_at(&mut vol, 0, &mut buf), Ok(text.len()));
    assert_eq!(buf, text);
    // The name is found again, ignoring case, with the new size.
    match root.lookup(&mut vol, "HELLO.TXT", &mut counter) {
        Some(Fat32Inode::File(f)) => {
            assert_eq!(f.stat().size, text.len() as u64);
            let mut again = vec![0u8; 5];
            assert_eq!(f.read_at(&mut vol, 7, &mut again), Ok(5));
            assert_eq!(&again, b"FAT32");
        }
        _ => panic!("file expected"),
    }
}

#[test]
fn fat32_directories_and_long_names() {
    let (mut vol, root, mut counter) = mounted();
    let docs = root.mkdir(&mut vol, "docs", &mut counter).expect("mkdir");
    assert_eq!(root.mkdir(&mut vol, "docs", &mut counter).err(), Some(FsError::AlreadyExists));
    let _ = docs.create(&mut vol, "A long file name.txt", &mut counter).expect("create long name");
    let mut names = Vec::new();
    let mut i = 0;
    while let Some(e) = docs.readdir(&mut vol, i, &mut counter) {
        names.push((e.name, e.inode_type));
        i += 1;
    }
    assert!(names.contains(&("A long file name.txt".to_string(), InodeType::RegularFile)));
    match root.lookup(&mut vol, "docs", &mut counter) {
        Some(Fat32Inode::Dir(d)) => assert_eq!(d.fat32_first_cluster(), docs.fat32_first_cluster()),
        _ => panic!("directory expected"),
    }
    assert!(matches!(docs.lookup(&mut vol, "a long FILE name.txt", &mut counter), Some(Fat32Inode::File(_))));
}

#[test]
fn fat32_unlink_removes_entry() {
    let (mut vol, root, mut counter) = mounted();
    let mut f = root.create(&mut vol, "gone.bin", &mut counter).expect("create");
    assert_eq!(f.write_at(&mut vol, 0, &[7u8; 300]), Ok(300));
    assert_eq!(root.unlink(&mut vol, "gone.bin"), Ok(()));
    assert!(root.lookup(&mut vol, "gone.bin", &mut counter).is_none());
    assert_eq!(root.unlink(&mut vol, "gone.bin"), Err(FsError::NotFound));
}

#[test]
fn fat32_truncate_shrinks_file() {
    let (mut vol, root, mut counter) = mounted();
    let mut f = root.create(&mut vol, "t.txt", &mut counter).expect("create");
    assert_eq!(f.write_at(&mut vol, 0, &[1u8; 500]), Ok(500));
    assert_eq!(f.truncate(&mut vol, 100), Ok(()));
    assert_eq!(f.stat().size, 100);
    let mut buf = vec![0u8; 200];
    assert_eq!(f.read_at(&mut vol, 0, &mut buf), Ok(100));
}

#[test]
fn fat32_write_spans_clusters() {
    // A write past the end of the chain appends clusters to it.
    let (mut vol, root, mut counter) = mounted();
    let mut f = root.create(&mut vol, "big.bin", &mut counter).expect("create");
    let data: Vec<u8> = (0..1500u32).map(|i| (i % 251) as u8).collect();
    assert_eq!(f.write_at(&mut vol, 0, &data), Ok(1500));
    assert_eq!(f.stat().size, 1500);
    let mut buf = vec![0u8; 1500];
    assert_eq!(f.read_at(&mut vol, 0, &mut buf), Ok(1500));
    assert_eq!(buf, data);
}

#[test]
fn fat32_volume_at_partition_offset_reads_back_what_it_wrote() {
    // The FAT sector cache is keyed by the partition-relative sector, so a
    // FAT write must drop it also when the partition does not start at 0.
    let inner = formatted_disk();
    let offset_sectors = 64usize;
    let mut img = vec![0u8; offset_sectors * 512];
    img.extend_from_slice(&inner.bytes.borrow());
    let disk = MemDisk { bytes: Rc::new(RefCell::new(img)) };
    let vol = fat32_init_partition(disk, offset_sectors as u64).expect("volume mounts");
    let mut vol = vol;
    let mut counter = 1u64;
    let root = fat32_root_inode(&vol, &mut counter).expect("root inode");
    let mut a = root.create(&mut vol, "a.bin", &mut counter).expect("create a");
    let data_a: Vec<u8> = (0..1200u32).map(|i| (i % 7) as u8).collect();
    assert_eq!(a.write_at(&mut vol, 0, &data_a), Ok(1200));
    let mut b = root.create(&mut vol, "b.bin", &mut counter).expect("create b");
    let data_b = vec![0xABu8; 700];
    assert_eq!(b.write_at(&mut vol, 0, &data_b), Ok(700));
    let mut buf = vec![0u8; 1200];
    assert_eq!(a.read_at(&mut vol, 0, &mut buf), Ok(1200));
    assert_eq!(buf, data_a);
    let mut buf = vec![0u8; 700];
    assert_eq!(b.read_at(&mut vol, 0, &mut buf), Ok(700));
    assert_eq!(buf, data_b);
}

#[test]
fn fat32_long_name_gets_short_alias_with_five_base_characters() {
    let disk = formatted_disk();
    let bytes = disk.bytes.clone();
    let mut vol = fat32_init_partition(disk, 0).expect("volume mounts");
    let mut counter = 1u64;
    let root = fat32_root_inode(&vol, &mut counter).expect("root inode");
    root.mkdir(&mut vol, "MiCarpeta", &mut counter).expect("mkdir");
    // Root directory: cluster 2, the first data sector (32 reserved + 2 FATs of 8).
    let root_dir = 48 * 512;
    let img = bytes.borrow();
    // One long-name slot, then the 8.3 entry.
    assert_eq!(img[root_dir + 11], 0x0F);
    assert_eq!(&img[root_dir + 32..root_dir + 43], b"MICAR~1    ");
    drop(img);
    assert!(matches!(root.lookup(&mut vol, "MiCarpeta", &mut counter), Some(Fat32Inode::Dir(_))));
}

#[test]
fn fat32_create_refuses_a_taken_name() {
    let (mut vol, root, mut counter) = mounted();
    root.create(&mut vol, "once.txt", &mut counter).expect("create");
    assert_eq!(root.create(&mut vol, "once.txt", &mut counter).err(), Some(FsError::AlreadyExists));
    root.mkdir(&mut vol, "sub", &mut counter).expect("mkdir");
    assert_eq!(root.create(&mut vol, "sub", &mut counter).err(), Some(FsError::AlreadyExists));
    assert_eq!(root.mkdir(&mut vol, "sub", &mut counter).err(), Some(FsError::AlreadyExists));
}

#[test]
fn fat32_unlink_refuses_a_non_empty_directory() {
    let (mut vol, root, mut counter) = mounted();
    let sub = root.mkdir(&mut vol, "sub", &mut counter).expect("mkdir");
    sub.create(&mut vol, "inner.txt", &mut counter).expect("create inner");
    assert_eq!(root.unlink(&mut vol, "sub"), Err(FsError::DirectoryNotEmpty));
    assert_eq!(sub.unlink(&mut vol, "inner.txt"), Ok(()));
    assert_eq!(root.unlink(&mut vol, "sub"), Ok(()));
    assert!(root.lookup(&mut vol, "sub", &mut counter).is_none());
}

#[test]
fn fat32_truncate_extends_with_zeros() {
    let (mut vol, root, mut counter) = mounted();
    let mut f = root.create(&mut vol, "grow.txt", &mut counter).expect("create");
    assert_eq!(f.write_at(&mut vol, 0, b"abc"), Ok(3));
    assert_eq!(f.truncate(&mut vol, 1000), Ok(()));
    assert_eq!(f.stat().size, 1000);
    let mut buf = vec![0xFFu8; 1000];
    assert_eq!(f.read_at(&mut vol, 0, &mut buf), Ok(1000));
    assert_eq!(&buf[..3], b"abc");
    assert!(buf[3..].iter().all(|&b| b == 0));
    assert_eq!(f.truncate(&mut vol, 0x1_0000_0000), Err(FsError::InvalidArgument));
}

#[test]
fn new_directory_cluster_holds_dot_entries() {
    let v = kernel::fat32::new_dir_cluster_bytes(512, 0x0001_0005, 2);
    assert_eq!(v.len(), 512);
    assert_eq!(&v[0..11], b".          ");
    assert_eq!(v[11], 0x10);
    assert_eq!(u16::from_le_bytes([v[20], v[21]]), 1);
    assert_eq!(u16::from_le_bytes([v[26], v[27]]), 5);
    assert_eq!(&v[32..43], b"..         ");
    assert_eq!(v[43], 0x10);
    assert_eq!(u16::from_le_bytes([v[58], v[59]]), 2);
    assert!(v[64..].iter().all(|&b| b == 0));
}
