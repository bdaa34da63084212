use std::cell::RefCell;
use std::rc::Rc;

use kernel::btrfs::{btrfs_label, btrfs_mount, btrfs_probe, make_dir_item, make_inode_item, BtrfsInode};
use kernel::crc32c::btrfs_checksum;
use kernel::disk::BlockDevice;
use kernel::inode::InodeType;
use kernel::ondisk::{btrfs_name_hash, BtrfsKey};
use kernel::write::build_leaf;

#[derive(Clone)]
struct MemDisk {
    bytes: Rc<RefCell<Vec<u8>>>,
}

impl BlockDevice for MemDisk {
    fn spec_contents(&self) -> kernel::disk::DeviceContents {
        panic!("the contents view exists for proofs only")
    }
    fn read_sectors(&self, lba: u64, count: u32, buf: &mut [u8]) -> bool {
        let start = lba as usize * 512;
        let len = count as usize * 512;
        let bytes = self.bytes.borrow();
        if buf.len() < len || start + len > bytes.len() {
            return false;
        }
        buf[..len].copy_from_slice(&bytes[start..start + len]);
        true
    }
    fn write_sectors(&mut self, lba: u64, count: u32, buf: &[u8]) -> bool {
        let start = lba as usize * 512;
        let len = count as usize * 512;
        let mut bytes = self.bytes.borrow_mut();
        if buf.len() < len || start + len > bytes.len() {
            return false;
        }
        bytes[start..start + len].copy_from_slice(&buf[..len]);
        true
    }
    fn sector_count(&self) -> u64 {
        (self.bytes.borrow().len() / 512) as u64
    }
    fn sector_size(&self) -> u32 {
        512
    }
    fn name(&self) -> &str {
        "mem"
    }
}

const IMAGE_SIZE: usize = 4 * 1024 * 1024;
const NODESIZE: u32 = 4096;
const CHUNK_ROOT: u64 = 0x20000;
const ROOT_TREE: u64 = 0x21000;
const FS_TREE: u64 = 0x22000;
const CONTENT: &[u8] = b"hello from btrfs\n";

/// A chunk item mapping the whole image one to one, with one stripe.
fn chunk_item() -> Vec<u8> {
    let mut c = vec![0u8; 80];
    c[0..8].copy_from_slice(&(IMAGE_SIZE as u64).to_le_bytes());
    c[8..16].copy_from_slice(&2u64.to_le_bytes());
    c[16..24].copy_from_slice(&0x10000u64.to_le_bytes());
    c[24..32].copy_from_slice(&7u64.to_le_bytes());
    c[32..36].copy_from_slice(&4096u32.to_le_bytes());
    c[36..40].copy_from_slice(&4096u32.to_le_bytes());
    c[40..44].copy_from_slice(&4096u32.to_le_bytes());
    c[44..46].copy_from_slice(&1u16.to_le_bytes());
    c[48..56].copy_from_slice(&1u64.to_le_bytes());
    c
}

fn inline_extent(data: &[u8]) -> Vec<u8> {
    let mut e = vec![0u8; 21];
    e[0..8].copy_from_slice(&1u64.to_le_bytes());
    e[8..16].copy_from_slice(&(data.len() as u64).to_le_bytes());
    e.extend_from_slice(data);
    e
}

fn image() -> MemDisk {
    let mut img = vec![0u8; IMAGE_SIZE];
    let fsid = [0x5Au8; 16];
    let chunk_key = BtrfsKey::new(256, 228, 0);
    let chunk = chunk_item();

    let chunk_leaf = build_leaf(NODESIZE, 3, 1, &fsid, &[(chunk_key, &chunk[..])]);
    img[CHUNK_ROOT as usize..CHUNK_ROOT as usize + 4096].copy_from_slice(&chunk_leaf);

    let mut root_item = vec![0u8; 439];
    root_item[160..168].copy_from_slice(&1u64.to_le_bytes());
    root_item[168..176].copy_from_slice(&256u64.to_le_bytes());
    root_item[176..184].copy_from_slice(&FS_TREE.to_le_bytes());
    let root_leaf = build_leaf(NODESIZE, 1, 1, &fsid, &[(BtrfsKey::new(5, 132, 0), &root_item[..])]);
    img[ROOT_TREE as usize..ROOT_TREE as usize + 4096].copy_from_slice(&root_leaf);

    let dir_inode = make_inode_item(1, 0o040755, 0);
    let file_inode = make_inode_item(1, 0o100644, CONTENT.len() as u64);
    let dir_item = make_dir_item(257, 1, 1, "hello.txt");
    let extent = inline_extent(CONTENT);
    let hash = btrfs_name_hash(b"hello.txt");
    let items: Vec<(BtrfsKey, &[u8])> = vec![
        (BtrfsKey::new(256, 1, 0), &dir_inode[..]),
        (BtrfsKey::new(256, 84, hash), &dir_item[..]),
        (BtrfsKey::new(256, 96, 2), &dir_item[..]),
        (BtrfsKey::new(257, 1, 0), &file_inode[..]),
        (BtrfsKey::new(257, 108, 0), &extent[..]),
    ];
    let fs_leaf = build_leaf(NODESIZE, 5, 1, &fsid, &items);
    img[FS_TREE as usize..FS_TREE as usize + 4096].copy_from_slice(&fs_leaf);

    let sb_off = 0x10000;
    {
        let sb = &mut img[sb_off..sb_off + 4096];
        sb[0x20..0x30].copy_from_slice(&fsid);
        sb[0x30..0x38].copy_from_slice(&0x10000u64.to_le_bytes());
        sb[0x40..0x48].copy_from_slice(b"_BHRfS_M");
        sb[0x48..0x50].copy_from_slice(&1u64.to_le_bytes());
        sb[0x50..0x58].copy_from_slice(&ROOT_TREE.to_le_bytes());
        sb[0x58..0x60].copy_from_slice(&CHUNK_ROOT.to_le_bytes());
        sb[0x70..0x78].copy_from_slice(&(IMAGE_SIZE as u64).to_le_bytes());
        sb[0x88..0x90].copy_from_slice(&1u64.to_le_bytes());
        sb[0x90..0x94].copy_from_slice(&4096u32.to_le_bytes());
        sb[0x94..0x98].copy_from_slice(&NODESIZE.to_le_bytes());
        sb[0x9C..0xA0].copy_from_slice(&4096u32.to_le_bytes());
        let mut array = Vec::new();
        array.extend_from_slice(&chunk_key.encode());
        array.extend_from_slice(&chunk);
        sb[0xA0..0xA4].copy_from_slice(&(array.len() as u32).to_le_bytes());
        sb[0x12B..0x12B + 10].copy_from_slice(b" BAZZULTO ");
        // The kernel reads the system chunk array at offset 0x2FB.
        sb[0x2FB..0x2FB + array.len()].copy_from_slice(&array);
        let csum = btrfs_checksum(&sb[0x20..4096]);
        sb[0..4].copy_from_slice(&csum.to_le_bytes());
    }
    MemDisk { bytes: Rc::new(RefCell::new(img)) }
}

#[test]
fn btrfs_probe_and_label() {
    let disk = image();
    assert!(btrfs_probe(&disk, 0));
    assert_eq!(btrfs_label(&disk, 0), Some("BAZZULTO".to_string()));
    let blank = MemDisk { bytes: Rc::new(RefCell::new(vec![0u8; IMAGE_SIZE])) };
    assert!(!btrfs_probe(&blank, 0));
    let mut counter = 1;
    assert!(btrfs_mount(blank, 0, &mut counter).is_none());
}

#[test]
fn btrfs_mount_lookup_and_read() {
    let mut counter = 10u64;
    let (vol, root) = btrfs_mount(image(), 0, &mut counter).expect("mount");
    assert_eq!(root.objectid(), 256);
    assert_eq!(root.inode_type(&vol), InodeType::Directory);
    let entry = root.readdir(&vol, 0).expect("first entry");
    assert_eq!(entry.name, "hello.txt");
    assert_eq!(entry.inode_number, 257);
    assert!(root.readdir(&vol, 1).is_none());
    let file: BtrfsInode = root.lookup(&vol, "hello.txt", &mut counter).expect("lookup");
    assert_eq!(file.objectid(), 257);
    assert!(root.lookup(&vol, "missing", &mut counter).is_none());
    assert_eq!(file.inode_type(&vol), InodeType::RegularFile);
    assert_eq!(file.stat(&vol).size, CONTENT.len() as u64);
    let mut buf = [0u8; 64];
    let n = file.read_at(&vol, 0, &mut buf).expect("read");
    assert_eq!(&buf[..n], CONTENT);
    let mut tail = [0u8; 5];
    let n = file.read_at(&vol, 6, &mut tail).expect("read");
    assert_eq!(&tail[..n], b"from ");
}


#[test]
fn btrfs_create_write_read_back() {
    let mut counter = 1u64;
    let (mut vol, root) = btrfs_mount(image(), 0, &mut counter).expect("mount");
    let file = root.create(&mut vol, "new.txt", &mut counter).expect("create");
    let data = b"written through the kernel's btrfs writer";
    assert_eq!(file.write_at(&mut vol, 0, data), Ok(data.len()));
    let again = root.lookup(&vol, "new.txt", &mut counter).expect("lookup new file");
    assert_eq!(again.objectid(), file.objectid());
    let mut buf = [0u8; 64];
    let n = again.read_at(&vol, 0, &mut buf).expect("read");
    assert_eq!(&buf[..n], &data[..]);
    assert_eq!(again.stat(&vol).size, data.len() as u64);
    let d = root.mkdir(&mut vol, "sub", &mut counter).expect("mkdir");
    assert_eq!(d.inode_type(&vol), InodeType::Directory);
    assert_eq!(root.unlink(&mut vol, "new.txt"), Ok(()));
    assert!(root.lookup(&vol, "new.txt", &mut counter).is_none());
}

#[test]
fn superblock_sector_magic_check() {
    let mut sector = vec![0u8; 512];
    assert!(!kernel::superblock::sector_has_btrfs_magic(&sector));
    sector[0x40..0x48].copy_from_slice(&0x4D5F_5366_5248_425Fu64.to_le_bytes());
    assert!(kernel::superblock::sector_has_btrfs_magic(&sector));
    sector[0x47] = 0;
    assert!(!kernel::superblock::sector_has_btrfs_magic(&sector));
}

#[test]
fn extent_and_node_requests() {
    assert_eq!(kernel::read::extent_read_request(100, 1000, 600), (101, 3, 488));
    assert_eq!(kernel::read::extent_read_request(0, 512, 512), (1, 1, 0));
    assert_eq!(kernel::btree::node_request(100, 4096, 16384), (108, 32));
    assert_eq!(kernel::btree::node_request(u64::MAX, 512, 4096), (0, 8));
}

#[test]
fn regular_extent_read_from_mapped_address() {
    let mut img = vec![0u8; IMAGE_SIZE];
    img[0x200000 + 700..0x200000 + 704].copy_from_slice(b"WXYZ");
    let disk = MemDisk { bytes: Rc::new(RefCell::new(img)) };
    let mut map = kernel::chunk::ChunkMap::new();
    map.insert(kernel::chunk::ChunkMapping { logical: 0x100000, length: 0x100000, physical: 0x200000, devid: 1, chunk_type: 1 });
    let mut data = vec![0u8; 53];
    data[20] = 1;
    data[21..29].copy_from_slice(&0x100000u64.to_le_bytes());
    data[37..45].copy_from_slice(&700u64.to_le_bytes());
    data[45..53].copy_from_slice(&4u64.to_le_bytes());
    let leaf = build_leaf(NODESIZE, 5, 1, &[1u8; 16], &[(BtrfsKey::new(257, 108, 0), &data[..])]);
    let mut buf = [b'.'; 10];
    let n = kernel::read::read_extents_from(&disk, 0, &map, &leaf, 0, 1, 257, 1, &mut buf);
    assert_eq!(n, 3);
    assert_eq!(&buf, b"XYZ.......");
    let mut other = [b'.'; 10];
    assert_eq!(kernel::read::read_extents_from(&disk, 0, &map, &leaf, 0, 1, 258, 1, &mut other), 0);
    assert_eq!(&other, b"..........");
}
