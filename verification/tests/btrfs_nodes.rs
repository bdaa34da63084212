use kernel::btree::{binary_search_leaf, get_item_data, iter_items_from, search_leaf};
use kernel::chunk::{ChunkMap, ChunkMapping};
use kernel::ondisk::{BtrfsKey, KeyOrder};
use kernel::write::{build_leaf, delete_item_from_leaf, insert_item_into_leaf, items_fit_leaf, ChunkAllocator};

const NODESIZE: u32 = 4096;

fn sample_leaf() -> Vec<u8> {
    let fsid = [7u8; 16];
    let a = BtrfsKey::new(256, 1, 0);
    let b = BtrfsKey::new(256, 12, 256);
    let c = BtrfsKey::new(257, 1, 0);
    let items: Vec<(BtrfsKey, &[u8])> = vec![(a, b"first"), (b, b"second"), (c, b"")];
    assert!(items_fit_leaf(&items, NODESIZE));
    build_leaf(NODESIZE, 5, 9, &fsid, &items)
}

#[test]
fn key_order_is_lexicographic() {
    let a = BtrfsKey::new(1, 2, 3);
    assert_eq!(a.compare(&BtrfsKey::new(1, 2, 4)), KeyOrder::Less);
    assert_eq!(a.compare(&BtrfsKey::new(1, 1, 9)), KeyOrder::Greater);
    assert_eq!(a.compare(&BtrfsKey::new(1, 2, 3)), KeyOrder::Equal);
    assert!(a.less_than(&BtrfsKey::new(2, 0, 0)));
    let mut buf = [0u8; 17];
    a.to_bytes(&mut buf);
    assert_eq!(BtrfsKey::from_bytes(&buf), a);
    assert_eq!(a.encode(), buf.to_vec());
}

#[test]
fn built_leaf_reads_back() {
    let leaf = sample_leaf();
    assert_eq!(leaf.len(), NODESIZE as usize);
    let items = iter_items_from(&leaf, 0, 3);
    assert_eq!(items.len(), 3);
    assert_eq!(items[0], (BtrfsKey::new(256, 1, 0), &b"first"[..]));
    assert_eq!(items[1], (BtrfsKey::new(256, 12, 256), &b"second"[..]));
    assert_eq!(items[2], (BtrfsKey::new(257, 1, 0), &b""[..]));
    assert_eq!(get_item_data(&leaf, 1), Some((BtrfsKey::new(256, 12, 256), &b"second"[..])));
    // Data is packed from the end of the node backwards.
    assert_eq!(&leaf[NODESIZE as usize - 5..], b"first");
}

#[test]
fn leaf_search_finds_slot_or_insertion_point() {
    let leaf = sample_leaf();
    let r = search_leaf(leaf.clone(), &BtrfsKey::new(256, 12, 256)).unwrap();
    assert!(r.exact);
    assert_eq!((r.slot, r.nritems), (1, 3));
    let r = search_leaf(leaf.clone(), &BtrfsKey::new(256, 5, 0)).unwrap();
    assert!(!r.exact);
    assert_eq!(r.slot, 1);
    assert_eq!(binary_search_leaf(&leaf, 3, &BtrfsKey::new(999, 0, 0)), 3);
    assert_eq!(binary_search_leaf(&leaf, 3, &BtrfsKey::new(0, 0, 0)), 0);
}

#[test]
fn insert_then_delete_item() {
    let leaf = sample_leaf();
    let key = BtrfsKey::new(256, 84, 2);
    let grown = insert_item_into_leaf(&leaf, NODESIZE, &key, b"new!").unwrap();
    let items = iter_items_from(&grown, 0, 4);
    assert_eq!(items.len(), 4);
    assert_eq!(items[2], (key, &b"new!"[..]));
    assert_eq!(items[3].0, BtrfsKey::new(257, 1, 0));
    let shrunk = delete_item_from_leaf(&grown, NODESIZE, 2);
    let again = iter_items_from(&shrunk, 0, 3);
    assert_eq!(again, iter_items_from(&leaf, 0, 3));
}

#[test]
fn insert_into_full_leaf_fails() {
    let leaf = sample_leaf();
    let big = vec![1u8; 4000];
    assert!(insert_item_into_leaf(&leaf, NODESIZE, &BtrfsKey::new(300, 1, 0), &big).is_none());
}

fn mapping(logical: u64, length: u64, physical: u64, chunk_type: u64) -> ChunkMapping {
    ChunkMapping { logical, length, physical, devid: 1, chunk_type }
}

#[test]
fn chunk_map_translates_addresses() {
    let mut map = ChunkMap::new();
    map.insert(mapping(0x100000, 0x10000, 0x500000, 2));
    map.insert(mapping(0x10000, 0x1000, 0x20000, 1));
    assert_eq!(map.len(), 2);
    assert_eq!(map.iter()[0].logical, 0x10000);
    assert_eq!(map.logical_to_physical(0x10010), Some(0x20010));
    assert_eq!(map.logical_to_physical(0x100100), Some(0x500100));
    assert_eq!(map.logical_to_physical(0x11000), None);
    assert_eq!(map.logical_to_physical(0x100), None);
    assert_eq!(map.find_chunk_of_type(2).map(|c| c.logical), Some(0x100000));
    assert!(map.find_chunk_of_type(4).is_none());
}

#[test]
fn allocator_is_first_fit_and_page_aligned() {
    let mut map = ChunkMap::new();
    map.insert(mapping(0x10000, 0x4000, 0x10000, 1));
    map.insert(mapping(0x100000, 0x10000, 0x200000, 4));
    let mut alloc = ChunkAllocator::new(&map, &[(0x100000, 0x2000)]);
    assert_eq!(alloc.allocate(10, 4), Some(0x102000));
    assert_eq!(alloc.allocate(4096, 4), Some(0x103000));
    assert_eq!(alloc.bytes_used(4), 0x4000);
    assert_eq!(alloc.allocate(0x10000, 4), None);
    assert_eq!(alloc.allocate(1, 1), Some(0x10000));
}
