//! Btrfs volume: mounting, and the inode operations of the FS tree.
//!
//! Single device, no compression; leaves are rebuilt copy-on-write and the
//! superblock is committed after each change.

use vstd::prelude::*;
use vstd::string::StringSliceAdditionalSpecFns;
use crate::btree::{
    get_item_data, header_nritems, item_data_range, items_from, leaf_items_fit, leaf_search_result, leaf_slot_for,
    pairs_view, search_first_ge, search_slot, search_exact, tree_path, SearchResult,
};
use crate::bytes::{le64, tail, vec_of_zeros, str_from_utf8};
use crate::chunk::{load_chunk_tree, parse_sys_chunk_array, ChunkMap};
use crate::disk::{sectors_of, BlockDevice};
use crate::inode::{alloc_inode_number, DirEntry, FsError, InodeStat, InodeType};
use crate::ondisk::{
    btrfs_name_hash, key_le, BtrfsHeader, BtrfsInodeItem, BtrfsKey, BtrfsRootItem, BtrfsSuperblock, BtrfsTimespec,
    BTRFS_BLOCK_GROUP_DATA, BTRFS_BLOCK_GROUP_METADATA, BTRFS_DIR_INDEX_KEY, BTRFS_DIR_ITEM_KEY,
    BTRFS_EXTENT_DATA_KEY, BTRFS_FIRST_FREE_OBJECTID, BTRFS_FS_TREE_OBJECTID, BTRFS_FT_CHRDEV,
    BTRFS_FT_DIR, BTRFS_FT_FIFO, BTRFS_FT_REG_FILE, BTRFS_FT_SYMLINK, BTRFS_INODE_ITEM_KEY,
    BTRFS_INODE_REF_KEY, BTRFS_LABEL_SIZE, BTRFS_ROOT_ITEM_KEY,
};
use crate::read::{dir_entry_fits, dir_index_run, dir_name_at, dir_walk, file_read_outcome, lookup_dir, read_file, read_inode, readdir_index};
use crate::superblock::{probe_btrfs_magic, read_superblock, validation_outcome, SuperblockError};
use crate::write::{
    build_leaf, build_leaf_spec, commit_superblock, create_extent_for_data, data_total,
    delete_item_from_leaf, insert_item_into_leaf, leaf_items, write_node, ChunkAllocator,
};

verus! {

/// A zero timespec.
pub open spec fn zero_time() -> BtrfsTimespec {
    BtrfsTimespec { sec: 0, nsec: 0 }
}

/// The inode item of a new object: one link, owned by root, all times zero.
pub open spec fn new_inode_item(generation: u64, mode: u32, size: u64) -> BtrfsInodeItem {
    BtrfsInodeItem {
        generation,
        transid: generation,
        size,
        nbytes: size,
        block_group: 0,
        nlink: 1,
        uid: 0,
        gid: 0,
        mode,
        rdev: 0,
        flags: 0,
        sequence: 0,
        reserved: vstd::array::spec_array_fill_for_copy_type::<u64, 4>(0u64),
        atime: zero_time(),
        ctime: zero_time(),
        mtime: zero_time(),
        otime: zero_time(),
    }
}

/// The 160-byte inode item of a new object.
pub fn make_inode_item(generation: u64, mode: u32, size: u64) -> (v: Vec<u8>)
    ensures
        v@ == new_inode_item(generation, mode, size).spec_encode(),
{
    let t = BtrfsTimespec { sec: 0, nsec: 0 };
    let inode = BtrfsInodeItem {
        generation,
        transid: generation,
        size,
        nbytes: size,
        block_group: 0,
        nlink: 1,
        uid: 0,
        gid: 0,
        mode,
        rdev: 0,
        flags: 0,
        sequence: 0,
        reserved: [0u64; 4],
        atime: t,
        ctime: t,
        mtime: t,
        otime: t,
    };
    inode.encode()
}

/// An INODE_REF item: directory index, name length (low 16 bits), name.
pub open spec fn inode_ref_bytes(name: Seq<u8>, index: u64) -> Seq<u8> {
    vstd::bytes::spec_u64_to_le_bytes(index)
        + vstd::bytes::spec_u16_to_le_bytes((name.len() % 0x10000) as u16) + name
}

/// The INODE_REF item of `name` at directory index `index`.
pub fn make_inode_ref(name: &str, index: u64) -> (v: Vec<u8>)
    ensures
        v@ == inode_ref_bytes(name.spec_bytes(), index),
{
    let name_bytes = name.as_bytes();
    let mut v: Vec<u8> = Vec::new();
    crate::bytes::push_u64_le(&mut v, index);
    crate::bytes::push_u16_le(&mut v, (name_bytes.len() % 0x10000) as u16);
    crate::bytes::push_slice(&mut v, name_bytes);
    v
}

/// A DIR_ITEM / DIR_INDEX item: location key (child, INODE_ITEM, 0),
/// transid, no data, name length (low 16 bits), file type, name.
pub open spec fn dir_item_bytes(child_objectid: u64, file_type: u8, generation: u64, name: Seq<u8>) -> Seq<u8> {
    BtrfsKey { objectid: child_objectid, item_type: BTRFS_INODE_ITEM_KEY, offset: 0 }.spec_encode()
        + vstd::bytes::spec_u64_to_le_bytes(generation) + vstd::bytes::spec_u16_to_le_bytes(0)
        + vstd::bytes::spec_u16_to_le_bytes((name.len() % 0x10000) as u16) + seq![file_type] + name
}

/// The DIR_ITEM (and DIR_INDEX) item naming `child_objectid` as `name`.
pub fn make_dir_item(child_objectid: u64, file_type: u8, generation: u64, name: &str) -> (v: Vec<u8>)
    ensures
        v@ == dir_item_bytes(child_objectid, file_type, generation, name.spec_bytes()),
{
    let name_bytes = name.as_bytes();
    let location = BtrfsKey::new(child_objectid, BTRFS_INODE_ITEM_KEY, 0);
    let mut v = location.encode();
    crate::bytes::push_u64_le(&mut v, generation);
    crate::bytes::push_u16_le(&mut v, 0);
    crate::bytes::push_u16_le(&mut v, (name_bytes.len() % 0x10000) as u16);
    v.push(file_type);
    crate::bytes::push_slice(&mut v, name_bytes);
    assert(v@ =~= dir_item_bytes(child_objectid, file_type, generation, name.spec_bytes()));
    v
}

/// Slot of the first INODE_ITEM of `objectid` among slots `i..n`, provided
/// the data of every slot up to it lies inside the leaf.
pub open spec fn inode_slot_from(leaf: Seq<u8>, objectid: u64, i: int, n: int) -> Option<int>
    decreases n - i,
{
    if i >= n {
        None
    } else {
        match item_data_range(leaf, i) {
            None => None,
            Some(p) => if p.0.objectid == objectid && p.0.item_type == BTRFS_INODE_ITEM_KEY {
                Some(i)
            } else {
                inode_slot_from(leaf, objectid, i + 1, n)
            },
        }
    }
}

/// The items of slots `i..n` whose data lies inside the leaf, with the data
/// of `slot` replaced by `new_data`.
pub open spec fn items_replaced(leaf: Seq<u8>, slot: int, new_data: Seq<u8>, i: int, n: int) -> Seq<(BtrfsKey, Seq<u8>)>
    decreases n - i,
{
    if i >= n {
        Seq::empty()
    } else {
        match item_data_range(leaf, i) {
            Some(p) => seq![if i == slot { (p.0, new_data) } else { p }] + items_replaced(leaf, slot, new_data, i + 1, n),
            None => items_replaced(leaf, slot, new_data, i + 1, n),
        }
    }
}

/// `item` with its size and byte count set to `new_size` and its transid
/// to `generation`.
pub open spec fn resized_inode(item: BtrfsInodeItem, new_size: u64, generation: u64) -> BtrfsInodeItem {
    BtrfsInodeItem { size: new_size, nbytes: new_size, transid: generation, ..item }
}

/// Collect the items of a leaf, replacing the data of `slot` by `new_data`.
fn collect_replacing<'a>(leaf: &'a [u8], slot: usize, new_data: &'a [u8]) -> (v: Vec<(BtrfsKey, &'a [u8])>)
    requires
        101 <= leaf@.len(),
        leaf_items_fit(leaf@, header_nritems(leaf@)),
    ensures
        pairs_view(v@) == items_replaced(leaf@, slot as int, new_data@, 0, header_nritems(leaf@)),
{
    let header = BtrfsHeader::from_bytes(leaf);
    let nritems = header.nritems as usize;
    let ghost whole = items_replaced(leaf@, slot as int, new_data@, 0, nritems as int);
    let mut items: Vec<(BtrfsKey, &'a [u8])> = Vec::new();
    let mut j: usize = 0;
    while j < nritems
        invariant
            nritems == header_nritems(leaf@),
            leaf_items_fit(leaf@, nritems as int),
            j <= nritems,
            pairs_view(items@) + items_replaced(leaf@, slot as int, new_data@, j as int, nritems as int) == whole,
        decreases nritems - j,
    {
        let ghost rest = items_replaced(leaf@, slot as int, new_data@, j + 1, nritems as int);
        let ghost before = items@;
        match get_item_data(leaf, j) {
            Some((k, d)) => {
                let p = if j == slot { (k, new_data) } else { (k, d) };
                items.push(p);
                proof {
                    assert(pairs_view(items@) =~= pairs_view(before).push((p.0, p.1@)));
                    assert(pairs_view(items@) + rest =~= pairs_view(before) + (seq![(p.0, p.1@)] + rest));
                }
            },
            None => {},
        }
        j = j + 1;
    }
    proof {
        assert(pairs_view(items@) + Seq::<(BtrfsKey, Seq<u8>)>::empty() =~= pairs_view(items@));
    }
    items
}

/// Rebuild a leaf with the inode item of `objectid` resized to `new_size`
/// (transid `generation`), the header carrying `generation`.  `None` when no
/// such item is found before a slot whose data lies outside the leaf, when
/// the item is shorter than an inode item, or when the rebuilt leaf would
/// not fit in `nodesize`.
pub fn update_inode_size_in_leaf(leaf: &[u8], nodesize: u32, objectid: u64, new_size: u64, generation: u64) -> (r: Option<Vec<u8>>)
    requires
        101 <= leaf@.len(),
        leaf_items_fit(leaf@, header_nritems(leaf@)),
    ensures
        inode_slot_from(leaf@, objectid, 0, header_nritems(leaf@)) is None ==> r is None,
        r matches Some(v) ==> v@.len() == nodesize,
        (inode_slot_from(leaf@, objectid, 0, header_nritems(leaf@)) matches Some(s)
            && (item_data_range(leaf@, s)->Some_0).1.len() >= 160
            && forall|item: BtrfsInodeItem| #[trigger] item.parsed_from((item_data_range(leaf@, s)->Some_0).1) ==> {
                let items = items_replaced(leaf@, s, resized_inode(item, new_size, generation).spec_encode(), 0,
                    header_nritems(leaf@));
                101 + 25 * items.len() <= nodesize && data_total(items) <= nodesize
            }) ==> r is Some,
        r matches Some(v) ==> inode_slot_from(leaf@, objectid, 0, header_nritems(leaf@)) matches Some(s)
            && exists|item: BtrfsInodeItem|
                #[trigger] item.parsed_from((item_data_range(leaf@, s)->Some_0).1)
                && v@ == build_leaf_spec(nodesize as nat, le64(leaf@, 88), generation, leaf@.subrange(32, 48),
                    items_replaced(leaf@, s, resized_inode(item, new_size, generation).spec_encode(), 0,
                        header_nritems(leaf@))),
{
    let header = BtrfsHeader::from_bytes(leaf);
    let nritems = header.nritems as usize;
    let mut i: usize = 0;
    while i < nritems
        invariant
            nritems == header_nritems(leaf@),
            leaf_items_fit(leaf@, nritems as int),
            i <= nritems,
            inode_slot_from(leaf@, objectid, i as int, nritems as int)
                == inode_slot_from(leaf@, objectid, 0, nritems as int),
            header.parsed_from(leaf@),
        decreases nritems - i,
    {
        let (key, data) = match get_item_data(leaf, i) {
            Some(p) => p,
            None => return None,
        };
        if key.objectid == objectid && key.item_type == BTRFS_INODE_ITEM_KEY {
            if data.len() < 160 {
                return None;
            }
            let mut inode = BtrfsInodeItem::from_bytes(data);
            let ghost parsed = inode;
            inode.size = new_size;
            inode.nbytes = new_size;
            inode.transid = generation;
            let new_data = inode.encode();
            let items = collect_replacing(leaf, i, new_data.as_slice());
            proof {
                assert(inode == resized_inode(parsed, new_size, generation));
                assert(item_data_range(leaf@, i as int) == Some((key, data@)));
                assert(inode_slot_from(leaf@, objectid, i as int, nritems as int) == Some(i as int));
                assert(parsed.parsed_from((item_data_range(leaf@, i as int)->Some_0).1));
                assert(new_data@ == resized_inode(parsed, new_size, generation).spec_encode());
                assert(pairs_view(items@) == items_replaced(leaf@, i as int, new_data@, 0, header_nritems(leaf@)));
                assert(pairs_view(items@).len() == items@.len());
            }
            if !crate::write::items_fit_leaf(items.as_slice(), nodesize) {
                return None;
            }
            let v = build_leaf(nodesize, header.owner, generation, &header.fsid, items.as_slice());
            proof {
                assert(inode == resized_inode(parsed, new_size, generation));
                assert(item_data_range(leaf@, i as int) == Some((key, data@)));
                assert(inode_slot_from(leaf@, objectid, i as int, nritems as int) == Some(i as int));
                assert(parsed.parsed_from((item_data_range(leaf@, i as int)->Some_0).1));
                assert(header.owner == le64(leaf@, 88));
                assert(header.fsid@ == leaf@.subrange(32, 48));
                assert(new_data@ == resized_inode(parsed, new_size, generation).spec_encode());
                assert(pairs_view(items@) == items_replaced(leaf@, i as int, new_data@, 0, header_nritems(leaf@)));
                assert(v@ == build_leaf_spec(nodesize as nat, le64(leaf@, 88), generation, leaf@.subrange(32, 48),
                    items_replaced(leaf@, i as int, resized_inode(parsed, new_size, generation).spec_encode(), 0,
                        header_nritems(leaf@))));
            }
            return Some(v);
        }
        i = i + 1;
    }
    None
}

/// A root item's bytes: `item` with a new tree root, level and generation
/// (`generation`, `generation_v2` and `ctransid`), encoded into 439 zeroed
/// bytes.
pub open spec fn rerooted_item(item: BtrfsRootItem, bytenr: u64, level: u8, generation: u64) -> Seq<u8> {
    let r = BtrfsRootItem { bytenr, level, generation, generation_v2: generation, ctransid: generation, ..item };
    r.spec_encode() + Seq::new(64, |i: int| 0u8)
}

/// Re-encode the root item in `data` with a new tree root, level and
/// generation.
fn reroot_item(data: &[u8], bytenr: u64, level: u8, generation: u64) -> (v: Vec<u8>)
    requires
        data@.len() >= 439,
    ensures
        exists|item: BtrfsRootItem| #[trigger] item.parsed_from(data@) && v@ == rerooted_item(item, bytenr, level, generation),
{
    let mut root_item = BtrfsRootItem::from_bytes(data);
    let ghost parsed = root_item;
    root_item.bytenr = bytenr;
    root_item.level = level;
    root_item.generation = generation;
    root_item.generation_v2 = generation;
    root_item.ctransid = generation;
    let mut new_data = vec_of_zeros(439);
    root_item.to_bytes(new_data.as_mut_slice());
    proof {
        root_item.lemma_encode_len();
        assert(new_data@ =~= rerooted_item(parsed, bytenr, level, generation));
    }
    new_data
}

/// All mutable state of a mounted Btrfs volume.
pub struct BtrfsVolume<D: BlockDevice> {
    disk: D,
    partition_start_lba: u64,
    pub superblock: BtrfsSuperblock,
    pub chunk_map: ChunkMap,
    pub generation: u64,
    pub root_tree_root: u64,
    pub root_tree_level: u8,
    pub fs_tree_root: u64,
    pub fs_tree_level: u8,
    pub allocator: ChunkAllocator,
}

impl<D: BlockDevice> BtrfsVolume<D> {
    /// The chunk map is sorted, the allocator's chunks do not overflow, and
    /// nodes are large enough for a header.
    pub closed spec fn wf(&self) -> bool {
        &&& self.chunk_map.wf()
        &&& self.allocator.wf()
        &&& 101 <= self.superblock.nodesize
    }

    /// The first sector of the partition on the disk.
    pub closed spec fn spec_partition_start(&self) -> u64 {
        self.partition_start_lba
    }

    /// The superblock read at mount time.
    pub closed spec fn spec_superblock(&self) -> BtrfsSuperblock {
        self.superblock
    }

    /// The bytes the device holds.
    pub closed spec fn spec_disk_contents(&self) -> Seq<u8> {
        self.disk.spec_contents()
    }

    /// The node size of the filesystem.
    pub closed spec fn spec_nodesize(&self) -> u32 {
        self.superblock.nodesize
    }

    /// The chunk mappings in use.
    pub closed spec fn spec_chunks(&self) -> Seq<crate::chunk::ChunkMapping> {
        self.chunk_map@
    }

    /// The root tree is the one the superblock names.
    pub closed spec fn spec_root_tree_from_superblock(&self) -> bool {
        self.root_tree_root == self.superblock.root && self.root_tree_level == self.superblock.root_level
    }

    /// The FS tree's root node address and level.
    pub closed spec fn spec_fs_tree(&self) -> (u64, u8) {
        (self.fs_tree_root, self.fs_tree_level)
    }

    /// The generation of the FS tree root item.
    pub closed spec fn spec_generation(&self) -> u64 {
        self.generation
    }

    /// Node size of the volume.
    fn nodesize(&self) -> (n: u32)
        ensures
            n == self.superblock.nodesize,
    {
        self.superblock.nodesize
    }

    /// Write a node with the volume's allocator and device.
    fn write_node(&mut self, node_data: &mut Vec<u8>) -> (r: Option<u64>)
        requires
            old(self).wf(),
            old(node_data)@.len() == old(self).superblock.nodesize,
        ensures
            final(self).wf(),
            final(self).superblock == old(self).superblock,
            final(self).generation == old(self).generation,
            final(self).fs_tree_root == old(self).fs_tree_root,
            final(self).fs_tree_level == old(self).fs_tree_level,
            final(self).root_tree_root == old(self).root_tree_root,
            final(self).root_tree_level == old(self).root_tree_level,
            final(self).chunk_map == old(self).chunk_map,
            final(node_data)@.len() == old(node_data)@.len(),
            final(self).allocator@ == crate::write::allocate_spec(old(self).allocator@, old(self).superblock.nodesize as u64,
                BTRFS_BLOCK_GROUP_METADATA).0,
            match crate::write::allocate_spec(old(self).allocator@, old(self).superblock.nodesize as u64, BTRFS_BLOCK_GROUP_METADATA).1 {
                None => r is None && final(node_data)@ == old(node_data)@,
                Some(x) => final(node_data)@ == crate::write::sealed_node(old(node_data)@, x, old(self).superblock.nodesize as int)
                    && (r is Some ==> r == Some(x))
                    && (crate::chunk::translate(old(self).chunk_map@, x) is None ==> r is None),
            },
    {
        let nodesize = self.nodesize();
        write_node(&mut self.disk, self.partition_start_lba, &self.chunk_map, &mut self.allocator, nodesize, node_data)
    }

    /// Store file data as an extent and return its EXTENT_DATA item.
    fn create_extent(&mut self, generation: u64, data: &[u8]) -> (r: Option<Vec<u8>>)
        requires
            old(self).wf(),
            data@.len() + 8192 <= usize::MAX,
        ensures
            final(self).wf(),
            final(self).superblock == old(self).superblock,
            final(self).generation == old(self).generation,
            final(self).fs_tree_root == old(self).fs_tree_root,
            final(self).fs_tree_level == old(self).fs_tree_level,
            data@.len() <= crate::write::inline_max(old(self).superblock.nodesize) ==> (r matches Some(v)
                && v@ == crate::write::inline_extent_bytes(generation, data@)) && final(self).allocator@ == old(self).allocator@,
            data@.len() > crate::write::inline_max(old(self).superblock.nodesize) ==> {
                let aligned = crate::write::align_up_4k(data@.len() as u64);
                let (s2, res) = crate::write::allocate_spec(old(self).allocator@, aligned, BTRFS_BLOCK_GROUP_DATA);
                &&& final(self).allocator@ == s2
                &&& res is None ==> r is None
                &&& r matches Some(v) ==> (res matches Some(x)
                    && v@ == crate::write::regular_extent_bytes(generation, data@.len() as u64, x, aligned))
            },
    {
        let nodesize = self.nodesize();
        create_extent_for_data(&mut self.disk, self.partition_start_lba, &self.chunk_map, &mut self.allocator,
            generation, data, nodesize)
    }

    /// Point the FS tree at `new_fs_root`, update the root tree's entry for
    /// it, and commit the superblock with the next generation (wrapping at
    /// 2^64).
    fn commit(&mut self, new_fs_root: u64, new_fs_level: u8)
        requires
            old(self).wf(),
        ensures
            final(self).wf(),
            final(self).fs_tree_root == new_fs_root,
            final(self).generation == (old(self).generation + 1) % 0x1_0000_0000_0000_0000,
            final(self).superblock == old(self).superblock,
    {
        self.fs_tree_root = new_fs_root;
        let generation = self.generation;
        let bytes_used = self.allocator.bytes_used(BTRFS_BLOCK_GROUP_DATA | BTRFS_BLOCK_GROUP_METADATA);
        match self.update_root_tree_fs_entry(new_fs_root, new_fs_level, generation) {
            Some((new_root_tree, new_root_level)) => {
                self.root_tree_root = new_root_tree;
                self.root_tree_level = new_root_level;
            },
            None => {},
        }
        let new_gen = generation.wrapping_add(1);
        let _ok = commit_superblock(&mut self.disk, self.partition_start_lba, self.root_tree_root,
            self.root_tree_level, new_gen, bytes_used);
        self.generation = new_gen;
    }

    /// Rewrite the root tree leaf holding the FS tree's root item so that it
    /// points at `new_fs_root`; returns the new root tree root and level.
    fn update_root_tree_fs_entry(&mut self, new_fs_root: u64, new_fs_level: u8, generation: u64) -> (r: Option<(u64, u8)>)
        requires
            old(self).wf(),
        ensures
            final(self).wf(),
            final(self).superblock == old(self).superblock,
            final(self).generation == old(self).generation,
            final(self).fs_tree_root == old(self).fs_tree_root,
            final(self).fs_tree_level == old(self).fs_tree_level,
            final(self).root_tree_root == old(self).root_tree_root,
            final(self).root_tree_level == old(self).root_tree_level,
            r matches Some(p) ==> p.1 == 0,
    {
        let nodesize = self.nodesize();
        let key = BtrfsKey::new(BTRFS_FS_TREE_OBJECTID, BTRFS_ROOT_ITEM_KEY, 0);
        let result = match search_first_ge(&self.disk, self.partition_start_lba, &self.chunk_map, nodesize,
            self.root_tree_root, self.root_tree_level, &key) {
            Some(res) => res,
            None => return None,
        };
        let data = match get_item_data(result.leaf.as_slice(), result.slot) {
            Some((_k, d)) => d,
            None => return None,
        };
        if data.len() < 439 {
            return None;
        }
        let new_data = reroot_item(data, new_fs_root, new_fs_level, generation);
        let header = BtrfsHeader::from_bytes(result.leaf.as_slice());
        let items = collect_replacing(result.leaf.as_slice(), result.slot, new_data.as_slice());
        if !crate::write::items_fit_leaf(items.as_slice(), nodesize) {
            return None;
        }
        let fsid = self.superblock.fsid;
        let mut new_leaf = build_leaf(nodesize, header.owner, generation, &fsid, items.as_slice());
        match self.write_node(&mut new_leaf) {
            Some(new_root_tree) => Some((new_root_tree, 0)),
            None => None,
        }
    }

    /// A new objectid for the FS tree: 257 plus a hundred per generation
    /// (wrapping at 2^64).
    fn allocate_objectid(&self) -> (id: u64)
        ensures
            id == (256 + self.generation * 100 + 1) % 0x1_0000_0000_0000_0000,
    {
        proof {
            vstd::arithmetic::mul::lemma_mul_nonnegative(self.generation as int, 100);
        }
        let r = BTRFS_FIRST_FREE_OBJECTID.wrapping_add(self.generation.wrapping_mul(100)).wrapping_add(1);
        proof {
            let m = 0x1_0000_0000_0000_0000int;
            let g = self.generation as int;
            vstd::arithmetic::div_mod::lemma_add_mod_noop(256, g * 100, m);
            vstd::arithmetic::div_mod::lemma_add_mod_noop(256 + g * 100, 1, m);
            vstd::arithmetic::div_mod::lemma_mod_twice(g * 100, m);
        }
        r
    }

    /// The next DIR_INDEX sequence number of directory `dir_objectid`: one
    /// past the last DIR_INDEX item found just before the search position
    /// (wrapping at 2^64), or 2 when there is none.
    fn find_next_dir_index(&self, dir_objectid: u64) -> (n: u64)
        requires
            self.wf(),
    {
        let nodesize = self.nodesize();
        let search_key = BtrfsKey::new(dir_objectid, BTRFS_DIR_INDEX_KEY, 0xFFFF_FFFF_FFFF_FFFF);
        let result = search_slot(&self.disk, self.partition_start_lba, &self.chunk_map, nodesize,
            self.fs_tree_root, self.fs_tree_level, &search_key);
        match result {
            Some(r) => {
                if r.slot > 0 {
                    match get_item_data(r.leaf.as_slice(), r.slot - 1) {
                        Some((key, _d)) => {
                            if key.objectid == dir_objectid && key.item_type == BTRFS_DIR_INDEX_KEY {
                                return key.offset.wrapping_add(1);
                            }
                        },
                        None => {},
                    }
                }
                2
            },
            None => 2,
        }
    }
}

/// The inode type a directory entry's BTRFS_FT_* file type stands for.
pub open spec fn inode_type_of_ft(ft: u8) -> InodeType {
    if ft == BTRFS_FT_DIR {
        InodeType::Directory
    } else if ft == BTRFS_FT_SYMLINK {
        InodeType::Symlink
    } else if ft == BTRFS_FT_FIFO {
        InodeType::Fifo
    } else if ft == BTRFS_FT_CHRDEV {
        InodeType::CharDevice
    } else {
        InodeType::RegularFile
    }
}

/// Directory entry file types: 2 is a directory, 7 a symlink, 5 a FIFO,
/// 3 a character device, and every other code (1, regular file, among
/// them) a regular file.
pub proof fn lemma_file_type_codes(ft: u8)
    ensures
        ft == 2 <==> inode_type_of_ft(ft) == InodeType::Directory,
        ft == 7 <==> inode_type_of_ft(ft) == InodeType::Symlink,
        ft == 5 <==> inode_type_of_ft(ft) == InodeType::Fifo,
        ft == 3 <==> inode_type_of_ft(ft) == InodeType::CharDevice,
        (ft != 2 && ft != 7 && ft != 5 && ft != 3) <==> inode_type_of_ft(ft) == InodeType::RegularFile,
{
}

/// The inode type a directory entry's BTRFS_FT_* file type stands for.
pub fn inode_type_from_ft(ft: u8) -> (t: InodeType)
    ensures
        t == inode_type_of_ft(ft),
{
    if ft == BTRFS_FT_DIR {
        InodeType::Directory
    } else if ft == BTRFS_FT_SYMLINK {
        InodeType::Symlink
    } else if ft == BTRFS_FT_FIFO {
        InodeType::Fifo
    } else if ft == BTRFS_FT_CHRDEV {
        InodeType::CharDevice
    } else {
        InodeType::RegularFile
    }
}

/// The stat of a Btrfs inode: from its inode item, or a default regular
/// file stat when the item cannot be read.
pub open spec fn btrfs_stat_of(inode_number: u64, item: Option<BtrfsInodeItem>) -> InodeStat {
    match item {
        Some(i) => InodeStat {
            inode_number,
            size: i.size,
            mode: i.mode as u64,
            nlinks: i.nlink as u64,
            uid: i.uid,
            gid: i.gid,
        },
        None => InodeStat { inode_number, size: 0, mode: 0o100644, nlinks: 1, uid: 0, gid: 0 },
    }
}

/// A VFS inode backed by an object of a Btrfs FS tree.
pub struct BtrfsInode {
    vfs_inode_number: u64,
    btrfs_objectid: u64,
}

impl BtrfsInode {
    /// The VFS inode number.
    pub closed spec fn spec_inode_number(&self) -> u64 {
        self.vfs_inode_number
    }

    /// The FS tree objectid.
    pub closed spec fn spec_objectid(&self) -> u64 {
        self.btrfs_objectid
    }

    /// An inode for object `btrfs_objectid`, numbered from `counter`.
    pub fn new(btrfs_objectid: u64, counter: &mut u64) -> (i: Self)
        ensures
            i.spec_objectid() == btrfs_objectid,
            i.spec_inode_number() == *old(counter),
            *final(counter) == (*old(counter) + 1) % 0x1_0000_0000_0000_0000,
    {
        BtrfsInode { vfs_inode_number: alloc_inode_number(counter), btrfs_objectid }
    }

    /// The FS tree objectid of this inode.
    pub fn objectid(&self) -> (o: u64)
        ensures
            o == self.spec_objectid(),
    {
        self.btrfs_objectid
    }

    /// Directory, symlink, or (otherwise, also when unreadable) regular file,
    /// by the mode of the inode item.
    pub fn inode_type<D: BlockDevice>(&self, vol: &BtrfsVolume<D>) -> (t: InodeType)
        requires
            vol.wf(),
        ensures
            t == InodeType::Directory || t == InodeType::Symlink || t == InodeType::RegularFile,
    {
        let nodesize = vol.nodesize();
        proof { reveal(BtrfsVolume::wf); }
        match read_inode(&vol.disk, vol.partition_start_lba, &vol.chunk_map, nodesize, vol.fs_tree_root,
            vol.fs_tree_level, self.btrfs_objectid) {
            Some(i) => {
                if i.is_directory() {
                    InodeType::Directory
                } else if i.is_symlink() {
                    InodeType::Symlink
                } else {
                    InodeType::RegularFile
                }
            },
            None => InodeType::RegularFile,
        }
    }

    /// The stat of this inode, from its inode item when it can be read.
    pub fn stat<D: BlockDevice>(&self, vol: &BtrfsVolume<D>) -> (s: InodeStat)
        requires
            vol.wf(),
        ensures
            exists|item: Option<BtrfsInodeItem>| s == btrfs_stat_of(self.spec_inode_number(), item),
    {
        let nodesize = vol.nodesize();
        let item = read_inode(&vol.disk, vol.partition_start_lba, &vol.chunk_map, nodesize, vol.fs_tree_root,
            vol.fs_tree_level, self.btrfs_objectid);
        let s = match item {
            Some(i) => InodeStat {
                inode_number: self.vfs_inode_number,
                size: i.size,
                mode: i.mode as u64,
                nlinks: i.nlink as u64,
                uid: i.uid,
                gid: i.gid,
            },
            None => InodeStat { inode_number: self.vfs_inode_number, size: 0, mode: 0o100644, nlinks: 1, uid: 0, gid: 0 },
        };
        assert(s == btrfs_stat_of(self.spec_inode_number(), item));
        s
    }

    /// Read file data at `offset` (see `read_file`); never fails.
    pub fn read_at<D: BlockDevice>(&self, vol: &BtrfsVolume<D>, offset: u64, buf: &mut [u8]) -> (r: Result<usize, FsError>)
        requires
            vol.wf(),
            offset + old(buf)@.len() <= u64::MAX,
            old(buf)@.len() + 1024 <= usize::MAX,
        ensures
            r matches Ok(n) && n <= old(buf)@.len(),
            final(buf)@.len() == old(buf)@.len(),
            r matches Ok(n) ==> file_read_outcome(vol.spec_nodesize(), vol.spec_disk_contents(), vol.spec_partition_start(),
                vol.spec_chunks(), vol.spec_fs_tree().0, vol.spec_fs_tree().1, self.spec_objectid(), offset,
                old(buf)@, final(buf)@, n as int),
    {
        let nodesize = vol.nodesize();
        let n = read_file(&vol.disk, vol.partition_start_lba, &vol.chunk_map, nodesize, vol.fs_tree_root,
            vol.fs_tree_level, self.btrfs_objectid, offset, buf);
        Ok(n)
    }

    /// Write `buf` at `offset`: store it as an extent, insert its
    /// EXTENT_DATA item into the leaf holding the inode item, grow the
    /// recorded size, write the leaf and commit.  `NotFound` when the inode
    /// item cannot be read, `OutOfMemory` when the extent or the leaf has no
    /// room, `IoError` when a search or the node write fails.
    pub fn write_at<D: BlockDevice>(&self, vol: &mut BtrfsVolume<D>, offset: u64, buf: &[u8]) -> (r: Result<usize, FsError>)
        requires
            old(vol).wf(),
            offset + buf@.len() <= u64::MAX,
            buf@.len() + 8192 <= usize::MAX,
        ensures
            final(vol).wf(),
            r matches Ok(n) ==> n == buf@.len(),
            r matches Err(e) ==> e == FsError::NotFound || e == FsError::OutOfMemory || e == FsError::IoError,
            r is Ok ==> final(vol).spec_generation() == (old(vol).spec_generation() + 1) % 0x1_0000_0000_0000_0000,
            r is Err ==> final(vol).spec_generation() == old(vol).spec_generation(),
    {
        let generation = vol.generation;
        let nodesize = vol.nodesize();
        let inode = match read_inode(&vol.disk, vol.partition_start_lba, &vol.chunk_map, nodesize,
            vol.fs_tree_root, vol.fs_tree_level, self.btrfs_objectid) {
            Some(i) => i,
            None => return Err(FsError::NotFound),
        };
        let extent_data = match vol.create_extent(generation, buf) {
            Some(d) => d,
            None => return Err(FsError::OutOfMemory),
        };
        let extent_key = BtrfsKey::new(self.btrfs_objectid, BTRFS_EXTENT_DATA_KEY, offset);
        let search_key = BtrfsKey::new(self.btrfs_objectid, BTRFS_INODE_ITEM_KEY, 0);
        let result = match search_slot(&vol.disk, vol.partition_start_lba, &vol.chunk_map, nodesize,
            vol.fs_tree_root, vol.fs_tree_level, &search_key) {
            Some(res) => res,
            None => return Err(FsError::IoError),
        };
        let new_leaf = match insert_item_into_leaf(result.leaf.as_slice(), nodesize, &extent_key, extent_data.as_slice()) {
            Some(l) => l,
            None => return Err(FsError::OutOfMemory),
        };
        let end = offset + buf.len() as u64;
        let new_size = if end > inode.size { end } else { inode.size };
        let mut updated_leaf = match update_inode_size_in_leaf(new_leaf.as_slice(), nodesize, self.btrfs_objectid,
            new_size, generation) {
            Some(l) => l,
            None => new_leaf,
        };
        let new_root = match vol.write_node(&mut updated_leaf) {
            Some(r) => r,
            None => return Err(FsError::IoError),
        };
        vol.commit(new_root, 0);
        Ok(buf.len())
    }

    /// Set the recorded size of the file to `new_size` (the leaf holding
    /// its inode item is rewritten and committed).  `IoError` when the
    /// search, the rebuild or the node write fails.
    pub fn truncate<D: BlockDevice>(&self, vol: &mut BtrfsVolume<D>, new_size: u64) -> (r: Result<(), FsError>)
        requires
            old(vol).wf(),
        ensures
            final(vol).wf(),
            r matches Err(e) ==> e == FsError::IoError,
            r is Ok ==> final(vol).spec_generation() == (old(vol).spec_generation() + 1) % 0x1_0000_0000_0000_0000,
            r is Err ==> final(vol).spec_generation() == old(vol).spec_generation(),
    {
        let nodesize = vol.nodesize();
        let generation = vol.generation;
        let search_key = BtrfsKey::new(self.btrfs_objectid, BTRFS_INODE_ITEM_KEY, 0);
        let result = match search_slot(&vol.disk, vol.partition_start_lba, &vol.chunk_map, nodesize,
            vol.fs_tree_root, vol.fs_tree_level, &search_key) {
            Some(res) => res,
            None => return Err(FsError::IoError),
        };
        let mut updated_leaf = match update_inode_size_in_leaf(result.leaf.as_slice(), nodesize, self.btrfs_objectid,
            new_size, generation) {
            Some(l) => l,
            None => return Err(FsError::IoError),
        };
        let new_root = match vol.write_node(&mut updated_leaf) {
            Some(r) => r,
            None => return Err(FsError::IoError),
        };
        vol.commit(new_root, 0);
        Ok(())
    }

    /// Look up `name` in this directory; the child gets a number from
    /// `counter`.
    pub fn lookup<D: BlockDevice>(&self, vol: &BtrfsVolume<D>, name: &str, counter: &mut u64) -> (r: Option<BtrfsInode>)
        requires
            vol.wf(),
        ensures
            r matches Some(c) ==> c.spec_inode_number() == *old(counter),
            r matches Some(c) ==> exists|leaf: Seq<u8>, slot: int, data: Seq<u8>|
                #![trigger item_data_range(leaf, slot), dir_walk(data, name.spec_bytes(), 0)] {
                &&& item_data_range(leaf, slot) == Some((BtrfsKey {
                    objectid: self.spec_objectid(),
                    item_type: BTRFS_DIR_ITEM_KEY,
                    offset: crate::crc32c::spec_crc32c(0xFFFF_FFFFu32, name.spec_bytes()) as u64,
                }, data))
                &&& tree_path(vol.spec_disk_contents(), vol.spec_partition_start(), vol.spec_chunks(), vol.spec_nodesize(),
                    vol.spec_fs_tree().0, vol.spec_fs_tree().1 as int, BtrfsKey {
                        objectid: self.spec_objectid(),
                        item_type: BTRFS_DIR_ITEM_KEY,
                        offset: crate::crc32c::spec_crc32c(0xFFFF_FFFFu32, name.spec_bytes()) as u64,
                    }, leaf)
                &&& dir_walk(data, name.spec_bytes(), 0) matches Some(off)
                    && dir_entry_fits(data, off) && c.spec_objectid() == le64(tail(data, off), 0)
            },
    {
        let nodesize = vol.nodesize();
        let entry = match lookup_dir(&vol.disk, vol.partition_start_lba, &vol.chunk_map, nodesize,
            vol.fs_tree_root, vol.fs_tree_level, self.btrfs_objectid, name) {
            Some(e) => e,
            None => return None,
        };
        Some(BtrfsInode::new(entry.objectid, counter))
    }

    /// The `index`-th entry of this directory, in DIR_INDEX order.
    pub fn readdir<D: BlockDevice>(&self, vol: &BtrfsVolume<D>, index: usize) -> (r: Option<DirEntry>)
        requires
            vol.wf(),
        ensures
            r matches Some(d) ==> exists|leaf: Seq<u8>, slot: int, nritems: int, k: BtrfsKey|
                #![trigger items_from(leaf, slot, nritems), leaf_slot_for(leaf, nritems, k, slot)]
            {
                let items = items_from(leaf, slot, nritems);
                let data = items[index as int].1;
                &&& leaf.len() == vol.spec_nodesize() && 0 <= slot < nritems
                &&& key_le(BtrfsKey { objectid: self.spec_objectid(), item_type: BTRFS_DIR_INDEX_KEY, offset: 0 }, k)
                &&& tree_path(vol.spec_disk_contents(), vol.spec_partition_start(), vol.spec_chunks(), vol.spec_nodesize(),
                    vol.spec_fs_tree().0, vol.spec_fs_tree().1 as int, k, leaf)
                &&& nritems == header_nritems(leaf) && leaf_slot_for(leaf, nritems, k, slot)
                &&& index < dir_index_run(items, self.spec_objectid(), 0)
                &&& dir_entry_fits(data, 0)
                &&& vstd::utf8::encode_utf8(d.name@) == dir_name_at(data, 0)
                &&& d.inode_number == le64(tail(data, 0), 0)
                &&& d.inode_type == inode_type_of_ft(tail(data, 0)[29])
            },
    {
        let nodesize = vol.nodesize();
        let entry = match readdir_index(&vol.disk, vol.partition_start_lba, &vol.chunk_map, nodesize,
            vol.fs_tree_root, vol.fs_tree_level, self.btrfs_objectid, index) {
            Some(e) => e,
            None => return None,
        };
        Some(DirEntry { name: entry.name, inode_type: inode_type_from_ft(entry.file_type), inode_number: entry.objectid })
    }

    /// Create a child called `name` with `mode` and file type `ft`: a new
    /// inode item and reference, and DIR_ITEM and DIR_INDEX entries in this
    /// directory, inserted into the leaf holding this directory's inode item.
    fn create_child<D: BlockDevice>(&self, vol: &mut BtrfsVolume<D>, name: &str, mode: u32, ft: u8, counter: &mut u64) -> (r: Result<BtrfsInode, FsError>)
        requires
            old(vol).wf(),
        ensures
            final(vol).wf(),
            r matches Err(e) ==> e == FsError::OutOfMemory || e == FsError::IoError,
            r matches Ok(c) ==> c.spec_inode_number() == *old(counter),
            r is Ok ==> final(vol).spec_generation() == (old(vol).spec_generation() + 1) % 0x1_0000_0000_0000_0000,
            r is Err ==> final(vol).spec_generation() == old(vol).spec_generation(),
    {
        let nodesize = vol.nodesize();
        let generation = vol.generation;
        let new_objectid = vol.allocate_objectid();
        let next_index = vol.find_next_dir_index(self.btrfs_objectid);
        let inode_item = make_inode_item(generation, mode, 0);
        let inode_ref_data = make_inode_ref(name, next_index);
        let dir_item_data = make_dir_item(new_objectid, ft, generation, name);
        let name_bytes = name.as_bytes();
        let dir_item_key = BtrfsKey::new(self.btrfs_objectid, BTRFS_DIR_ITEM_KEY, btrfs_name_hash(name_bytes));
        let dir_index_key = BtrfsKey::new(self.btrfs_objectid, BTRFS_DIR_INDEX_KEY, next_index);
        let inode_item_key = BtrfsKey::new(new_objectid, BTRFS_INODE_ITEM_KEY, 0);
        let inode_ref_key = BtrfsKey::new(new_objectid, BTRFS_INODE_REF_KEY, self.btrfs_objectid);
        let search_key = BtrfsKey::new(self.btrfs_objectid, BTRFS_INODE_ITEM_KEY, 0);
        let result = match search_slot(&vol.disk, vol.partition_start_lba, &vol.chunk_map, nodesize,
            vol.fs_tree_root, vol.fs_tree_level, &search_key) {
            Some(res) => res,
            None => return Err(FsError::IoError),
        };
        let mut inserts: Vec<(BtrfsKey, &[u8])> = Vec::new();
        inserts.push((dir_item_key, dir_item_data.as_slice()));
        inserts.push((dir_index_key, dir_item_data.as_slice()));
        inserts.push((inode_item_key, inode_item.as_slice()));
        inserts.push((inode_ref_key, inode_ref_data.as_slice()));
        let mut leaf = result.leaf;
        let n = inserts.len();
        let mut k: usize = 0;
        while k < n
            invariant
                n == inserts@.len(),
                k <= n,
                leaf@.len() == nodesize,
                101 <= nodesize,
                leaf_items_fit(leaf@, header_nritems(leaf@)),
                vol.wf(),
                nodesize == vol.superblock.nodesize,
            decreases n - k,
        {
            let (key, data) = inserts[k];
            leaf = match insert_item_into_leaf(leaf.as_slice(), nodesize, &key, data) {
                Some(l) => l,
                None => return Err(FsError::OutOfMemory),
            };
            k = k + 1;
        }
        let new_root = match vol.write_node(&mut leaf) {
            Some(r) => r,
            None => return Err(FsError::IoError),
        };
        vol.commit(new_root, 0);
        Ok(BtrfsInode::new(new_objectid, counter))
    }

    /// Create a regular file (mode 0o100644) called `name` in this directory.
    pub fn create<D: BlockDevice>(&self, vol: &mut BtrfsVolume<D>, name: &str, counter: &mut u64) -> (r: Result<BtrfsInode, FsError>)
        requires
            old(vol).wf(),
        ensures
            final(vol).wf(),
            r matches Err(e) ==> e == FsError::OutOfMemory || e == FsError::IoError,
            r matches Ok(c) ==> c.spec_inode_number() == *old(counter),
            r is Ok ==> final(vol).spec_generation() == (old(vol).spec_generation() + 1) % 0x1_0000_0000_0000_0000,
            r is Err ==> final(vol).spec_generation() == old(vol).spec_generation(),
    {
        self.create_child(vol, name, 0o100644, BTRFS_FT_REG_FILE, counter)
    }

    /// Create a directory (mode 0o040755) called `name` in this directory.
    pub fn mkdir<D: BlockDevice>(&self, vol: &mut BtrfsVolume<D>, name: &str, counter: &mut u64) -> (r: Result<BtrfsInode, FsError>)
        requires
            old(vol).wf(),
        ensures
            final(vol).wf(),
            r matches Err(e) ==> e == FsError::OutOfMemory || e == FsError::IoError,
            r matches Ok(c) ==> c.spec_inode_number() == *old(counter),
            r is Ok ==> final(vol).spec_generation() == (old(vol).spec_generation() + 1) % 0x1_0000_0000_0000_0000,
            r is Err ==> final(vol).spec_generation() == old(vol).spec_generation(),
    {
        self.create_child(vol, name, 0o040755, BTRFS_FT_DIR, counter)
    }

    /// Remove the DIR_ITEM of `name` from this directory.  `NotFound` when
    /// there is none; `IoError` when the rebuilt leaf would not fit or the
    /// node write fails.
    pub fn unlink<D: BlockDevice>(&self, vol: &mut BtrfsVolume<D>, name: &str) -> (r: Result<(), FsError>)
        requires
            old(vol).wf(),
        ensures
            final(vol).wf(),
            r matches Err(e) ==> e == FsError::NotFound || e == FsError::IoError,
            r is Ok ==> final(vol).spec_generation() == (old(vol).spec_generation() + 1) % 0x1_0000_0000_0000_0000,
            r is Err ==> final(vol).spec_generation() == old(vol).spec_generation(),
    {
        let nodesize = vol.nodesize();
        let dir_item_key = BtrfsKey::new(self.btrfs_objectid, BTRFS_DIR_ITEM_KEY, btrfs_name_hash(name.as_bytes()));
        let result = match search_exact(&vol.disk, vol.partition_start_lba, &vol.chunk_map, nodesize,
            vol.fs_tree_root, vol.fs_tree_level, &dir_item_key) {
            Some(res) => res,
            None => return Err(FsError::NotFound),
        };
        if !crate::write::remaining_items_fit(result.leaf.as_slice(), nodesize, result.slot) {
            return Err(FsError::IoError);
        }
        let mut leaf = delete_item_from_leaf(result.leaf.as_slice(), nodesize, result.slot);
        let new_root = match vol.write_node(&mut leaf) {
            Some(r) => r,
            None => return Err(FsError::IoError),
        };
        vol.commit(new_root, 0);
        Ok(())
    }

    /// Nothing is cached, so there is nothing to flush.
    pub fn fsync(&self) -> (r: Result<(), FsError>)
        ensures
            r is Ok,
    {
        Ok(())
    }
}

/// Quick check for the Btrfs magic at a partition (see
/// `probe_btrfs_magic`).
pub fn btrfs_probe<D: BlockDevice>(disk: &D, partition_start_lba: u64) -> (b: bool)
    requires
        partition_start_lba + 128 <= u64::MAX,
    ensures
        b ==> crate::bytes::le64(sectors_of(disk.spec_contents(), partition_start_lba + 128, 1), 0x40)
            == crate::ondisk::BTRFS_MAGIC,
{
    probe_btrfs_magic(disk, partition_start_lba)
}

/// Mount a Btrfs filesystem: read the superblock, bootstrap the chunk map
/// from the system chunk array, load the chunk tree, find the FS tree root
/// and set up the allocator past the tree roots.  Returns the volume and its
/// root directory inode (numbered from `counter`).  `None` when any of these
/// steps fails, and for a superblock whose node size cannot hold a node
/// header or whose system chunk array size exceeds the array.
pub fn btrfs_mount<D: BlockDevice>(disk: D, partition_start_lba: u64, counter: &mut u64) -> (r: Option<(BtrfsVolume<D>, BtrfsInode)>)
    requires
        partition_start_lba + 128 <= u64::MAX,
    ensures
        r matches Some(p) ==> p.0.wf() && p.1.spec_objectid() == BTRFS_FIRST_FREE_OBJECTID
            && p.1.spec_inode_number() == *old(counter),
        r matches Some(p) ==> p.0.spec_partition_start() == partition_start_lba
            && p.0.spec_disk_contents() == disk.spec_contents()
            && p.0.spec_root_tree_from_superblock()
            && validation_outcome(sectors_of(disk.spec_contents(), partition_start_lba + 128, 8),
                Ok::<BtrfsSuperblock, SuperblockError>(p.0.spec_superblock()))
            && exists|leaf: Seq<u8>, slot: int, nritems: int, k: BtrfsKey|
                #![trigger item_data_range(leaf, slot), leaf_slot_for(leaf, nritems, k, slot)]
                tree_path(disk.spec_contents(), partition_start_lba, p.0.spec_chunks(), p.0.spec_nodesize(),
                    p.0.spec_superblock().root, p.0.spec_superblock().root_level as int, k, leaf)
                && key_le(BtrfsKey { objectid: BTRFS_FS_TREE_OBJECTID, item_type: BTRFS_ROOT_ITEM_KEY, offset: 0 }, k)
                && nritems == header_nritems(leaf) && leaf_slot_for(leaf, nritems, k, slot) && 0 <= slot < nritems
                && (item_data_range(leaf, slot) matches Some((ik, data))
                && data.len() >= 439
                && p.0.spec_fs_tree() == (le64(data, 176), data[238])
                && p.0.spec_generation() == le64(data, 160)),
{
    let sb = match read_superblock(&disk, partition_start_lba) {
        Ok(sb) => sb,
        Err(_) => return None,
    };
    let nodesize = sb.nodesize;
    if nodesize < 101 || sb.sys_chunk_array_size as usize > sb.sys_chunk_array.len() {
        return None;
    }
    let mut chunk_map = parse_sys_chunk_array(sb.sys_chunk_array.as_slice(), sb.sys_chunk_array_size);
    let chunk_root = sb.chunk_root;
    let chunk_root_level = sb.chunk_root_level;
    let bootstrap_map = chunk_map.duplicate();
    let disk_ref = &disk;
    let bootstrap = &bootstrap_map;
    let reader = |logical: u64| -> (r: Option<Vec<u8>>)
        requires
            bootstrap.wf(),
            101 <= nodesize,
        ensures
            r matches Some(v) ==> v@.len() == nodesize,
    {
        crate::btree::read_node(disk_ref, partition_start_lba, bootstrap, logical, nodesize)
    };
    load_chunk_tree(&mut chunk_map, chunk_root, chunk_root_level, nodesize, &reader);
    let root_tree_root = sb.root;
    let root_tree_level = sb.root_level;
    let fs_tree_key = BtrfsKey::new(BTRFS_FS_TREE_OBJECTID, BTRFS_ROOT_ITEM_KEY, 0);
    let fs_root_item = match search_first_ge(&disk, partition_start_lba, &chunk_map, nodesize, root_tree_root,
        root_tree_level, &fs_tree_key) {
        Some(res) => res,
        None => return None,
    };
    let root_item_data = match get_item_data(fs_root_item.leaf.as_slice(), fs_root_item.slot) {
        Some((_k, d)) => d,
        None => return None,
    };
    if root_item_data.len() < 439 {
        return None;
    }
    let root_item = BtrfsRootItem::from_bytes(root_item_data);
    let ghost item_leaf = fs_root_item.leaf@;
    let ghost item_slot = fs_root_item.slot as int;
    let mut used_ranges: Vec<(u64, u64)> = Vec::new();
    used_ranges.push((sb.chunk_root, nodesize as u64));
    used_ranges.push((sb.root, nodesize as u64));
    used_ranges.push((root_item.bytenr, nodesize as u64));
    if !crate::write::check_allocator_inputs(&chunk_map, used_ranges.as_slice()) {
        return None;
    }
    let allocator = ChunkAllocator::new(&chunk_map, used_ranges.as_slice());
    let volume = BtrfsVolume {
        disk,
        partition_start_lba,
        superblock: sb,
        chunk_map,
        generation: root_item.generation,
        root_tree_root,
        root_tree_level,
        fs_tree_root: root_item.bytenr,
        fs_tree_level: root_item.level,
        allocator,
    };
    let root = BtrfsInode::new(BTRFS_FIRST_FREE_OBJECTID, counter);
    assert(item_data_range(item_leaf, item_slot) is Some);
    Some((volume, root))
}

/// The label bytes up to the first zero (all of them when there is none).
pub open spec fn label_prefix(label: Seq<u8>) -> Seq<u8> {
    let i = first_zero(label, 0);
    label.subrange(0, i)
}

/// Index of the first zero byte from `i` on, or the length.
pub open spec fn first_zero(s: Seq<u8>, i: int) -> int
    decreases s.len() - i,
{
    if i >= s.len() || i < 0 {
        s.len() as int
    } else if s[i] == 0 {
        i
    } else {
        first_zero(s, i + 1)
    }
}

/// The label of a superblock label field: the bytes up to the first zero,
/// which must be UTF-8, trimmed of surrounding whitespace.
pub fn label_from_bytes(label: &[u8]) -> (r: Option<String>)
    ensures
        r is Some <==> vstd::utf8::valid_utf8(label_prefix(label@)),
        r matches Some(s) ==> exists|t: Seq<char>| vstd::utf8::encode_utf8(t) == label_prefix(label@)
            && s@ == crate::bytes::str_trimmed(t),
{
    let n = label.len();
    let mut end: usize = 0;
    while end < n && label[end] != 0
        invariant
            n == label@.len(),
            end <= n,
            first_zero(label@, end as int) == first_zero(label@, 0),
        decreases n - end,
    {
        end = end + 1;
    }
    let prefix = vstd::slice::slice_subrange(label, 0, end);
    match str_from_utf8(prefix) {
        Some(text) => {
            let t = crate::bytes::str_trim(text);
            Some(t.to_owned())
        },
        None => None,
    }
}

/// Read the filesystem label of the Btrfs volume at a partition.
pub fn btrfs_label<D: BlockDevice>(disk: &D, partition_start_lba: u64) -> (r: Option<String>)
    requires
        partition_start_lba + 128 <= u64::MAX,
    ensures
        r matches Some(s) ==> exists|label: Seq<u8>, t: Seq<char>|
            #![trigger label_prefix(label), vstd::utf8::encode_utf8(t)]
            label.len() == BTRFS_LABEL_SIZE && vstd::utf8::encode_utf8(t) == label_prefix(label)
                && s@ == crate::bytes::str_trimmed(t),
{
    let sb = match read_superblock(disk, partition_start_lba) {
        Ok(sb) => sb,
        Err(_) => return None,
    };
    let r = label_from_bytes(sb.label.as_slice());
    proof {
        if r is Some {
            let t = choose|t: Seq<char>| vstd::utf8::encode_utf8(t) == label_prefix(sb.label@)
                && r->Some_0@ == crate::bytes::str_trimmed(t);
            assert(sb.label@.len() == BTRFS_LABEL_SIZE);
            assert(vstd::utf8::encode_utf8(t) == label_prefix(sb.label@));
        }
    }
    r
}

} // verus!
