//! Btrfs read path: inodes, directory entries and file data.

use vstd::prelude::*;
use vstd::slice::slice_subrange;
use vstd::string::StringSliceAdditionalSpecFns;
use vstd::utf8::{encode_utf8, valid_utf8};
use crate::btree::{
    get_item_data, header_nritems, item_data_range, items_from, iter_items_from, leaf_items_fit, leaf_search_result,
    leaf_slot_for, pairs_view, physical_lba, search_exact, search_first_ge, tree_path,
};
use crate::bytes::{le16, le64, spliced, str_from_utf8, tail, vec_of_zeros, write_bytes_at};
use crate::chunk::{translate, ChunkMap, ChunkMapping};
use crate::disk::{sectors_of, BlockDevice};
use crate::ondisk::{
    btrfs_name_hash, key_le, BtrfsDirItem, BtrfsFileExtentItem, BtrfsInodeItem, BtrfsKey,
    BTRFS_DIR_INDEX_KEY, BTRFS_DIR_ITEM_KEY, BTRFS_EXTENT_DATA_KEY, BTRFS_FILE_EXTENT_INLINE,
    BTRFS_FILE_EXTENT_PREALLOC, BTRFS_FILE_EXTENT_REG, BTRFS_INODE_ITEM_KEY,
};

verus! {

/// A resolved directory entry (from lookup or readdir).
#[derive(Clone, Debug)]
pub struct BtrfsDirEntry {
    /// Name of the entry.
    pub name: String,
    /// Objectid of the child inode.
    pub objectid: u64,
    /// File type (BTRFS_FT_*).
    pub file_type: u8,
}

/// `e` is the entry with UTF-8 name bytes `name`, child `objectid` and
/// `file_type`.
pub open spec fn entry_is(e: BtrfsDirEntry, name: Seq<u8>, objectid: u64, file_type: u8) -> bool {
    encode_utf8(e.name@) == name && e.objectid == objectid && e.file_type == file_type
}

/// Name bytes of the dir item entry whose header starts at `off`.
pub open spec fn dir_name_at(data: Seq<u8>, off: int) -> Seq<u8> {
    let b = tail(data, off);
    data.subrange(off + 30, off + 30 + le16(b, 27))
}

/// The header and name of the dir item entry at `off` lie inside `data`.
pub open spec fn dir_entry_fits(data: Seq<u8>, off: int) -> bool {
    0 <= off && off + 30 <= data.len() && off + 30 + le16(tail(data, off), 27) <= data.len()
}

/// `r` is the entry parsed from the dir item entry at `off`: present exactly
/// when the entry fits and its name is valid UTF-8.
pub open spec fn parsed_dir_entry(data: Seq<u8>, off: int, r: Option<BtrfsDirEntry>) -> bool {
    if dir_entry_fits(data, off) && valid_utf8(dir_name_at(data, off)) {
        r matches Some(e) && entry_is(e, dir_name_at(data, off), le64(tail(data, off), 0), tail(data, off)[29])
    } else {
        r is None
    }
}

/// Build an entry from the dir item entry at `off` whose header and name fit.
fn dir_entry_from(data: &[u8], off: usize) -> (r: Option<BtrfsDirEntry>)
    requires
        dir_entry_fits(data@, off as int),
    ensures
        parsed_dir_entry(data@, off as int, r),
{
    let len = data.len();
    let dir_item = BtrfsDirItem::from_bytes(slice_subrange(data, off, len));
    let ghost b = tail(data@, off as int);
    proof {
        assert(b.subrange(0, b.len() as int) =~= b);
    }
    let name_start = off + 30;
    let name_end = name_start + dir_item.name_len as usize;
    let name_bytes = slice_subrange(data, name_start, name_end);
    match str_from_utf8(name_bytes) {
        Some(s) => {
            let name = s.to_owned();
            Some(BtrfsDirEntry { name, objectid: dir_item.location.objectid, file_type: dir_item.dir_type })
        },
        None => None,
    }
}

/// Parse a single dir item entry from raw item data.
pub fn parse_dir_item_entry(data: &[u8]) -> (r: Option<BtrfsDirEntry>)
    ensures
        parsed_dir_entry(data@, 0, r),
{
    if data.len() < 30 {
        return None;
    }
    let name_len = crate::bytes::read_u16_le(data, 27) as usize;
    proof {
        assert(tail(data@, 0) =~= data@);
    }
    if name_len > data.len() - 30 {
        return None;
    }
    dir_entry_from(data, 0)
}

/// Offset of the entry named `name` among the packed entries of a DIR_ITEM
/// from `off` on: entries are walked while their header and name fit.
pub open spec fn dir_walk(data: Seq<u8>, name: Seq<u8>, off: int) -> Option<int>
    decreases data.len() - off,
{
    if !dir_entry_fits(data, off) {
        None
    } else if dir_name_at(data, off) == name {
        Some(off)
    } else {
        let next = off + 30 + le16(tail(data, off), 27) + le16(tail(data, off), 25);
        if next <= data.len() {
            dir_walk(data, name, next)
        } else {
            None
        }
    }
}

/// Find the entry called `name` among the packed entries of a DIR_ITEM
/// (several names may share a hash).
pub fn find_dir_entry(data: &[u8], name: &[u8]) -> (r: Option<BtrfsDirEntry>)
    ensures
        match dir_walk(data@, name@, 0) {
            None => r is None,
            Some(off) => parsed_dir_entry(data@, off, r),
        },
{
    let len = data.len();
    let mut offset: usize = 0;
    while offset <= len && len - offset >= 30
        invariant
            len == data@.len(),
            dir_walk(data@, name@, offset as int) == dir_walk(data@, name@, 0),
        decreases len - offset,
    {
        let b = slice_subrange(data, offset, len);
        let name_len = crate::bytes::read_u16_le(b, 27) as usize;
        let data_len = crate::bytes::read_u16_le(b, 25) as usize;
        let name_start = offset + 30;
        if name_len > len - name_start {
            return None;
        }
        let name_end = name_start + name_len;
        let entry_name = slice_subrange(data, name_start, name_end);
        if bytes_equal(entry_name, name) {
            return dir_entry_from(data, offset);
        }
        if data_len > len - name_end {
            proof {
                let next = offset + 30 + name_len + data_len;
                assert(!dir_entry_fits(data@, next));
            }
            return None;
        }
        offset = name_end + data_len;
    }
    None
}

/// Byte-wise equality of two slices.
pub fn bytes_equal(a: &[u8], b: &[u8]) -> (eq: bool)
    ensures
        eq == (a@ == b@),
{
    if a.len() != b.len() {
        return false;
    }
    let n = a.len();
    let mut i: usize = 0;
    while i < n
        invariant
            n == a@.len(),
            n == b@.len(),
            i <= n,
            forall|k: int| 0 <= k < i ==> a@[k] == b@[k],
        decreases n - i,
    {
        if a[i] != b[i] {
            return false;
        }
        i = i + 1;
    }
    assert(a@ =~= b@);
    true
}

/// The inode item stored at `slot` of a leaf: present when the item's data
/// lies inside the leaf and holds a whole inode item.
pub fn inode_at(leaf: &[u8], slot: usize) -> (r: Option<BtrfsInodeItem>)
    requires
        leaf_items_fit(leaf@, slot + 1),
    ensures
        match item_data_range(leaf@, slot as int) {
            Some(p) => if p.1.len() >= 160 {
                r matches Some(i) && i.parsed_from(p.1)
            } else {
                r is None
            },
            None => r is None,
        },
{
    match get_item_data(leaf, slot) {
        Some((_k, data)) => {
            if data.len() < 160 {
                None
            } else {
                Some(BtrfsInodeItem::from_bytes(data))
            }
        },
        None => None,
    }
}

/// Read the inode item of `objectid` from the FS tree.
pub fn read_inode<D: BlockDevice>(
    disk: &D,
    partition_start_lba: u64,
    chunk_map: &ChunkMap,
    nodesize: u32,
    fs_root_logical: u64,
    fs_root_level: u8,
    objectid: u64,
) -> (r: Option<BtrfsInodeItem>)
    requires
        chunk_map.wf(),
        101 <= nodesize,
    ensures
        r matches Some(i) ==> exists|leaf: Seq<u8>, slot: int, d: Seq<u8>| #![trigger item_data_range(leaf, slot), i.parsed_from(d)] {
            &&& tree_path(disk.spec_contents(), partition_start_lba, chunk_map@, nodesize, fs_root_logical, fs_root_level as int,
                BtrfsKey { objectid, item_type: BTRFS_INODE_ITEM_KEY, offset: 0 }, leaf)
            &&& item_data_range(leaf, slot) == Some((BtrfsKey { objectid, item_type: BTRFS_INODE_ITEM_KEY, offset: 0 }, d))
            &&& d.len() >= 160 && i.parsed_from(d)
        },
{
    let key = BtrfsKey::new(objectid, BTRFS_INODE_ITEM_KEY, 0);
    match search_exact(disk, partition_start_lba, chunk_map, nodesize, fs_root_logical, fs_root_level, &key) {
        Some(result) => {
            let r = inode_at(result.leaf.as_slice(), result.slot);
            proof {
                if r is Some {
                    let p = item_data_range(result.leaf@, result.slot as int)->0;
                    assert(p.1.len() >= 160);
                }
            }
            r
        },
        None => None,
    }
}

/// Look up `name` in directory `dir_objectid` through its DIR_ITEM (keyed
/// by the name's hash).
pub fn lookup_dir<D: BlockDevice>(
    disk: &D,
    partition_start_lba: u64,
    chunk_map: &ChunkMap,
    nodesize: u32,
    fs_root_logical: u64,
    fs_root_level: u8,
    dir_objectid: u64,
    name: &str,
) -> (r: Option<BtrfsDirEntry>)
    requires
        chunk_map.wf(),
        101 <= nodesize,
    ensures
        r matches Some(e) ==> encode_utf8(e.name@) == name.spec_bytes(),
        r is Some ==> exists|leaf: Seq<u8>, slot: int, data: Seq<u8>| #![trigger item_data_range(leaf, slot), dir_walk(data, name.spec_bytes(), 0)] {
            &&& item_data_range(leaf, slot) == Some((BtrfsKey {
                objectid: dir_objectid,
                item_type: BTRFS_DIR_ITEM_KEY,
                offset: crate::crc32c::spec_crc32c(0xFFFF_FFFFu32, name.spec_bytes()) as u64,
            }, data))
            &&& tree_path(disk.spec_contents(), partition_start_lba, chunk_map@, nodesize, fs_root_logical, fs_root_level as int,
                BtrfsKey {
                    objectid: dir_objectid,
                    item_type: BTRFS_DIR_ITEM_KEY,
                    offset: crate::crc32c::spec_crc32c(0xFFFF_FFFFu32, name.spec_bytes()) as u64,
                }, leaf)
            &&& dir_walk(data, name.spec_bytes(), 0) matches Some(off) && parsed_dir_entry(data, off, r)
        },
{
    let name_bytes = name.as_bytes();
    let name_hash = btrfs_name_hash(name_bytes);
    let key = BtrfsKey::new(dir_objectid, BTRFS_DIR_ITEM_KEY, name_hash);
    let result = match search_exact(disk, partition_start_lba, chunk_map, nodesize, fs_root_logical, fs_root_level, &key) {
        Some(res) => res,
        None => return None,
    };
    match get_item_data(result.leaf.as_slice(), result.slot) {
        Some((_k, data)) => {
            let r = find_dir_entry(data, name_bytes);
            proof {
                if r is Some {
                    let off = dir_walk(data@, name_bytes@, 0)->0;
                    lemma_dir_walk_found(data@, name_bytes@, 0);
                    assert(item_data_range(result.leaf@, result.slot as int) == Some((key, data@)));
                }
            }
            r
        },
        None => None,
    }
}

proof fn lemma_dir_walk_found(data: Seq<u8>, name: Seq<u8>, off: int)
    ensures
        dir_walk(data, name, off) matches Some(o) ==> dir_entry_fits(data, o) && dir_name_at(data, o) == name,
    decreases data.len() - off,
{
    if dir_entry_fits(data, off) && dir_name_at(data, off) != name {
        let next = off + 30 + le16(tail(data, off), 27) + le16(tail(data, off), 25);
        if next <= data.len() {
            lemma_dir_walk_found(data, name, next);
        }
    }
}

/// Number of leading items, from `i` on, that are DIR_INDEX items of
/// directory `dir`.
pub open spec fn dir_index_run(items: Seq<(BtrfsKey, Seq<u8>)>, dir: u64, i: int) -> nat
    decreases items.len() - i,
{
    if i < 0 || i >= items.len() || items[i].0.objectid != dir || items[i].0.item_type != BTRFS_DIR_INDEX_KEY {
        0
    } else {
        1 + dir_index_run(items, dir, i + 1)
    }
}

/// The `index`-th entry of a run of DIR_INDEX items of directory `dir` at
/// the start of `items`: `None` when the run is shorter.
pub fn dir_index_entry(items: &[(BtrfsKey, &[u8])], dir_objectid: u64, index: usize) -> (r: Option<BtrfsDirEntry>)
    ensures
        if index < dir_index_run(pairs_view(items@), dir_objectid, 0) {
            parsed_dir_entry(pairs_view(items@)[index as int].1, 0, r)
        } else {
            r is None
        },
{
    let ghost pv = pairs_view(items@);
    let n = items.len();
    let mut count: usize = 0;
    while count < n
        invariant
            n == items@.len(),
            pv == pairs_view(items@),
            count <= n,
            count <= index,
            dir_index_run(pv, dir_objectid, 0) == count + dir_index_run(pv, dir_objectid, count as int),
        decreases n - count,
    {
        let (key, data) = items[count];
        assert(pv[count as int] == (key, data@));
        if key.objectid != dir_objectid || key.item_type != BTRFS_DIR_INDEX_KEY {
            return None;
        }
        if count == index {
            let r = parse_dir_item_entry(data);
            assert(pv[index as int].1 == data@);
            assert(dir_index_run(pv, dir_objectid, count as int)
                == 1 + dir_index_run(pv, dir_objectid, count + 1));
            return r;
        }
        count = count + 1;
    }
    None
}

/// Read the `index`-th (0-based) entry of directory `dir_objectid`, in
/// DIR_INDEX order, from the leaf holding its first DIR_INDEX item.
pub fn readdir_index<D: BlockDevice>(
    disk: &D,
    partition_start_lba: u64,
    chunk_map: &ChunkMap,
    nodesize: u32,
    fs_root_logical: u64,
    fs_root_level: u8,
    dir_objectid: u64,
    index: usize,
) -> (r: Option<BtrfsDirEntry>)
    requires
        chunk_map.wf(),
        101 <= nodesize,
    ensures
        r is Some ==> exists|leaf: Seq<u8>, slot: int, nritems: int, k: BtrfsKey|
            #![trigger items_from(leaf, slot, nritems), leaf_slot_for(leaf, nritems, k, slot)]
        {
            let items = items_from(leaf, slot, nritems);
            &&& leaf.len() == nodesize && 0 <= slot < nritems
            &&& key_le(BtrfsKey { objectid: dir_objectid, item_type: BTRFS_DIR_INDEX_KEY, offset: 0 }, k)
            &&& tree_path(disk.spec_contents(), partition_start_lba, chunk_map@, nodesize, fs_root_logical, fs_root_level as int, k, leaf)
            &&& nritems == header_nritems(leaf) && leaf_slot_for(leaf, nritems, k, slot)
            &&& index < dir_index_run(items, dir_objectid, 0)
            &&& parsed_dir_entry(items[index as int].1, 0, r)
        },
{
    let search_key = BtrfsKey::new(dir_objectid, BTRFS_DIR_INDEX_KEY, 0);
    let result = match search_first_ge(disk, partition_start_lba, chunk_map, nodesize, fs_root_logical, fs_root_level, &search_key) {
        Some(res) => res,
        None => return None,
    };
    let items = iter_items_from(result.leaf.as_slice(), result.slot, result.nritems);
    let r = dir_index_entry(items.as_slice(), dir_objectid, index);
    proof {
        if r is Some {
            assert(parsed_dir_entry(pairs_view(items@)[index as int].1, 0, r));
            assert(items_from(result.leaf@, result.slot as int, result.nritems as int) == pairs_view(items@));
        }
    }
    r
}

/// What one EXTENT_DATA item contributes to a file read.
#[derive(Clone, Copy, Debug, PartialEq, Eq, Structural)]
pub enum ExtentCopy {
    /// Stop reading: the item belongs to another object or type, or the
    /// buffer is full.
    Stop,
    /// The item contributes nothing.
    Skip,
    /// Copy `len` bytes of the item's inline data from offset `src` to the
    /// buffer at `dst`.
    Inline { src: usize, dst: usize, len: usize },
    /// A hole: zero the buffer bytes `[dst, dst_end)`.
    Zero { dst: usize, dst_end: usize },
    /// Read `len` bytes at logical address `logical` and copy them (as many
    /// as fit) to the buffer at `dst`.
    Disk { logical: u64, len: usize, dst: usize },
}

/// `max(a - b, 0)`.
pub open spec fn pos_diff(a: int, b: int) -> int {
    if a > b { a - b } else { 0 }
}

/// The contribution of the EXTENT_DATA item `(key, data)` to a read of
/// `buf_len` bytes at `file_offset` of object `fid`, after `bytes_read` bytes.
/// An extent whose end or disk address would pass 2^64 contributes nothing.
pub open spec fn extent_plan(key: BtrfsKey, data: Seq<u8>, fid: u64, file_offset: u64, buf_len: int, bytes_read: int) -> ExtentCopy {
    let ext = key.offset as int;
    let fo = file_offset as int;
    let end = fo + buf_len;
    if key.objectid != fid || key.item_type != BTRFS_EXTENT_DATA_KEY || bytes_read >= buf_len {
        ExtentCopy::Stop
    } else if data.len() < 21 {
        ExtentCopy::Skip
    } else if data[20] == BTRFS_FILE_EXTENT_INLINE {
        let ilen = data.len() - 21;
        if ext + ilen > u64::MAX || fo >= ext + ilen || end <= ext {
            ExtentCopy::Skip
        } else {
            let src = pos_diff(fo, ext);
            let dst = pos_diff(ext, fo);
            let len = if ilen - src < buf_len - dst { ilen - src } else { buf_len - dst };
            if len > 0 {
                ExtentCopy::Inline { src: src as usize, dst: dst as usize, len: len as usize }
            } else {
                ExtentCopy::Skip
            }
        }
    } else if (data[20] == BTRFS_FILE_EXTENT_REG || data[20] == BTRFS_FILE_EXTENT_PREALLOC) {
        let big = data.len() >= 53;
        let disk_bytenr = if big { le64(data, 21) as int } else { 0 };
        let disk_off = if big { le64(data, 37) as int } else { 0 };
        let nb = if big { le64(data, 45) as int } else { 0 };
        let ext_end = ext + nb;
        if ext_end > u64::MAX {
            ExtentCopy::Skip
        } else if disk_bytenr == 0 {
            if fo < ext_end && end > ext {
                let dst_end = if ext_end - fo < buf_len { ext_end - fo } else { buf_len };
                ExtentCopy::Zero { dst: pos_diff(ext, fo) as usize, dst_end: dst_end as usize }
            } else {
                ExtentCopy::Skip
            }
        } else if fo >= ext_end || end <= ext {
            ExtentCopy::Skip
        } else {
            let rs = pos_diff(fo, ext);
            let re = if end < ext_end { end - ext } else { nb };
            let logical = disk_bytenr + disk_off + rs;
            if logical > u64::MAX {
                ExtentCopy::Skip
            } else {
                let dst = if fo >= ext { bytes_read } else { ext - fo };
                ExtentCopy::Disk { logical: logical as u64, len: (re - rs) as usize, dst: dst as usize }
            }
        }
    } else {
        ExtentCopy::Skip
    }
}

/// Decide what the EXTENT_DATA item `(key, data)` contributes to a read of
/// `buf_len` bytes at `file_offset` of object `file_objectid`, after
/// `bytes_read` bytes were read.
pub fn plan_extent(
    key: &BtrfsKey,
    data: &[u8],
    file_objectid: u64,
    file_offset: u64,
    buf_len: usize,
    bytes_read: usize,
) -> (p: ExtentCopy)
    requires
        file_offset + buf_len <= u64::MAX,
    ensures
        p == extent_plan(*key, data@, file_objectid, file_offset, buf_len as int, bytes_read as int),
        p matches ExtentCopy::Inline { src, dst, len } ==> 21 + src + len <= data@.len() && dst + len <= buf_len,
        p matches ExtentCopy::Zero { dst, dst_end } ==> dst <= dst_end <= buf_len,
        p matches ExtentCopy::Disk { logical, len, dst } ==> len <= buf_len && dst <= buf_len,
{
    if key.objectid != file_objectid || key.item_type != BTRFS_EXTENT_DATA_KEY || bytes_read >= buf_len {
        return ExtentCopy::Stop;
    }
    if data.len() < 21 {
        return ExtentCopy::Skip;
    }
    let extent = BtrfsFileExtentItem::from_bytes(data);
    let ext = key.offset;
    let fo = file_offset;
    let end_offset = file_offset + buf_len as u64;
    if extent.extent_type == BTRFS_FILE_EXTENT_INLINE {
        let ilen = data.len() - 21;
        if ilen as u64 > u64::MAX - ext {
            return ExtentCopy::Skip;
        }
        let extent_end = ext + ilen as u64;
        if fo >= extent_end || end_offset <= ext {
            return ExtentCopy::Skip;
        }
        let src: usize = if fo > ext { (fo - ext) as usize } else { 0 };
        let dst: usize = if ext > fo { (ext - fo) as usize } else { 0 };
        let a = ilen - src;
        let b = buf_len - dst;
        let len = if a < b { a } else { b };
        if len > 0 {
            return ExtentCopy::Inline { src, dst, len };
        }
        return ExtentCopy::Skip;
    }
    if extent.extent_type == BTRFS_FILE_EXTENT_REG || extent.extent_type == BTRFS_FILE_EXTENT_PREALLOC {
        let nb = extent.num_bytes;
        if nb > u64::MAX - ext {
            return ExtentCopy::Skip;
        }
        let extent_end = ext + nb;
        if extent.disk_bytenr == 0 {
            if fo < extent_end && end_offset > ext {
                let dst: usize = if ext > fo { (ext - fo) as usize } else { 0 };
                let dst_end: usize = if extent_end - fo < buf_len as u64 { (extent_end - fo) as usize } else { buf_len };
                return ExtentCopy::Zero { dst, dst_end };
            }
            return ExtentCopy::Skip;
        }
        if fo >= extent_end || end_offset <= ext {
            return ExtentCopy::Skip;
        }
        let rs: u64 = if fo > ext { fo - ext } else { 0 };
        let re: u64 = if end_offset < extent_end { end_offset - ext } else { nb };
        if extent.offset > u64::MAX - extent.disk_bytenr || rs > u64::MAX - extent.disk_bytenr - extent.offset {
            return ExtentCopy::Skip;
        }
        let logical = extent.disk_bytenr + extent.offset + rs;
        let dst: usize = if fo >= ext { bytes_read } else { (ext - fo) as usize };
        return ExtentCopy::Disk { logical, len: (re - rs) as usize, dst };
    }
    ExtentCopy::Skip
}

/// `buf` with the bytes `[a, b)` set to zero.
pub open spec fn zeroed_range(buf: Seq<u8>, a: int, b: int) -> Seq<u8> {
    Seq::new(buf.len(), |k: int| if a <= k < b { 0u8 } else { buf[k] })
}

/// The `len` bytes the device holds from physical byte `physical` of the
/// filesystem on the partition starting at `start`.
pub open spec fn extent_bytes(contents: Seq<u8>, start: u64, physical: u64, len: int) -> Seq<u8> {
    let at = physical_lba(start, physical) * 512 + physical % 512;
    contents.subrange(at, at + len)
}

/// The bytes a data extent's plan copies from: none for an unmapped
/// address, a failed read (`got` is `None`) or any other plan; else the
/// bytes the device holds at the extent's mapped address.
pub open spec fn read_for(p: ExtentCopy, chunks: Seq<ChunkMapping>, contents: Seq<u8>, start: u64, got: Option<Seq<u8>>) -> Option<Seq<u8>> {
    match p {
        ExtentCopy::Disk { logical, len, dst } => match translate(chunks, logical) {
            None => None,
            Some(physical) => if got is Some { Some(extent_bytes(contents, start, physical, len as int)) } else { None },
        },
        _ => None,
    }
}

/// What applying plan `p` of an item with data `data` does to the buffer
/// and to the end of the furthest byte written `n`: inline bytes copied,
/// a hole zeroed, the bytes read for a data extent copied (as many as fit;
/// nothing when there was no read).
pub open spec fn extent_effect(p: ExtentCopy, data: Seq<u8>, buf: Seq<u8>, n: int, read: Option<Seq<u8>>) -> (Seq<u8>, int) {
    match p {
        ExtentCopy::Inline { src, dst, len } =>
            (spliced(buf, dst as int, data.subrange(21 + src, 21 + src + len)), if dst + len > n { dst + len } else { n }),
        ExtentCopy::Zero { dst, dst_end } =>
            (zeroed_range(buf, dst as int, dst_end as int), if dst_end > n { dst_end as int } else { n }),
        ExtentCopy::Disk { logical, len, dst } => match read {
            Some(r) => {
                let c: int = if len < buf.len() - dst { len as int } else { buf.len() - dst };
                if c > 0 {
                    (spliced(buf, dst as int, Seq::new(c as nat, |k: int| r[k])), if dst + c > n { dst + c } else { n })
                } else {
                    (buf, n)
                }
            },
            None => (buf, n),
        },
        _ => (buf, n),
    }
}

/// The buffer, the end of the furthest byte written, and whether reading
/// stopped, after the first `k` items are applied in order to `buf0`, each
/// as `extent_plan` decides, `reads[j]` being what the device gave for
/// item `j`.
pub open spec fn apply_extents(
    items: Seq<(BtrfsKey, Seq<u8>)>,
    reads: Seq<Option<Seq<u8>>>,
    chunks: Seq<ChunkMapping>,
    contents: Seq<u8>,
    start: u64,
    fid: u64,
    fo: u64,
    buf0: Seq<u8>,
    k: int,
) -> (Seq<u8>, int, bool)
    decreases k,
{
    if k <= 0 {
        (buf0, 0, false)
    } else {
        let prev = apply_extents(items, reads, chunks, contents, start, fid, fo, buf0, k - 1);
        if prev.2 {
            prev
        } else {
            let it = items[k - 1];
            let p = extent_plan(it.0, it.1, fid, fo, prev.0.len() as int, prev.1);
            if p is Stop {
                (prev.0, prev.1, true)
            } else {
                let e = extent_effect(p, it.1, prev.0, prev.1, read_for(p, chunks, contents, start, reads[k - 1]));
                (e.0, e.1, false)
            }
        }
    }
}

/// `apply_extents` reads only the first `k` reads.
proof fn lemma_apply_extents_prefix(
    items: Seq<(BtrfsKey, Seq<u8>)>,
    r1: Seq<Option<Seq<u8>>>,
    r2: Seq<Option<Seq<u8>>>,
    chunks: Seq<ChunkMapping>,
    contents: Seq<u8>,
    start: u64,
    fid: u64,
    fo: u64,
    buf0: Seq<u8>,
    k: int,
)
    requires
        forall|j: int| 0 <= j < k ==> r1[j] == r2[j],
    ensures
        apply_extents(items, r1, chunks, contents, start, fid, fo, buf0, k) == apply_extents(items, r2, chunks, contents, start, fid, fo, buf0, k),
    decreases k,
{
    if k > 0 {
        lemma_apply_extents_prefix(items, r1, r2, chunks, contents, start, fid, fo, buf0, k - 1);
    }
}

/// Once reading stopped, later items change nothing.
proof fn lemma_apply_extents_stopped(
    items: Seq<(BtrfsKey, Seq<u8>)>,
    reads: Seq<Option<Seq<u8>>>,
    chunks: Seq<ChunkMapping>,
    contents: Seq<u8>,
    start: u64,
    fid: u64,
    fo: u64,
    buf0: Seq<u8>,
    j: int,
    k: int,
)
    requires
        0 <= j <= k,
        apply_extents(items, reads, chunks, contents, start, fid, fo, buf0, j).2,
    ensures
        apply_extents(items, reads, chunks, contents, start, fid, fo, buf0, k) == apply_extents(items, reads, chunks, contents, start, fid, fo, buf0, j),
    decreases k - j,
{
    if j < k {
        lemma_apply_extents_stopped(items, reads, chunks, contents, start, fid, fo, buf0, j, k - 1);
    }
}

/// The device request for a data extent of `len` bytes at physical
/// address `physical` of the partition starting at sector `start`: the
/// sector holding its first byte, the number of sectors that cover it, and
/// where in the first sector it begins.
pub fn extent_read_request(start: u64, physical: u64, len: usize) -> (r: (u64, usize, usize))
    requires
        len + 1024 <= usize::MAX,
    ensures
        r.0 == physical_lba(start, physical),
        r.2 == physical % 512,
        r.1 == (r.2 + len + 511) / 512,
{
    let sector = start.wrapping_add(physical / 512);
    let sector_offset = (physical % 512) as usize;
    (sector, (sector_offset + len + 511) / 512, sector_offset)
}

/// Reading a file whose only extent is inline at file offset 0, holding
/// `d`, copies `d` from the requested offset on: as many bytes as the
/// buffer holds or `d` has left, to the front of the buffer, and reports
/// that many; a read at or past the end of `d` reads nothing.  Bytes of
/// the buffer past those are left alone.
pub proof fn lemma_inline_file_read(fid: u64, fo: u64, d: Seq<u8>, hdr: Seq<u8>, before: Seq<u8>,
    reads: Seq<Option<Seq<u8>>>, chunks: Seq<ChunkMapping>, contents: Seq<u8>, start: u64)
    requires
        hdr.len() == 21,
        hdr[20] == 0,
        d.len() + 21 <= usize::MAX,
        before.len() > 0,
        fo + before.len() <= u64::MAX,
    ensures
        ({
            let items = seq![(BtrfsKey { objectid: fid, item_type: 108, offset: 0 }, hdr + d)];
            let (after, n, _) = apply_extents(items, reads, chunks, contents, start, fid, fo, before, 1);
            let m: int = if fo >= d.len() { 0 } else if d.len() - fo < before.len() { d.len() - fo } else { before.len() as int };
            &&& n == m
            &&& after.len() == before.len()
            &&& forall|j: int| 0 <= j < m ==> #[trigger] after[j] == d[fo + j]
            &&& forall|j: int| m <= j < before.len() ==> #[trigger] after[j] == before[j]
        }),
{
    let data = hdr + d;
    let key = BtrfsKey { objectid: fid, item_type: 108, offset: 0 };
    let items = seq![(key, data)];
    assert(data[20] == 0);
    assert(data.len() - 21 == d.len());
    let m: int = if fo >= d.len() { 0 } else if d.len() - fo < before.len() { d.len() - fo } else { before.len() as int };
    let p = extent_plan(key, data, fid, fo, before.len() as int, 0);
    assert(apply_extents(items, reads, chunks, contents, start, fid, fo, before, 0) == (before, 0int, false));
    if fo < d.len() {
        assert(p == ExtentCopy::Inline { src: fo as usize, dst: 0, len: m as usize });
        let src = data.subrange(21 + fo, 21 + fo + m);
        assert(src =~= d.subrange(fo as int, fo + m));
        let after = spliced(before, 0, src);
        assert(extent_effect(p, data, before, 0, read_for(p, chunks, contents, start, reads[0])) == (after, m));
        assert(apply_extents(items, reads, chunks, contents, start, fid, fo, before, 1) == (after, m, false));
        assert(after.len() == before.len());
        assert forall|j: int| 0 <= j < m implies #[trigger] after[j] == d[fo + j] by {
            assert(after[j] == src[j]);
        }
        assert forall|j: int| m <= j < before.len() implies #[trigger] after[j] == before[j] by {
            assert(after[j] == before.subrange(m, before.len() as int)[j - m]);
        }
    } else {
        assert(p is Skip);
        assert(apply_extents(items, reads, chunks, contents, start, fid, fo, before, 1) == (before, 0int, false));
    }
}

/// `after` and `n` are what applying `items` in order to `before` gives,
/// as `apply_extents` says, where each data extent copies the device's
/// bytes at its mapped address unless its read failed.
pub open spec fn extents_read_outcome(
    items: Seq<(BtrfsKey, Seq<u8>)>,
    chunks: Seq<ChunkMapping>,
    contents: Seq<u8>,
    start: u64,
    fid: u64,
    fo: u64,
    before: Seq<u8>,
    after: Seq<u8>,
    n: int,
) -> bool {
    exists|reads: Seq<Option<Seq<u8>>>| {
        &&& after == (#[trigger] apply_extents(items, reads, chunks, contents, start, fid, fo, before, items.len() as int)).0
        &&& n == apply_extents(items, reads, chunks, contents, start, fid, fo, before, items.len() as int).1
    }
}

/// `after` and `n` are what reading file `fid` at `fo` into `before` gives
/// on the device holding `contents` (partition at `start`): either the
/// search of the FS tree (`root`, `level`) for `(fid, EXTENT_DATA, 0)`
/// failed and nothing is read, or it found `leaf` and `slot` (the slot of
/// the first key not below the one searched; a search that goes on to the
/// next leaf searches for a greater key) and the items of that leaf from
/// that slot on are applied as `extents_read_outcome` says.
pub open spec fn file_read_outcome(
    nodesize: u32,
    contents: Seq<u8>,
    start: u64,
    chunks: Seq<ChunkMapping>,
    root: u64,
    level: u8,
    fid: u64,
    fo: u64,
    before: Seq<u8>,
    after: Seq<u8>,
    n: int,
) -> bool {
    ||| after == before && n == 0
    ||| exists|leaf: Seq<u8>, slot: int, nritems: int, k: BtrfsKey|
            #![trigger items_from(leaf, slot, nritems), tree_path(contents, start, chunks, nodesize, root, level as int, k, leaf)]
            leaf.len() == nodesize && 0 <= slot < nritems
            && key_le(BtrfsKey { objectid: fid, item_type: BTRFS_EXTENT_DATA_KEY, offset: 0 }, k)
            && tree_path(contents, start, chunks, nodesize, root, level as int, k, leaf)
            && nritems == header_nritems(leaf) && leaf_slot_for(leaf, nritems, k, slot)
            && extents_read_outcome(items_from(leaf, slot, nritems), chunks, contents, start, fid, fo, before, after, n)
}

/// Read up to `buf.len()` bytes of file `file_objectid` starting at
/// `file_offset`, from the EXTENT_DATA items of the leaf holding its first
/// one.  Each item is applied as `plan_extent` decides; a data extent whose
/// address is not mapped or whose read fails is left out.  Returns the end
/// of the furthest byte written.
pub fn read_file<D: BlockDevice>(
    disk: &D,
    partition_start_lba: u64,
    chunk_map: &ChunkMap,
    nodesize: u32,
    fs_root_logical: u64,
    fs_root_level: u8,
    file_objectid: u64,
    file_offset: u64,
    buf: &mut [u8],
) -> (n: usize)
    requires
        chunk_map.wf(),
        101 <= nodesize,
        file_offset + old(buf)@.len() <= u64::MAX,
        old(buf)@.len() + 1024 <= usize::MAX,
    ensures
        n <= old(buf)@.len(),
        final(buf)@.len() == old(buf)@.len(),
        old(buf)@.len() == 0 ==> n == 0 && final(buf)@ == old(buf)@,
        file_read_outcome(nodesize, disk.spec_contents(), partition_start_lba, chunk_map@, fs_root_logical, fs_root_level,
            file_objectid, file_offset, old(buf)@, final(buf)@, n as int),
{
    if buf.len() == 0 {
        return 0;
    }
    let search_key = BtrfsKey::new(file_objectid, BTRFS_EXTENT_DATA_KEY, 0);
    match search_first_ge(disk, partition_start_lba, chunk_map, nodesize, fs_root_logical, fs_root_level, &search_key) {
        Some(r) => {
            read_extents_from(disk, partition_start_lba, chunk_map, r.leaf.as_slice(), r.slot, r.nritems,
                file_objectid, file_offset, buf)
        },
        None => 0,
    }
}

/// Apply the items of `leaf` from `slot` to `nritems` (what a search for
/// the first EXTENT_DATA item of file `file_objectid` found) to `buf`:
/// each as `plan_extent` decides, a data extent being read from the device
/// at its mapped address (left out when unmapped or when the read fails).
/// Returns the end of the furthest byte written.
pub fn read_extents_from<D: BlockDevice>(
    disk: &D,
    partition_start_lba: u64,
    chunk_map: &ChunkMap,
    leaf: &[u8],
    slot: usize,
    nritems: usize,
    file_objectid: u64,
    file_offset: u64,
    buf: &mut [u8],
) -> (n: usize)
    requires
        chunk_map.wf(),
        slot < nritems ==> leaf_items_fit(leaf@, nritems as int),
        file_offset + old(buf)@.len() <= u64::MAX,
        old(buf)@.len() + 1024 <= usize::MAX,
    ensures
        n <= old(buf)@.len(),
        final(buf)@.len() == old(buf)@.len(),
        extents_read_outcome(items_from(leaf@, slot as int, nritems as int), chunk_map@, disk.spec_contents(),
            partition_start_lba, file_objectid, file_offset, old(buf)@, final(buf)@, n as int),
{
    let buf_len = buf.len();
    let items = iter_items_from(leaf, slot, nritems);
    let ghost iv = pairs_view(items@);
    let ghost fid = file_objectid;
    let ghost fo = file_offset;
    let ghost cm = chunk_map@;
    let ghost contents = disk.spec_contents();
    let ghost plba = partition_start_lba;
    let ghost buf0 = old(buf)@;
    let ghost mut reads: Seq<Option<Seq<u8>>> = Seq::empty();
    let n_items = items.len();
    let mut bytes_read: usize = 0;
    let mut i: usize = 0;
    let mut stopped = false;
    while i < n_items && !stopped
        invariant
            n_items == items@.len(),
            iv == pairs_view(items@),
            iv == items_from(leaf@, slot as int, nritems as int),
            buf@.len() == buf_len,
            buf_len == old(buf)@.len(),
            file_offset + buf_len <= u64::MAX,
            chunk_map.wf(),
            cm == chunk_map@,
            contents == disk.spec_contents(),
            plba == partition_start_lba,
            bytes_read <= buf_len,
            buf_len + 1024 <= usize::MAX,
            i <= n_items,
            reads.len() == i,
            !stopped ==> apply_extents(iv, reads, cm, contents, plba, fid, fo, buf0, i as int) == (buf@, bytes_read as int, false),
            stopped ==> apply_extents(iv, reads, cm, contents, plba, fid, fo, buf0, i as int) == (buf@, bytes_read as int, true),
            fid == file_objectid && fo == file_offset && buf0 == old(buf)@,
        decreases n_items - i,
    {
        let (key, data) = items[i];
        let _dlen = data.len();
        let ghost prev_buf = buf@;
        let ghost prev_n = bytes_read as int;
        assert(iv[i as int] == (key, data@));
        let plan = plan_extent(&key, data, file_objectid, file_offset, buf_len, bytes_read);
        let ghost mut got: Option<Seq<u8>> = None;
        match plan {
            ExtentCopy::Stop => {
                stopped = true;
            },
            ExtentCopy::Skip => {},
            ExtentCopy::Inline { src, dst, len } => {
                write_bytes_at(buf, dst, slice_subrange(data, 21 + src, 21 + src + len));
                if dst + len > bytes_read {
                    bytes_read = dst + len;
                }
            },
            ExtentCopy::Zero { dst, dst_end } => {
                let mut k = dst;
                while k < dst_end
                    invariant
                        dst <= k <= dst_end,
                        dst_end <= buf_len,
                        buf@.len() == buf_len,
                        prev_buf.len() == buf_len,
                        forall|j: int| 0 <= j < buf_len ==> #[trigger] buf@[j] == (if dst <= j < k { 0u8 } else { prev_buf[j] }),
                    decreases dst_end - k,
                {
                    buf[k] = 0;
                    k = k + 1;
                }
                assert(buf@ =~= zeroed_range(prev_buf, dst as int, dst_end as int));
                if dst_end > bytes_read {
                    bytes_read = dst_end;
                }
            },
            ExtentCopy::Disk { logical, len, dst } => {
                match chunk_map.logical_to_physical(logical) {
                    None => {},
                    Some(physical) => {
                        let (sector, sectors_needed, sector_offset) = extent_read_request(partition_start_lba, physical, len);
                        let mut sector_buf = vec_of_zeros(sectors_needed * 512);
                        if sectors_needed <= 0xFFFF_FFFFusize
                            && disk.read_sectors(sector, sectors_needed as u32, sector_buf.as_mut_slice()) {
                            let room = buf_len - dst;
                            let copy_len = if len < room { len } else { room };
                            proof {
                                got = Some(sector_buf@);
                                let nd = sectors_needed as int;
                                assert(nd * 512 >= sector_offset + len) by (nonlinear_arith)
                                    requires nd == (sector_offset + len + 511) / 512, sector_offset + len >= 0;
                                assert(sector as int == physical_lba(partition_start_lba, physical));
                            }
                            if copy_len > 0 {
                                let piece = slice_subrange(sector_buf.as_slice(), sector_offset, sector_offset + copy_len);
                                proof {
                                    let eb = extent_bytes(contents, plba, physical, len as int);
                                    let sb = sectors_of(contents, sector as int, sectors_needed as int);
                                    assert(sector_buf@.subrange(0, sectors_needed * 512) == sb);
                                    assert forall|k: int| 0 <= k < copy_len implies piece@[k] == eb[k] by {
                                        assert(piece@[k] == sector_buf@[sector_offset + k]);
                                        assert(sector_buf@[sector_offset + k] == sb[sector_offset + k]);
                                    }
                                }
                                assert(piece@ =~= Seq::new(copy_len as nat, |k: int| extent_bytes(contents, plba, physical, len as int)[k]));
                                write_bytes_at(buf, dst, piece);
                                if dst + copy_len > bytes_read {
                                    bytes_read = dst + copy_len;
                                }
                            }
                        }
                    },
                }
            },
        }
        proof {
            let r2 = reads.push(got);
            lemma_apply_extents_prefix(iv, reads, r2, cm, contents, plba, fid, fo, buf0, i as int);
            reads = r2;
        }
        i = i + 1;
    }
    proof {
        if stopped {
            lemma_apply_extents_stopped(iv, reads, cm, contents, plba, fid, fo, buf0, i as int, n_items as int);
        }
        assert(iv.len() == n_items);
        assert(items_from(leaf@, slot as int, nritems as int) == iv);
        assert(buf@ == apply_extents(iv, reads, chunk_map@, disk.spec_contents(), partition_start_lba, file_objectid, file_offset, old(buf)@, iv.len() as int).0);
    }
    bytes_read
}

} // verus!
