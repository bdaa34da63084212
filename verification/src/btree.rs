//! Btrfs B-tree search and traversal.
//!
//! Internal nodes hold (key, blockptr) pairs; leaves hold (key, offset, size)
//! item descriptors whose data lives in the same node.

use vstd::prelude::*;
use vstd::slice::slice_subrange;
use crate::bytes::{le32, le64, tail, vec_of_zeros};
use crate::chunk::{ChunkMap, ChunkMapping, translate};
use crate::disk::{sectors_of, BlockDevice};
use crate::ondisk::{key_le, key_lt, BtrfsHeader, BtrfsItem, BtrfsKey, BtrfsKeyPtr, KeyOrder};

verus! {

/// Byte offset of leaf slot `i`.
pub open spec fn leaf_slot_offset(i: int) -> int {
    101 + 25 * i
}

/// Byte offset of internal node slot `i`.
pub open spec fn keyptr_slot_offset(i: int) -> int {
    101 + 33 * i
}

/// The key stored at the start of `b`.
pub open spec fn key_in(b: Seq<u8>) -> BtrfsKey {
    BtrfsKey { objectid: le64(b, 0), item_type: b[8], offset: le64(b, 9) }
}

/// The item descriptor at leaf slot `i`.
pub open spec fn leaf_item(node: Seq<u8>, i: int) -> BtrfsItem {
    let b = tail(node, leaf_slot_offset(i));
    BtrfsItem { key: key_in(b), offset: le32(b, 17), size: le32(b, 21) }
}

/// The key at leaf slot `i`.
pub open spec fn leaf_key(node: Seq<u8>, i: int) -> BtrfsKey {
    leaf_item(node, i).key
}

/// The key pointer at internal node slot `i`.
pub open spec fn node_keyptr(node: Seq<u8>, i: int) -> BtrfsKeyPtr {
    let b = tail(node, keyptr_slot_offset(i));
    BtrfsKeyPtr { key: key_in(b), blockptr: le64(b, 17), generation: le64(b, 25) }
}

/// Number of items announced by the node header.
pub open spec fn header_nritems(node: Seq<u8>) -> int {
    le32(node, 96) as int
}

/// The first `n` leaf item descriptors lie inside the node.
pub open spec fn leaf_items_fit(node: Seq<u8>, n: int) -> bool {
    leaf_slot_offset(n) <= node.len()
}

/// The first `n` key pointers lie inside the node.
pub open spec fn keyptrs_fit(node: Seq<u8>, n: int) -> bool {
    keyptr_slot_offset(n) <= node.len()
}

/// Keys of leaf slots `0..n` strictly increase.
pub open spec fn leaf_sorted(node: Seq<u8>, n: int) -> bool {
    forall|i: int, j: int| 0 <= i < j < n ==> key_lt(leaf_key(node, i), leaf_key(node, j))
}

/// Keys of internal slots `0..n` strictly increase.
pub open spec fn keyptrs_sorted(node: Seq<u8>, n: int) -> bool {
    forall|i: int, j: int| 0 <= i < j < n ==> key_lt(node_keyptr(node, i).key, node_keyptr(node, j).key)
}

/// `r` is a result of the leaf search for `key` among slots `0..n`: either
/// a slot holding `key`, or a slot whose left neighbour is below `key` and
/// whose own key (if any) is above it.
pub open spec fn leaf_slot_for(node: Seq<u8>, n: int, key: BtrfsKey, r: int) -> bool {
    &&& 0 <= r <= n
    &&& ((r < n && leaf_key(node, r) == key) || (
        (r == 0 || key_lt(leaf_key(node, r - 1), key))
        && (r == n || key_lt(key, leaf_key(node, r)))))
}

/// `r` is the child chosen for `key` among internal slots `0..n`: with at
/// most one slot it is 0; otherwise the last slot whose key is not above
/// `key`, or 0 when every key is above it.
pub open spec fn child_slot_for(node: Seq<u8>, n: int, key: BtrfsKey, r: int) -> bool {
    if n <= 1 {
        r == 0
    } else {
        &&& 0 <= r < n
        &&& ((key_le(node_keyptr(node, r).key, key) && (r + 1 == n || key_lt(key, node_keyptr(node, r + 1).key)))
            || (r == 0 && key_lt(key, node_keyptr(node, 0).key)))
    }
}

/// In a sorted leaf a search result is the insertion point of `key`: every
/// slot before it holds a smaller key, every slot from it on a key not below
/// `key`.
pub proof fn lemma_leaf_slot_sorted(node: Seq<u8>, n: int, key: BtrfsKey, r: int)
    requires
        leaf_sorted(node, n),
        leaf_slot_for(node, n, key, r),
    ensures
        forall|k: int| 0 <= k < r ==> key_lt(#[trigger] leaf_key(node, k), key),
        forall|k: int| r <= k < n ==> key_le(key, #[trigger] leaf_key(node, k)),
{
    assert forall|k: int| 0 <= k < r implies key_lt(#[trigger] leaf_key(node, k), key) by {
        if k < r - 1 {
            assert(key_lt(leaf_key(node, k), leaf_key(node, r - 1)));
        }
        if leaf_key(node, r) == key && r < n {
            assert(key_lt(leaf_key(node, k), leaf_key(node, r)));
        }
    }
    assert forall|k: int| r <= k < n implies key_le(key, #[trigger] leaf_key(node, k)) by {
        if k > r {
            assert(key_lt(leaf_key(node, r), leaf_key(node, k)));
        }
    }
}

/// Read the item descriptor at slot `index` of a leaf.
fn get_leaf_item(node: &[u8], index: usize) -> (item: BtrfsItem)
    requires
        leaf_items_fit(node@, index + 1),
    ensures
        item == leaf_item(node@, index as int),
{
    let len = node.len();
    let offset = 101 + index * 25;
    let r = BtrfsItem::from_bytes(slice_subrange(node, offset, len));
    proof {
        let b = tail(node@, offset as int);
        assert(b.subrange(0, b.len() as int) =~= b);
    }
    r
}

/// Read the key pointer at slot `index` of an internal node.
fn get_keyptr(node: &[u8], index: usize) -> (kp: BtrfsKeyPtr)
    requires
        keyptrs_fit(node@, index + 1),
    ensures
        kp == node_keyptr(node@, index as int),
{
    let len = node.len();
    let offset = 101 + index * 33;
    let r = BtrfsKeyPtr::from_bytes(slice_subrange(node, offset, len));
    proof {
        let b = tail(node@, offset as int);
        assert(b.subrange(0, b.len() as int) =~= b);
    }
    r
}

/// Binary search in a leaf for `key`: the slot of a matching item, or the
/// slot where the key would be inserted.
pub fn binary_search_leaf(node: &[u8], nritems: usize, key: &BtrfsKey) -> (slot: usize)
    requires
        leaf_items_fit(node@, nritems as int),
    ensures
        leaf_slot_for(node@, nritems as int, *key, slot as int),
{
    if nritems == 0 {
        return 0;
    }
    let mut lo: usize = 0;
    let mut hi: usize = nritems;
    while lo < hi
        invariant
            leaf_items_fit(node@, nritems as int),
            lo <= hi <= nritems,
            lo == 0 || key_lt(leaf_key(node@, lo - 1), *key),
            hi == nritems || key_lt(*key, leaf_key(node@, hi as int)),
        decreases hi - lo,
    {
        let mid = lo + (hi - lo) / 2;
        let item = get_leaf_item(node, mid);
        match item.key.compare(key) {
            KeyOrder::Less => lo = mid + 1,
            KeyOrder::Equal => return mid,
            KeyOrder::Greater => hi = mid,
        }
    }
    lo
}

/// Binary search in an internal node for the child that may hold `key`:
/// the last slot whose key is not above `key` (slot 0 if there is none).
pub fn binary_search_internal(node: &[u8], nritems: usize, key: &BtrfsKey) -> (child: usize)
    requires
        keyptrs_fit(node@, nritems as int),
    ensures
        child_slot_for(node@, nritems as int, *key, child as int),
{
    if nritems <= 1 {
        return 0;
    }
    let mut lo: usize = 0;
    let mut hi: usize = nritems;
    while lo < hi
        invariant
            keyptrs_fit(node@, nritems as int),
            nritems >= 2,
            lo <= hi <= nritems,
            lo == 0 || key_le(node_keyptr(node@, lo - 1).key, *key),
            hi == nritems || key_lt(*key, node_keyptr(node@, hi as int).key),
        decreases hi - lo,
    {
        let mid = lo + (hi - lo) / 2;
        let kp = get_keyptr(node, mid);
        if kp.key.less_or_equal(key) {
            lo = mid + 1;
        } else {
            hi = mid;
        }
    }
    if lo > 0 {
        lo - 1
    } else {
        0
    }
}

/// A search result: the leaf node data and the slot index within it.
pub struct SearchResult {
    /// Raw bytes of the leaf node that contains (or would contain) the key.
    pub leaf: Vec<u8>,
    /// Slot index within the leaf: the matching item when `exact`, else the
    /// insertion point.
    pub slot: usize,
    /// Whether the key was found exactly.
    pub exact: bool,
    /// Number of items in this leaf.
    pub nritems: usize,
}

/// `r` is the outcome of searching the leaf `node` for `key`.
pub open spec fn leaf_search_result(node: Seq<u8>, key: BtrfsKey, r: SearchResult) -> bool {
    &&& r.leaf@ == node
    &&& r.nritems == header_nritems(node)
    &&& leaf_items_fit(node, r.nritems as int)
    &&& leaf_slot_for(node, r.nritems as int, key, r.slot as int)
    &&& r.exact == (r.slot < r.nritems && leaf_key(node, r.slot as int) == key)
}

/// Search a leaf node for `key`.  `None` when the items its header announces
/// do not fit in the node.
pub fn search_leaf(node: Vec<u8>, key: &BtrfsKey) -> (r: Option<SearchResult>)
    requires
        101 <= node@.len(),
    ensures
        r is None <==> !leaf_items_fit(node@, header_nritems(node@)),
        r matches Some(res) ==> leaf_search_result(node@, *key, res),
{
    let header = BtrfsHeader::from_bytes(node.as_slice());
    let nritems = header.nritems as usize;
    if node.len() < 101 || (node.len() - 101) / 25 < nritems {
        return None;
    }
    let slot = binary_search_leaf(node.as_slice(), nritems, key);
    let exact = if slot < nritems {
        let item = get_leaf_item(node.as_slice(), slot);
        item.key.compare(key) == KeyOrder::Equal
    } else {
        false
    };
    Some(SearchResult { leaf: node, slot, exact, nritems })
}

/// The child pointer to follow from internal node `node` when searching for
/// `key`.  `None` when the key pointers its header announces (at least one)
/// do not fit in the node.
pub fn search_internal(node: &[u8], key: &BtrfsKey) -> (r: Option<u64>)
    requires
        101 <= node@.len(),
    ensures
        r is None <==> !keyptrs_fit(node@, if header_nritems(node@) == 0 { 1 } else { header_nritems(node@) }),
        r matches Some(p) ==> exists|c: int| child_slot_for(node@, header_nritems(node@), *key, c)
            && p == node_keyptr(node@, c).blockptr,
{
    let header = BtrfsHeader::from_bytes(node);
    let nritems = header.nritems as usize;
    let need: usize = if nritems == 0 { 1 } else { nritems };
    if (node.len() - 101) / 33 < need {
        return None;
    }
    let child_idx = binary_search_internal(node, nritems, key);
    let kp = get_keyptr(node, child_idx);
    assert(child_slot_for(node@, header_nritems(node@), *key, child_idx as int));
    Some(kp.blockptr)
}

/// The child pointer to follow from internal node `node` when searching for
/// `key` (as `search_internal` chooses), and the key of the child after it
/// when there is one and it lies above `key`: where the items to the right
/// of the chosen subtree begin.
pub fn search_internal_next(node: &[u8], key: &BtrfsKey) -> (r: Option<(u64, Option<BtrfsKey>)>)
    requires
        101 <= node@.len(),
    ensures
        r is None <==> !keyptrs_fit(node@, if header_nritems(node@) == 0 { 1 } else { header_nritems(node@) }),
        r matches Some((p, next)) ==> exists|c: int| child_slot_for(node@, header_nritems(node@), *key, c)
            && p == node_keyptr(node@, c).blockptr
            && (next matches Some(k2) ==> c + 1 < header_nritems(node@) && k2 == node_keyptr(node@, c + 1).key)
            && (next is None ==> c + 1 >= header_nritems(node@) || !key_lt(*key, node_keyptr(node@, c + 1).key)),
        r matches Some((p, next)) ==> (next matches Some(k2) ==> key_lt(*key, k2)),
{
    let header = BtrfsHeader::from_bytes(node);
    let nritems = header.nritems as usize;
    let need: usize = if nritems == 0 { 1 } else { nritems };
    if (node.len() - 101) / 33 < need {
        return None;
    }
    let child_idx = binary_search_internal(node, nritems, key);
    let kp = get_keyptr(node, child_idx);
    assert(child_slot_for(node@, header_nritems(node@), *key, child_idx as int));
    let next = if child_idx + 1 < nritems {
        let nk = get_keyptr(node, child_idx + 1);
        match key.compare(&nk.key) {
            KeyOrder::Less => Some(nk.key),
            _ => None,
        }
    } else {
        None
    };
    Some((kp.blockptr, next))
}

/// `a + b` wrapping at 2^64 (a sector number past the end wraps).
pub open spec fn wrapped_add(a: u64, b: u64) -> int {
    if a + b > u64::MAX { a + b - 0x1_0000_0000_0000_0000 } else { a + b }
}

/// The sector at which the device holds physical byte `physical` of the
/// filesystem on the partition starting at `partition_start_lba`.
pub open spec fn physical_lba(partition_start_lba: u64, physical: u64) -> int {
    wrapped_add(partition_start_lba, physical / 512)
}

/// The `nodesize` bytes of the node at `logical`, as the device holds them:
/// the sectors from `physical_lba` of its mapped address on (the address's
/// offset inside its sector is not used).  `None` for an unmapped address.
pub open spec fn node_at(contents: Seq<u8>, partition_start_lba: u64, chunks: Seq<ChunkMapping>, logical: u64, nodesize: u32) -> Option<Seq<u8>> {
    match translate(chunks, logical) {
        None => None,
        Some(p) => {
            let at = physical_lba(partition_start_lba, p) * 512;
            Some(contents.subrange(at, at + nodesize))
        },
    }
}

/// From internal node `node`, a search for `key` may go on to the child at
/// `next`: a child whose key range holds `key` (`child_slot_for`).
pub open spec fn child_step(node: Seq<u8>, key: BtrfsKey, next: u64) -> bool {
    exists|c: int| #[trigger] child_slot_for(node, header_nritems(node), key, c) && node_keyptr(node, c).blockptr == next
}

/// `leaf` is the leaf a search for `key` reaches from the node at
/// `logical` of height `level`, the nodes being read from the device: at
/// each internal node the search follows a child whose key range holds
/// `key` (`child_slot_for`).
pub open spec fn tree_path(
    contents: Seq<u8>,
    partition_start_lba: u64,
    chunks: Seq<ChunkMapping>,
    nodesize: u32,
    logical: u64,
    level: int,
    key: BtrfsKey,
    leaf: Seq<u8>,
) -> bool
    decreases level,
{
    match node_at(contents, partition_start_lba, chunks, logical, nodesize) {
        None => false,
        Some(node) => if level <= 0 {
            node == leaf
        } else {
            exists|next: u64| #[trigger] child_step(node, key, next)
                && tree_path(contents, partition_start_lba, chunks, nodesize, next, level - 1, key, leaf)
        },
    }
}

/// One step down: a path from `next` gives a path from the node above it.
proof fn lemma_tree_path_step(
    contents: Seq<u8>,
    partition_start_lba: u64,
    chunks: Seq<ChunkMapping>,
    nodesize: u32,
    cur: u64,
    level: int,
    key: BtrfsKey,
    node: Seq<u8>,
    next: u64,
    leaf: Seq<u8>,
)
    requires
        node_at(contents, partition_start_lba, chunks, cur, nodesize) == Some(node),
        level > 0,
        child_step(node, key, next),
        tree_path(contents, partition_start_lba, chunks, nodesize, next, level - 1, key, leaf),
    ensures
        tree_path(contents, partition_start_lba, chunks, nodesize, cur, level, key, leaf),
{
    let nd = node_at(contents, partition_start_lba, chunks, cur, nodesize);
    assert(nd is Some && nd->Some_0 == node);
    assert(child_step(nd->Some_0, key, next));
    assert(exists|n: u64| #[trigger] child_step(nd->Some_0, key, n)
        && tree_path(contents, partition_start_lba, chunks, nodesize, n, level - 1, key, leaf));
}

/// The device request for a node of `nodesize` bytes at physical address
/// `physical` of the partition starting at sector `start`: the sector of
/// that address and the number of sectors that cover the node.
pub fn node_request(start: u64, physical: u64, nodesize: u32) -> (r: (u64, u32))
    ensures
        r.0 == physical_lba(start, physical),
        r.1 == (nodesize + 511) / 512,
{
    (start.wrapping_add(physical / 512), ((nodesize as u64 + 511) / 512) as u32)
}

/// Read a B-tree node of `nodesize` bytes at logical address `logical`:
/// one request of `(nodesize + 511) / 512` sectors from the sector of its
/// mapped address.  `None` when the address is not mapped or the device
/// read fails; a node read holds the device's bytes there.
pub fn read_node<D: BlockDevice>(
    disk: &D,
    partition_start_lba: u64,
    chunk_map: &ChunkMap,
    logical: u64,
    nodesize: u32,
) -> (r: Option<Vec<u8>>)
    requires
        chunk_map.wf(),
    ensures
        translate(chunk_map@, logical) is None ==> r is None,
        r matches Some(v) ==> v@.len() == nodesize
            && node_at(disk.spec_contents(), partition_start_lba, chunk_map@, logical, nodesize) == Some(v@),
{
    let physical = match chunk_map.logical_to_physical(logical) {
        Some(p) => p,
        None => return None,
    };
    let (sector, sectors) = node_request(partition_start_lba, physical, nodesize);
    let mut buf = vec_of_zeros(nodesize as usize);
    if !disk.read_sectors(sector, sectors, buf.as_mut_slice()) {
        return None;
    }
    proof {
        let n = nodesize as int;
        let c = sectors as int;
        assert(c == (n + 511) / 512);
        assert(c * 512 >= n) by (nonlinear_arith) requires c == (n + 511) / 512, n >= 0;
        assert(buf@.subrange(0, c * 512) =~= buf@);
        assert(sector as int == physical_lba(partition_start_lba, physical));
        assert(sectors_of(disk.spec_contents(), sector as int, c).subrange(0, n)
            =~= disk.spec_contents().subrange(sector * 512, sector * 512 + n));
    }
    Some(buf)
}

/// Search for `key` in the B-tree rooted at `root_logical` with level
/// `root_level`: descend through internal nodes as `search_internal` chooses
/// and search the leaf reached as `search_leaf` does.  `None` when a node
/// cannot be read or is malformed.
pub fn search_slot<D: BlockDevice>(
    disk: &D,
    partition_start_lba: u64,
    chunk_map: &ChunkMap,
    nodesize: u32,
    root_logical: u64,
    root_level: u8,
    key: &BtrfsKey,
) -> (r: Option<SearchResult>)
    requires
        chunk_map.wf(),
        101 <= nodesize,
    ensures
        r matches Some(res) ==> res.leaf@.len() == nodesize && leaf_search_result(res.leaf@, *key, res)
            && tree_path(disk.spec_contents(), partition_start_lba, chunk_map@, nodesize, root_logical, root_level as int, *key, res.leaf@),
{
    let mut current_logical = root_logical;
    let mut current_level = root_level;
    let ghost contents = disk.spec_contents();
    let ghost chunks = chunk_map@;
    loop
        invariant
            chunk_map.wf(),
            101 <= nodesize,
            contents == disk.spec_contents(),
            chunks == chunk_map@,
            forall|leaf: Seq<u8>| #[trigger] tree_path(contents, partition_start_lba, chunks, nodesize, current_logical, current_level as int, *key, leaf)
                ==> tree_path(contents, partition_start_lba, chunks, nodesize, root_logical, root_level as int, *key, leaf),
        decreases current_level,
    {
        let node = match read_node(disk, partition_start_lba, chunk_map, current_logical, nodesize) {
            Some(n) => n,
            None => return None,
        };
        if current_level == 0 {
            assert(tree_path(contents, partition_start_lba, chunks, nodesize, current_logical, 0, *key, node@));
            return search_leaf(node, key);
        }
        match search_internal(node.as_slice(), key) {
            Some(p) => {
                let ghost cur = current_logical;
                let ghost lvl = current_level as int;
                proof {
                    assert forall|leaf: Seq<u8>| #[trigger] tree_path(contents, partition_start_lba, chunks, nodesize, p, lvl - 1, *key, leaf)
                        implies tree_path(contents, partition_start_lba, chunks, nodesize, root_logical, root_level as int, *key, leaf) by {
                        assert(child_step(node@, *key, p));
                        lemma_tree_path_step(contents, partition_start_lba, chunks, nodesize, cur, lvl, *key, node@, p, leaf);
                    }
                }
                current_logical = p;
            },
            None => return None,
        }
        current_level = current_level - 1;
    }
}

/// Search for exactly `key`; `None` if it is not found.
pub fn search_exact<D: BlockDevice>(
    disk: &D,
    partition_start_lba: u64,
    chunk_map: &ChunkMap,
    nodesize: u32,
    root_logical: u64,
    root_level: u8,
    key: &BtrfsKey,
) -> (r: Option<SearchResult>)
    requires
        chunk_map.wf(),
        101 <= nodesize,
    ensures
        r matches Some(res) ==> res.leaf@.len() == nodesize && leaf_search_result(res.leaf@, *key, res)
            && res.exact
            && tree_path(disk.spec_contents(), partition_start_lba, chunk_map@, nodesize, root_logical, root_level as int, *key, res.leaf@),
{
    match search_slot(disk, partition_start_lba, chunk_map, nodesize, root_logical, root_level, key) {
        Some(res) => if res.exact { Some(res) } else { None },
        None => None,
    }
}

/// Search for the first item whose key is not below `key`.  When the leaf
/// the search reaches ends before such an item, the search goes on from
/// the key where the next subtree to the right begins (the nearest
/// separator above `key` met on the way down), and gives the first item
/// there.  `None` when there is no such item or a node cannot be read.
pub fn search_first_ge<D: BlockDevice>(
    disk: &D,
    partition_start_lba: u64,
    chunk_map: &ChunkMap,
    nodesize: u32,
    root_logical: u64,
    root_level: u8,
    key: &BtrfsKey,
) -> (r: Option<SearchResult>)
    requires
        chunk_map.wf(),
        101 <= nodesize,
    ensures
        r matches Some(res) ==> res.leaf@.len() == nodesize && res.slot < res.nritems
            && exists|k: BtrfsKey| key_le(*key, k) && #[trigger] leaf_search_result(res.leaf@, k, res)
                && tree_path(disk.spec_contents(), partition_start_lba, chunk_map@, nodesize, root_logical, root_level as int, k, res.leaf@),
{
    let mut current_logical = root_logical;
    let mut current_level = root_level;
    let mut bound: Option<BtrfsKey> = None;
    let ghost contents = disk.spec_contents();
    let ghost chunks = chunk_map@;
    loop
        invariant
            chunk_map.wf(),
            101 <= nodesize,
            bound matches Some(k2) ==> key_lt(*key, k2),
            contents == disk.spec_contents(),
            chunks == chunk_map@,
            forall|leaf: Seq<u8>| #[trigger] tree_path(contents, partition_start_lba, chunks, nodesize, current_logical, current_level as int, *key, leaf)
                ==> tree_path(contents, partition_start_lba, chunks, nodesize, root_logical, root_level as int, *key, leaf),
        decreases current_level,
    {
        let node = match read_node(disk, partition_start_lba, chunk_map, current_logical, nodesize) {
            Some(n) => n,
            None => return None,
        };
        if current_level == 0 {
            let res = match search_leaf(node, key) {
                Some(res) => res,
                None => return None,
            };
            if res.slot < res.nritems {
                assert(key_le(*key, *key));
                assert(tree_path(contents, partition_start_lba, chunks, nodesize, current_logical, 0, *key, res.leaf@));
                return Some(res);
            }
            let k2 = match bound {
                Some(k2) => k2,
                None => return None,
            };
            return match search_slot(disk, partition_start_lba, chunk_map, nodesize, root_logical, root_level, &k2) {
                Some(res2) => if res2.slot < res2.nritems {
                    assert(key_le(*key, k2));
                    Some(res2)
                } else {
                    None
                },
                None => None,
            };
        }
        match search_internal_next(node.as_slice(), key) {
            Some((p, next)) => {
                let ghost cur = current_logical;
                let ghost lvl = current_level as int;
                proof {
                    assert forall|leaf: Seq<u8>| #[trigger] tree_path(contents, partition_start_lba, chunks, nodesize, p, lvl - 1, *key, leaf)
                        implies tree_path(contents, partition_start_lba, chunks, nodesize, root_logical, root_level as int, *key, leaf) by {
                        assert(child_step(node@, *key, p));
                        lemma_tree_path_step(contents, partition_start_lba, chunks, nodesize, cur, lvl, *key, node@, p, leaf);
                    }
                }
                current_logical = p;
                if next.is_some() {
                    bound = next;
                }
            },
            None => return None,
        }
        current_level = current_level - 1;
    }
}

/// The data of the item at `slot`: its descriptor's byte range of the leaf.
pub open spec fn item_data_range(leaf: Seq<u8>, slot: int) -> Option<(BtrfsKey, Seq<u8>)> {
    let item = leaf_item(leaf, slot);
    let start = item.offset as int;
    let end = start + item.size as int;
    if end > leaf.len() {
        None
    } else {
        Some((item.key, leaf.subrange(start, end)))
    }
}

/// The key and data of the item at `slot`; `None` when the data does not
/// lie inside the leaf.
pub fn get_item_data<'a>(leaf: &'a [u8], slot: usize) -> (r: Option<(BtrfsKey, &'a [u8])>)
    requires
        leaf_items_fit(leaf@, slot + 1),
    ensures
        r is None <==> item_data_range(leaf@, slot as int) is None,
        r matches Some(p) ==> item_data_range(leaf@, slot as int) == Some((p.0, p.1@)),
{
    let item = get_leaf_item(leaf, slot);
    let data_start = item.offset as u64;
    let data_end = data_start + item.size as u64;
    if data_end > leaf.len() as u64 {
        return None;
    }
    Some((item.key, slice_subrange(leaf, data_start as usize, data_end as usize)))
}

/// The items of slots `i..n` whose data lies inside the leaf, in order.
pub open spec fn items_from(leaf: Seq<u8>, i: int, n: int) -> Seq<(BtrfsKey, Seq<u8>)>
    decreases n - i,
{
    if i >= n {
        Seq::empty()
    } else {
        match item_data_range(leaf, i) {
            Some(p) => seq![p] + items_from(leaf, i + 1, n),
            None => items_from(leaf, i + 1, n),
        }
    }
}

/// The (key, contents) view of a list of (key, data) pairs.
pub open spec fn pairs_view<'a>(v: Seq<(BtrfsKey, &'a [u8])>) -> Seq<(BtrfsKey, Seq<u8>)> {
    v.map_values(|p: (BtrfsKey, &'a [u8])| (p.0, p.1@))
}

/// The (key, data) pairs of the items of slots `start_slot..nritems`, in
/// order, leaving out those whose data does not lie inside the leaf.
pub fn iter_items_from<'a>(leaf: &'a [u8], start_slot: usize, nritems: usize) -> (v: Vec<(BtrfsKey, &'a [u8])>)
    requires
        start_slot < nritems ==> leaf_items_fit(leaf@, nritems as int),
    ensures
        pairs_view(v@) == items_from(leaf@, start_slot as int, nritems as int),
{
    let mut v: Vec<(BtrfsKey, &'a [u8])> = Vec::new();
    if start_slot >= nritems {
        return v;
    }
    let mut i = start_slot;
    while i < nritems
        invariant
            start_slot <= i <= nritems,
            leaf_items_fit(leaf@, nritems as int),
            pairs_view(v@) + items_from(leaf@, i as int, nritems as int)
                == items_from(leaf@, start_slot as int, nritems as int),
        decreases nritems - i,
    {
        let r = get_item_data(leaf, i);
        let ghost rest = items_from(leaf@, i as int + 1, nritems as int);
        let ghost before = v@;
        match r {
            Some(p) => {
                v.push(p);
                proof {
                    assert(pairs_view(v@) =~= pairs_view(before).push((p.0, p.1@)));
                    assert(items_from(leaf@, i as int, nritems as int) == seq![(p.0, p.1@)] + rest);
                    assert(pairs_view(v@) + rest =~= pairs_view(before) + (seq![(p.0, p.1@)] + rest));
                }
            },
            None => {
                assert(items_from(leaf@, i as int, nritems as int) == rest);
            },
        }
        i = i + 1;
    }
    v
}

} // verus!
