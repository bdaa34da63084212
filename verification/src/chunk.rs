//! Btrfs chunk tree: logical to physical address mapping.

use vstd::prelude::*;
use vstd::slice::slice_subrange;
use crate::bytes::{le16, le32, le64, tail};
use crate::ondisk::{
    BtrfsChunkItem, BtrfsHeader, BtrfsItem, BtrfsKey, BtrfsKeyPtr, BtrfsStripe,
    BTRFS_CHUNK_ITEM_KEY,
};

verus! {

/// A single mapping entry: `[logical, logical + length)` maps to `physical`.
#[derive(Clone, Copy, Debug)]
pub struct ChunkMapping {
    /// Logical start address.
    pub logical: u64,
    /// Length of the chunk in bytes.
    pub length: u64,
    /// Physical byte offset on the device.
    pub physical: u64,
    /// Device ID (always 1 for single-device).
    pub devid: u64,
    /// Chunk type flags (DATA, METADATA, SYSTEM).
    pub chunk_type: u64,
}

/// Entries strictly increasing by logical start.
pub open spec fn sorted_by_logical(s: Seq<ChunkMapping>) -> bool {
    forall|i: int, j: int| 0 <= i < j < s.len() ==> s[i].logical < s[j].logical
}

/// `p` is the sorted insertion point for a start address `x` absent from `s`.
pub open spec fn is_insertion_point(s: Seq<ChunkMapping>, x: u64, p: int) -> bool {
    &&& 0 <= p <= s.len()
    &&& forall|k: int| 0 <= k < p ==> s[k].logical < x
    &&& forall|k: int| p <= k < s.len() ==> s[k].logical > x
}

/// Index of the entry that starts at `x`, if any.
pub open spec fn has_start(s: Seq<ChunkMapping>, x: u64) -> bool {
    exists|i: int| 0 <= i < s.len() && s[i].logical == x
}

/// The table after inserting `m`: an entry with the same start is replaced,
/// otherwise `m` goes to its sorted position.
pub open spec fn insert_mapping(s: Seq<ChunkMapping>, m: ChunkMapping) -> Seq<ChunkMapping> {
    if has_start(s, m.logical) {
        s.update(choose|i: int| 0 <= i < s.len() && s[i].logical == m.logical, m)
    } else {
        s.insert(choose|p: int| is_insertion_point(s, m.logical, p), m)
    }
}

/// Insert each mapping of `recs` in order.
pub open spec fn insert_all(s: Seq<ChunkMapping>, recs: Seq<ChunkMapping>) -> Seq<ChunkMapping>
    decreases recs.len(),
{
    if recs.len() == 0 {
        s
    } else {
        insert_all(insert_mapping(s, recs[0]), recs.drop_first())
    }
}

/// The entry whose start is the greatest one not above `x`, if any.
pub open spec fn covering_index(s: Seq<ChunkMapping>, x: u64, i: int) -> bool {
    &&& 0 <= i < s.len()
    &&& s[i].logical <= x
    &&& forall|k: int| i < k < s.len() ==> s[k].logical > x
}

/// Translation of logical address `x` through the table `s`.
pub open spec fn translate(s: Seq<ChunkMapping>, x: u64) -> Option<u64> {
    if exists|i: int| covering_index(s, x, i) {
        let i = choose|i: int| covering_index(s, x, i);
        let off = x - s[i].logical;
        if off >= s[i].length {
            None
        } else {
            Some(((s[i].physical + off) % 0x1_0000_0000_0000_0000) as u64)
        }
    } else {
        None
    }
}

/// The complete logical to physical mapping table, sorted by logical address.
#[derive(Clone)]
pub struct ChunkMap {
    entries: Vec<ChunkMapping>,
}

impl View for ChunkMap {
    type V = Seq<ChunkMapping>;

    closed spec fn view(&self) -> Seq<ChunkMapping> {
        self.entries@
    }
}

proof fn lemma_insertion_point_unique(s: Seq<ChunkMapping>, x: u64, p: int, q: int)
    requires
        is_insertion_point(s, x, p),
        is_insertion_point(s, x, q),
    ensures
        p == q,
{
    if p < q {
        assert(s[p].logical > x);
        assert(s[p].logical < x);
    } else if q < p {
        assert(s[q].logical > x);
        assert(s[q].logical < x);
    }
}

proof fn lemma_start_index_unique(s: Seq<ChunkMapping>, x: u64, i: int, j: int)
    requires
        sorted_by_logical(s),
        0 <= i < s.len() && s[i].logical == x,
        0 <= j < s.len() && s[j].logical == x,
    ensures
        i == j,
{
}

proof fn lemma_covering_unique(s: Seq<ChunkMapping>, x: u64, i: int, j: int)
    requires
        covering_index(s, x, i),
        covering_index(s, x, j),
    ensures
        i == j,
{
}

impl ChunkMap {
    /// The table is sorted by strictly increasing logical start.
    pub open spec fn wf(&self) -> bool {
        sorted_by_logical(self@)
    }

    /// Create a new empty chunk map.
    pub fn new() -> (m: Self)
        ensures
            m@ == Seq::<ChunkMapping>::empty(),
            m.wf(),
    {
        ChunkMap { entries: Vec::new() }
    }

    /// Insert a chunk mapping, keeping the table sorted; a mapping with the
    /// same logical start replaces the existing one.
    pub fn insert(&mut self, mapping: ChunkMapping)
        requires
            old(self).wf(),
        ensures
            final(self).wf(),
            final(self)@ == insert_mapping(old(self)@, mapping),
    {
        let n = self.entries.len();
        let mut i: usize = 0;
        while i < n
            invariant
                n == self.entries@.len(),
                self.entries@ == old(self)@,
                sorted_by_logical(old(self)@),
                i <= n,
                forall|k: int| 0 <= k < i ==> self.entries@[k].logical != mapping.logical,
            decreases n - i,
        {
            if self.entries[i].logical == mapping.logical {
                proof {
                    let s = old(self)@;
                    assert(has_start(s, mapping.logical));
                    let c = choose|j: int| 0 <= j < s.len() && s[j].logical == mapping.logical;
                    lemma_start_index_unique(s, mapping.logical, c, i as int);
                }
                self.entries.set(i, mapping);
                proof {
                    let s = old(self)@;
                    let t = self.entries@;
                    assert forall|a: int, b: int| 0 <= a < b < t.len() implies t[a].logical < t[b].logical by {
                        assert(s[a].logical < s[b].logical);
                    }
                }
                return;
            }
            i = i + 1;
        }
        // Sorted position: first entry whose start is not below the new one.
        let mut pos: usize = 0;
        while pos < n && self.entries[pos].logical < mapping.logical
            invariant
                n == self.entries@.len(),
                self.entries@ == old(self)@,
                sorted_by_logical(old(self)@),
                pos <= n,
                forall|k: int| 0 <= k < pos ==> self.entries@[k].logical < mapping.logical,
            decreases n - pos,
        {
            pos = pos + 1;
        }
        proof {
            let s = old(self)@;
            assert(!has_start(s, mapping.logical));
            assert forall|k: int| pos <= k < s.len() implies s[k].logical > mapping.logical by {
                if k > pos {
                    assert(s[pos as int].logical < s[k].logical);
                }
            }
            assert(is_insertion_point(s, mapping.logical, pos as int));
            let c = choose|p: int| is_insertion_point(s, mapping.logical, p);
            lemma_insertion_point_unique(s, mapping.logical, c, pos as int);
        }
        self.entries.insert(pos, mapping);
    }

    /// Translate a logical byte address to a physical byte address, or `None`
    /// if the address is not inside the chunk whose start is the greatest
    /// one not above it.  The physical sum wraps at 2^64.
    pub fn logical_to_physical(&self, logical: u64) -> (r: Option<u64>)
        requires
            self.wf(),
        ensures
            r == translate(self@, logical),
    {
        let n = self.entries.len();
        // Binary search for the number of entries whose start is <= logical.
        let mut lo: usize = 0;
        let mut hi: usize = n;
        while lo < hi
            invariant
                n == self.entries@.len(),
                self.wf(),
                lo <= hi <= n,
                forall|k: int| 0 <= k < lo ==> self.entries@[k].logical <= logical,
                forall|k: int| hi <= k < n ==> self.entries@[k].logical > logical,
            decreases hi - lo,
        {
            let mid = lo + (hi - lo) / 2;
            if self.entries[mid].logical <= logical {
                lo = mid + 1;
            } else {
                hi = mid;
            }
        }
        if lo == 0 {
            proof {
                let s = self@;
                if exists|i: int| covering_index(s, logical, i) {
                    let i = choose|i: int| covering_index(s, logical, i);
                    assert(s[i].logical > logical);
                }
            }
            return None;
        }
        let idx = lo - 1;
        let chunk = &self.entries[idx];
        proof {
            let s = self@;
            assert(covering_index(s, logical, idx as int));
            let c = choose|i: int| covering_index(s, logical, i);
            lemma_covering_unique(s, logical, c, idx as int);
        }
        let offset_in_chunk = logical - chunk.logical;
        if offset_in_chunk >= chunk.length {
            return None;
        }
        Some(chunk.physical.wrapping_add(offset_in_chunk))
    }

    /// A copy of the map with the same entries.
    pub fn duplicate(&self) -> (m: ChunkMap)
        ensures
            m@ == self@,
    {
        let n = self.entries.len();
        let mut entries: Vec<ChunkMapping> = Vec::new();
        let mut i: usize = 0;
        while i < n
            invariant
                n == self@.len(),
                i <= n,
                entries@ == self@.subrange(0, i as int),
            decreases n - i,
        {
            entries.push(self.entries[i]);
            i = i + 1;
            assert(entries@ =~= self@.subrange(0, i as int));
        }
        assert(entries@ =~= self@);
        ChunkMap { entries }
    }

    /// Return the number of entries.
    pub fn len(&self) -> (n: usize)
        ensures
            n == self@.len(),
    {
        self.entries.len()
    }

    /// All chunks, in increasing logical order.
    pub fn iter(&self) -> (s: &[ChunkMapping])
        ensures
            s@ == self@,
    {
        self.entries.as_slice()
    }

    /// The first chunk (in logical order) whose type shares a bit with
    /// `chunk_type_mask`.
    pub fn find_chunk_of_type(&self, chunk_type_mask: u64) -> (r: Option<&ChunkMapping>)
        ensures
            r is None <==> forall|i: int| 0 <= i < self@.len() ==> self@[i].chunk_type & chunk_type_mask == 0,
            r matches Some(c) ==> exists|i: int| 0 <= i < self@.len() && self@[i] == *c
                && c.chunk_type & chunk_type_mask != 0
                && forall|k: int| 0 <= k < i ==> self@[k].chunk_type & chunk_type_mask == 0,
    {
        let n = self.entries.len();
        let mut i: usize = 0;
        while i < n
            invariant
                n == self.entries@.len(),
                i <= n,
                forall|k: int| 0 <= k < i ==> self@[k].chunk_type & chunk_type_mask == 0,
            decreases n - i,
        {
            let e = &self.entries[i];
            if (e.chunk_type & chunk_type_mask) != 0 {
                assert(*e == self@[i as int]);
                return Some(e);
            }
            i = i + 1;
        }
        None
    }
}

/// The mapping described by the (key, chunk item, first stripe) record at `off`
/// of a system chunk array.
pub open spec fn sys_chunk_at(arr: Seq<u8>, off: int) -> ChunkMapping {
    let c = tail(arr, off + 17);
    let st = tail(arr, off + 65);
    ChunkMapping {
        logical: le64(tail(arr, off), 9),
        length: le64(c, 0),
        physical: le64(st, 8),
        devid: le64(st, 0),
        chunk_type: le64(c, 24),
    }
}

/// Number of stripes the record at `off` occupies (at least one).
pub open spec fn sys_stripe_count(arr: Seq<u8>, off: int) -> int {
    let n = le16(tail(arr, off + 17), 44);
    if n == 0 { 1 } else { n as int }
}

/// The mappings of the records of a system chunk array of `total` bytes,
/// starting at `off`: records are read while a key, a chunk item and the
/// first stripe fit; each record is followed by all of its stripes.
pub open spec fn sys_chunk_records(arr: Seq<u8>, total: int, off: int) -> Seq<ChunkMapping>
    decreases total - off,
{
    if off < 0 || off + 97 > total {
        Seq::empty()
    } else {
        let next = off + 65 + 32 * sys_stripe_count(arr, off);
        seq![sys_chunk_at(arr, off)]
            + (if next <= total { sys_chunk_records(arr, total, next) } else { Seq::empty() })
    }
}

proof fn lemma_insert_all_cons(s: Seq<ChunkMapping>, m: ChunkMapping, rest: Seq<ChunkMapping>)
    ensures
        insert_all(s, seq![m] + rest) == insert_all(insert_mapping(s, m), rest),
{
    let r = seq![m] + rest;
    assert(r.drop_first() =~= rest);
    assert(r[0] == m);
}

/// Parse the superblock's system chunk array (its first
/// `sys_chunk_array_size` bytes) into a chunk map.
pub fn parse_sys_chunk_array(sys_chunk_array: &[u8], sys_chunk_array_size: u32) -> (map: ChunkMap)
    requires
        sys_chunk_array_size <= sys_chunk_array@.len(),
    ensures
        map.wf(),
        map@ == insert_all(Seq::empty(), sys_chunk_records(sys_chunk_array@, sys_chunk_array_size as int, 0)),
{
    let mut map = ChunkMap::new();
    let total = sys_chunk_array_size as usize;
    let len = sys_chunk_array.len();
    let ghost arr = sys_chunk_array@;
    let ghost goal = insert_all(Seq::empty(), sys_chunk_records(arr, total as int, 0));
    let mut offset: usize = 0;
    loop
        invariant_except_break
            insert_all(map@, sys_chunk_records(arr, total as int, offset as int)) == goal,
        invariant
            total == sys_chunk_array_size as usize,
            total <= len,
            len == arr.len(),
            arr == sys_chunk_array@,
            offset <= total,
            map.wf(),
        ensures
            map.wf(),
            map@ == goal,
        decreases total - offset,
    {
        if total - offset < 97 {
            proof {
                assert(sys_chunk_records(arr, total as int, offset as int) == Seq::<ChunkMapping>::empty());
            }
            break;
        }
        let key = BtrfsKey::from_bytes(slice_subrange(sys_chunk_array, offset, len));
        let chunk = BtrfsChunkItem::from_bytes(slice_subrange(sys_chunk_array, offset + 17, len));
        let num_stripes: u64 = if chunk.num_stripes == 0 { 1 } else { chunk.num_stripes as u64 };
        let stripe = BtrfsStripe::from_bytes(slice_subrange(sys_chunk_array, offset + 65, len));
        let m = ChunkMapping {
            logical: key.offset,
            length: chunk.length,
            physical: stripe.offset,
            devid: stripe.devid,
            chunk_type: chunk.chunk_type,
        };
        let next: u64 = offset as u64 + 65 + 32 * num_stripes;
        proof {
            assert(m == sys_chunk_at(arr, offset as int));
            assert(num_stripes as int == sys_stripe_count(arr, offset as int));
            let rest = if next <= total { sys_chunk_records(arr, total as int, next as int) } else { Seq::empty() };
            assert(sys_chunk_records(arr, total as int, offset as int) == seq![m] + rest);
            lemma_insert_all_cons(map@, m, rest);
        }
        map.insert(m);
        if next > total as u64 {
            break;
        }
        offset = next as usize;
    }
    map
}

/// Number of items a node's header announces.
pub open spec fn node_nritems(node: Seq<u8>) -> u32 {
    le32(node, 96)
}

/// The chunk mappings of the leaf items `i..nritems` of a chunk tree leaf:
/// items are read while their descriptor fits in the node; an item is used
/// when its type is CHUNK_ITEM, its data lies within `nodesize` and holds a
/// chunk item and one stripe.
pub open spec fn leaf_chunk_records(node: Seq<u8>, nodesize: int, i: int) -> Seq<ChunkMapping>
    decreases node_nritems(node) - i,
{
    if i < 0 || i >= node_nritems(node) || 101 + 25 * i + 25 > node.len() {
        Seq::empty()
    } else {
        let b = tail(node, 101 + 25 * i);
        let rest = leaf_chunk_records(node, nodesize, i + 1);
        let doff = le32(b, 17) as int;
        let dsize = le32(b, 21) as int;
        if b[8] != BTRFS_CHUNK_ITEM_KEY || doff + dsize > nodesize || dsize < 80 {
            rest
        } else {
            let c = tail(node, doff);
            let st = tail(node, doff + 48);
            seq![ChunkMapping {
                logical: le64(b, 9),
                length: le64(c, 0),
                physical: le64(st, 8),
                devid: le64(st, 0),
                chunk_type: le64(c, 24),
            }] + rest
        }
    }
}

/// The child block pointers of the key pointers `i..nritems` of an internal
/// node, read while each key pointer fits in the node.
pub open spec fn node_child_pointers(node: Seq<u8>, i: int) -> Seq<u64>
    decreases node_nritems(node) - i,
{
    if i < 0 || i >= node_nritems(node) || 101 + 33 * i + 33 > node.len() {
        Seq::empty()
    } else {
        seq![le64(tail(node, 101 + 33 * i), 17)] + node_child_pointers(node, i + 1)
    }
}

/// Merge the chunk items of a chunk tree leaf into `map`.
pub fn merge_chunk_leaf(map: &mut ChunkMap, node_data: &[u8], nodesize: u32)
    requires
        old(map).wf(),
        101 <= nodesize <= node_data@.len(),
    ensures
        final(map).wf(),
        final(map)@ == insert_all(old(map)@, leaf_chunk_records(node_data@, nodesize as int, 0)),
{
    let len = node_data.len();
    let header = BtrfsHeader::from_bytes(node_data);
    let nritems = header.nritems;
    let ghost node = node_data@;
    let ghost goal = insert_all(old(map)@, leaf_chunk_records(node, nodesize as int, 0));
    let mut i: u32 = 0;
    let mut item_offset: usize = 101;
    loop
        invariant_except_break
            insert_all(map@, leaf_chunk_records(node, nodesize as int, i as int)) == goal,
        invariant
            node == node_data@,
            len == node.len(),
            nritems == node_nritems(node),
            101 <= nodesize <= len,
            i <= nritems,
            item_offset == 101 + 25 * i,
            item_offset <= len,
            map.wf(),
        ensures
            map.wf(),
            map@ == goal,
        decreases nritems - i,
    {
        if i >= nritems || len - item_offset < 25 {
            break;
        }
        let item = BtrfsItem::from_bytes(slice_subrange(node_data, item_offset, len));
        let ghost b = tail(node, item_offset as int);
        proof {
            assert(b.subrange(0, b.len() as int) =~= b);
        }
        let data_offset = item.offset as u64;
        let data_size = item.size as u64;
        if item.key.item_type == BTRFS_CHUNK_ITEM_KEY && data_offset + data_size <= nodesize as u64
            && data_size >= 80 {
            let chunk = BtrfsChunkItem::from_bytes(slice_subrange(node_data, data_offset as usize, len));
            let stripe = BtrfsStripe::from_bytes(slice_subrange(node_data, data_offset as usize + 48, len));
            let m = ChunkMapping {
                logical: item.key.offset,
                length: chunk.length,
                physical: stripe.offset,
                devid: stripe.devid,
                chunk_type: chunk.chunk_type,
            };
            proof {
                let rest = leaf_chunk_records(node, nodesize as int, i as int + 1);
                assert(leaf_chunk_records(node, nodesize as int, i as int) == seq![m] + rest);
                lemma_insert_all_cons(map@, m, rest);
            }
            map.insert(m);
        }
        i = i + 1;
        item_offset = item_offset + 25;
    }
}

/// The child block pointers of an internal node, in order.
pub fn chunk_child_pointers(node_data: &[u8]) -> (ptrs: Vec<u64>)
    requires
        101 <= node_data@.len(),
    ensures
        ptrs@ == node_child_pointers(node_data@, 0),
{
    let len = node_data.len();
    let header = BtrfsHeader::from_bytes(node_data);
    let nritems = header.nritems;
    let ghost node = node_data@;
    let mut ptrs: Vec<u64> = Vec::new();
    let mut i: u32 = 0;
    let mut kp_offset: usize = 101;
    loop
        invariant_except_break
            ptrs@ + node_child_pointers(node, i as int) == node_child_pointers(node, 0),
        invariant
            node == node_data@,
            len == node.len(),
            nritems == node_nritems(node),
            i <= nritems,
            kp_offset == 101 + 33 * i,
            kp_offset <= len,
        ensures
            ptrs@ == node_child_pointers(node, 0),
        decreases nritems - i,
    {
        if i >= nritems || len - kp_offset < 33 {
            proof {
                assert(ptrs@ + Seq::<u64>::empty() =~= ptrs@);
            }
            break;
        }
        let kp = BtrfsKeyPtr::from_bytes(slice_subrange(node_data, kp_offset, len));
        proof {
            let rest = node_child_pointers(node, i as int + 1);
            assert(node_child_pointers(node, i as int) == seq![kp.blockptr] + rest);
            assert(ptrs@.push(kp.blockptr) + rest =~= ptrs@ + (seq![kp.blockptr] + rest));
        }
        ptrs.push(kp.blockptr);
        i = i + 1;
        kp_offset = kp_offset + 33;
    }
    ptrs
}

/// Read the chunk tree rooted at `chunk_root_logical` through `read_node_fn`
/// and merge its chunk items into `map`.  A node that cannot be read is
/// skipped; each leaf is merged as `merge_chunk_leaf` does and each internal
/// node's children are visited in order.
pub fn load_chunk_tree<F: Fn(u64) -> Option<Vec<u8>>>(
    map: &mut ChunkMap,
    chunk_root_logical: u64,
    chunk_root_level: u8,
    nodesize: u32,
    read_node_fn: &F,
)
    requires
        old(map).wf(),
        101 <= nodesize,
        forall|a: u64| read_node_fn.requires((a,)),
        forall|a: u64, r: Option<Vec<u8>>|
            read_node_fn.ensures((a,), r) ==> (r matches Some(v) ==> nodesize <= v@.len()),
    ensures
        final(map).wf(),
        exists|got: Option<Vec<u8>>| #[trigger] read_node_fn.ensures((chunk_root_logical,), got) && {
            &&& got is None ==> final(map)@ == old(map)@
            &&& (got is Some && chunk_root_level == 0)
                ==> final(map)@ == insert_all(old(map)@, leaf_chunk_records(got->Some_0@, nodesize as int, 0))
        },
{
    load_chunk_tree_recursive(map, chunk_root_logical, chunk_root_level, nodesize, read_node_fn);
}

fn load_chunk_tree_recursive<F: Fn(u64) -> Option<Vec<u8>>>(
    map: &mut ChunkMap,
    node_logical: u64,
    level: u8,
    nodesize: u32,
    read_node_fn: &F,
)
    requires
        old(map).wf(),
        101 <= nodesize,
        forall|a: u64| read_node_fn.requires((a,)),
        forall|a: u64, r: Option<Vec<u8>>|
            read_node_fn.ensures((a,), r) ==> (r matches Some(v) ==> nodesize <= v@.len()),
    ensures
        final(map).wf(),
        exists|got: Option<Vec<u8>>| #[trigger] read_node_fn.ensures((node_logical,), got) && {
            &&& got is None ==> final(map)@ == old(map)@
            &&& (got is Some && level == 0)
                ==> final(map)@ == insert_all(old(map)@, leaf_chunk_records(got->Some_0@, nodesize as int, 0))
        },
    decreases level,
{
    let node_data = match read_node_fn(node_logical) {
        Some(data) => data,
        None => return,
    };
    if level == 0 {
        merge_chunk_leaf(map, node_data.as_slice(), nodesize);
    } else {
        let children = chunk_child_pointers(node_data.as_slice());
        let n = children.len();
        let mut i: usize = 0;
        while i < n
            invariant
                n == children@.len(),
                i <= n,
                map.wf(),
                1 <= level,
                101 <= nodesize,
                forall|a: u64| read_node_fn.requires((a,)),
                forall|a: u64, r: Option<Vec<u8>>|
                    read_node_fn.ensures((a,), r) ==> (r matches Some(v) ==> nodesize <= v@.len()),
            decreases n - i,
        {
            load_chunk_tree_recursive(map, children[i], level - 1, nodesize, read_node_fn);
            i = i + 1;
        }
    }
}

/// A sorted table without an entry starting at `x` has an insertion
/// point for it.
proof fn lemma_insertion_point_exists(s: Seq<ChunkMapping>, x: u64)
    requires
        sorted_by_logical(s),
        !has_start(s, x),
    ensures
        exists|p: int| is_insertion_point(s, x, p),
    decreases s.len(),
{
    if s.len() == 0 {
        assert(is_insertion_point(s, x, 0));
    } else {
        let r = s.drop_last();
        assert(!has_start(r, x)) by {
            if has_start(r, x) {
                let i = choose|i: int| 0 <= i < r.len() && r[i].logical == x;
                assert(s[i].logical == x);
            }
        }
        lemma_insertion_point_exists(r, x);
        let q = choose|p: int| is_insertion_point(r, x, p);
        let l = s.len() - 1;
        assert(s[l].logical != x);
        if s[l].logical < x {
            assert forall|k: int| 0 <= k < s.len() implies s[k].logical < x by {
                if k < l {
                    assert(s[k].logical < s[l].logical);
                }
            }
            assert(is_insertion_point(s, x, s.len() as int));
        } else {
            assert forall|k: int| 0 <= k < q implies s[k].logical < x by {
                assert(s[k] == r[k]);
            }
            assert forall|k: int| q <= k < s.len() implies s[k].logical > x by {
                if k < l {
                    assert(s[k] == r[k]);
                }
            }
            assert(is_insertion_point(s, x, q));
        }
    }
}

/// After inserting mapping `m` into a sorted table, an address `x` from
/// `m`'s start up to (not including) the next start in the table is
/// translated through `m`: `x` at offset `d` below `m`'s length maps to
/// `m`'s physical start plus `d` (wrapping at 2^64), and past the length
/// it is unmapped.
pub proof fn lemma_insert_then_translate(s: Seq<ChunkMapping>, m: ChunkMapping, x: u64)
    requires
        sorted_by_logical(s),
        m.logical <= x,
        forall|k: int| 0 <= k < s.len() ==> !(m.logical < #[trigger] s[k].logical <= x),
    ensures
        x - m.logical < m.length ==> translate(insert_mapping(s, m), x)
            == Some(((m.physical + (x - m.logical)) % 0x1_0000_0000_0000_0000) as u64),
        x - m.logical >= m.length ==> translate(insert_mapping(s, m), x) is None,
{
    let t = insert_mapping(s, m);
    let j: int;
    if has_start(s, m.logical) {
        let i = choose|i: int| 0 <= i < s.len() && s[i].logical == m.logical;
        j = i;
        assert(t == s.update(i, m));
        assert forall|k: int| j < k < t.len() implies t[k].logical > x by {
            assert(s[k].logical > s[i].logical);
        }
    } else {
        lemma_insertion_point_exists(s, m.logical);
        let p = choose|p: int| is_insertion_point(s, m.logical, p);
        j = p;
        assert(t == s.insert(p, m));
        assert forall|k: int| j < k < t.len() implies t[k].logical > x by {
            assert(t[k] == s[k - 1]);
            assert(s[k - 1].logical > m.logical);
        }
    }
    assert(covering_index(t, x, j));
    assert forall|i2: int| covering_index(t, x, i2) implies i2 == j by {
        lemma_covering_unique(t, x, i2, j);
    }
}

} // verus!
