//! Btrfs write path: extent allocation, leaf construction and mutation,
//! node and superblock commits.
//!
//! Every modification writes new copies of the affected nodes; the
//! superblock is updated last.  Leaves are rebuilt from scratch on insert and
//! delete (no splitting), and extents are allocated with a bump pointer per
//! chunk.

use vstd::prelude::*;
use crate::btree::{
    get_item_data, header_nritems, item_data_range, items_from, iter_items_from, key_in, leaf_item,
    leaf_items_fit, node_request, pairs_view, physical_lba, wrapped_add,
};
use vstd::bytes::{spec_u16_to_le_bytes, spec_u32_to_le_bytes, spec_u64_to_le_bytes, u32_to_le_bytes, u64_to_le_bytes};
use vstd::slice::slice_subrange;
use crate::bytes::{
    le32, le64, lemma_le_codec, push_slice, push_u16_le, push_u64_le, spliced, tail, vec_of_zeros,
    write_bytes_at,
};
use crate::chunk::{translate, ChunkMap, ChunkMapping};
use crate::crc32c::{btrfs_checksum, spec_btrfs_checksum};
use crate::disk::{sectors_of, with_sectors, BlockDevice};
use crate::ondisk::{
    key_lt, BtrfsHeader, BtrfsItem, BtrfsKey, BTRFS_BLOCK_GROUP_DATA, BTRFS_BLOCK_GROUP_METADATA,
    BTRFS_FILE_EXTENT_INLINE, BTRFS_FILE_EXTENT_REG, SB_OFF_BYTES_USED, SB_OFF_GENERATION, SB_OFF_ROOT,
    SB_OFF_ROOT_LEVEL,
};

verus! {

/// Allocation state of one chunk.
#[derive(Clone, Copy, Debug)]
pub struct ChunkAllocEntry {
    /// Logical start of the chunk.
    pub logical_start: u64,
    /// Total length of the chunk.
    pub length: u64,
    /// Next free offset within the chunk (relative to `logical_start`).
    pub next_free: u64,
    /// Chunk type flags.
    pub chunk_type: u64,
}

/// The fresh allocation state of a chunk: nothing used.
pub open spec fn alloc_entry_of(c: ChunkMapping) -> ChunkAllocEntry {
    ChunkAllocEntry { logical_start: c.logical, length: c.length, next_free: 0, chunk_type: c.chunk_type }
}

/// A used range `(start, len)` that begins inside the chunk moves its free
/// offset past the range's end (never backwards).
pub open spec fn mark_used(e: ChunkAllocEntry, r: (u64, u64)) -> ChunkAllocEntry {
    if e.logical_start <= r.0 && r.0 < e.logical_start + e.length {
        let used_end = r.0 + r.1 - e.logical_start;
        if used_end > e.next_free {
            ChunkAllocEntry { next_free: used_end as u64, ..e }
        } else {
            e
        }
    } else {
        e
    }
}

/// `mark_used` for each range of `used`, in order.
pub open spec fn mark_all_used(e: ChunkAllocEntry, used: Seq<(u64, u64)>) -> ChunkAllocEntry
    decreases used.len(),
{
    if used.len() == 0 {
        e
    } else {
        mark_used(mark_all_used(e, used.drop_last()), used.last())
    }
}

/// `size` rounded up to a multiple of 4096.
pub open spec fn align_up_4k(size: u64) -> u64 {
    ((size + 4095) as u64) & !4095u64
}

/// Free bytes left in a chunk.
pub open spec fn entry_remaining(e: ChunkAllocEntry) -> int {
    if e.length >= e.next_free { e.length - e.next_free } else { 0 }
}

/// The chunk has the wanted type and `a` free bytes.
pub open spec fn entry_fits(e: ChunkAllocEntry, mask: u64, a: u64) -> bool {
    e.chunk_type & mask != 0 && entry_remaining(e) >= a
}

/// Index of the first chunk from `i` on that fits, or `s.len()`.
pub open spec fn first_fit(s: Seq<ChunkAllocEntry>, mask: u64, a: u64, i: nat) -> nat
    decreases s.len() - i,
{
    if i >= s.len() {
        s.len()
    } else if entry_fits(s[i as int], mask, a) {
        i
    } else {
        first_fit(s, mask, a, i + 1)
    }
}

/// Allocation of `size` bytes (rounded up to 4096) from the first chunk of
/// type `mask` with room: the new state and the logical address handed out.
pub open spec fn allocate_spec(s: Seq<ChunkAllocEntry>, size: u64, mask: u64) -> (Seq<ChunkAllocEntry>, Option<u64>) {
    let a = align_up_4k(size);
    let i = first_fit(s, mask, a, 0) as int;
    if i < s.len() {
        let e = s[i];
        (s.update(i, ChunkAllocEntry { next_free: (e.next_free + a) as u64, ..e }),
         Some((e.logical_start + e.next_free) as u64))
    } else {
        (s, None)
    }
}

/// An allocation rounds the size up to the next multiple of 4096 and
/// takes it from the free end of the first chunk of the wanted type that
/// has room: the address handed out is that chunk's next free address, the
/// whole rounded block lies inside the chunk, and the chunk's free offset
/// moves past the block, so a later allocation from it starts after this
/// one; no other chunk changes.  There is no address only when no chunk of
/// the type has room.
pub proof fn lemma_allocation_takes_free_block(s: Seq<ChunkAllocEntry>, size: u64, mask: u64)
    requires
        0 < size <= u64::MAX - 4095,
    ensures
        ({
            let (t, r) = allocate_spec(s, size, mask);
            let a = align_up_4k(size);
            &&& a >= size && a % 4096 == 0 && a - size < 4096
            &&& t.len() == s.len()
            &&& r is None <==> forall|i: int| 0 <= i < s.len() ==> !entry_fits(#[trigger] s[i], mask, a)
            &&& r is None ==> t == s
            &&& r is Some ==> exists|i: int| 0 <= i < s.len() && {
                &&& #[trigger] s[i].chunk_type & mask != 0
                &&& s[i].next_free + a <= s[i].length
                &&& r->Some_0 == (s[i].logical_start + s[i].next_free) as u64
                &&& t[i] == ChunkAllocEntry { next_free: (s[i].next_free + a) as u64, ..s[i] }
                &&& forall|j: int| 0 <= j < s.len() && j != i ==> t[j] == s[j]
                &&& forall|j: int| 0 <= j < i ==> !entry_fits(#[trigger] s[j], mask, a)
            }
        }),
{
    let a = align_up_4k(size);
    let y = (size + 4095) as u64;
    assert(y & !4095u64 == y - y % 4096) by (bit_vector);
    assert(a == y - y % 4096);
    lemma_first_fit_bounds(s, mask, a, 0);
    let i = first_fit(s, mask, a, 0) as int;
    assert(a >= size && a % 4096 == 0 && a - size < 4096);
    if i < s.len() {
        assert(entry_fits(s[i], mask, a));
        assert(s[i].next_free + a <= s[i].length);
        let t = allocate_spec(s, size, mask).0;
        assert(t[i] == ChunkAllocEntry { next_free: (s[i].next_free + a) as u64, ..s[i] });
        assert(s[i].chunk_type & mask != 0);
    }
}

/// Sum of the used offsets of the chunks of type `mask` among `s`.
pub open spec fn used_sum(s: Seq<ChunkAllocEntry>, mask: u64) -> nat
    decreases s.len(),
{
    if s.len() == 0 {
        0
    } else {
        used_sum(s.drop_last(), mask) + (if s.last().chunk_type & mask != 0 { s.last().next_free as nat } else { 0 })
    }
}

/// Per-chunk allocator state.
pub struct ChunkAllocator {
    entries: Vec<ChunkAllocEntry>,
}

impl View for ChunkAllocator {
    type V = Seq<ChunkAllocEntry>;

    closed spec fn view(&self) -> Seq<ChunkAllocEntry> {
        self.entries@
    }
}

proof fn lemma_first_fit_bounds(s: Seq<ChunkAllocEntry>, mask: u64, a: u64, i: nat)
    requires
        i <= s.len(),
    ensures
        i <= first_fit(s, mask, a, i) <= s.len(),
        first_fit(s, mask, a, i) < s.len() ==> entry_fits(s[first_fit(s, mask, a, i) as int], mask, a),
        forall|k: int| i <= k < first_fit(s, mask, a, i) ==> !entry_fits(#[trigger] s[k], mask, a),
    decreases s.len() - i,
{
    if i < s.len() && !entry_fits(s[i as int], mask, a) {
        lemma_first_fit_bounds(s, mask, a, i + 1);
    }
}

proof fn lemma_mark_all_used(e: ChunkAllocEntry, used: Seq<(u64, u64)>)
    requires
        e.logical_start + e.length <= u64::MAX,
        e.logical_start + e.next_free <= u64::MAX,
        forall|k: int| 0 <= k < used.len() && e.logical_start <= (#[trigger] used[k]).0
            && used[k].0 < e.logical_start + e.length ==> used[k].0 + used[k].1 <= u64::MAX,
    ensures
        mark_all_used(e, used).logical_start == e.logical_start,
        mark_all_used(e, used).length == e.length,
        mark_all_used(e, used).chunk_type == e.chunk_type,
        mark_all_used(e, used).logical_start + mark_all_used(e, used).next_free <= u64::MAX,
    decreases used.len(),
{
    if used.len() > 0 {
        let d = used.drop_last();
        assert forall|k: int| 0 <= k < d.len() && e.logical_start <= (#[trigger] d[k]).0
            && d[k].0 < e.logical_start + e.length implies d[k].0 + d[k].1 <= u64::MAX by {
            assert(d[k] == used[k]);
        }
        lemma_mark_all_used(e, d);
        assert(used.last() == used[used.len() - 1]);
    }
}

impl ChunkAllocator {
    /// No chunk's end, nor its next free address, overflows 64 bits.
    pub open spec fn wf(&self) -> bool {
        forall|i: int| 0 <= i < self@.len() ==> {
            &&& #[trigger] self@[i].logical_start + self@[i].length <= u64::MAX
            &&& self@[i].logical_start + self@[i].next_free <= u64::MAX
        }
    }

    /// Create an allocator from the chunk map: one entry per chunk, in
    /// logical order, each moved past the used ranges `(start, len)` that
    /// begin inside it.
    pub fn new(chunk_map: &ChunkMap, used_ranges: &[(u64, u64)]) -> (a: Self)
        requires
            forall|i: int| 0 <= i < chunk_map@.len() ==> #[trigger] chunk_map@[i].logical + chunk_map@[i].length <= u64::MAX,
            forall|i: int, k: int| 0 <= i < chunk_map@.len() && 0 <= k < used_ranges@.len()
                && chunk_map@[i].logical <= (#[trigger] used_ranges@[k]).0
                && used_ranges@[k].0 < (#[trigger] chunk_map@[i]).logical + chunk_map@[i].length
                ==> used_ranges@[k].0 + used_ranges@[k].1 <= u64::MAX,
        ensures
            a.wf(),
            a@.len() == chunk_map@.len(),
            forall|i: int| 0 <= i < a@.len() ==>
                #[trigger] a@[i] == mark_all_used(alloc_entry_of(chunk_map@[i]), used_ranges@),
    {
        let chunks = chunk_map.iter();
        let n = chunks.len();
        let mut entries: Vec<ChunkAllocEntry> = Vec::new();
        let mut i: usize = 0;
        while i < n
            invariant
                n == chunks@.len(),
                chunks@ == chunk_map@,
                i <= n,
                entries@.len() == i,
                forall|j: int| 0 <= j < i ==> #[trigger] entries@[j] == alloc_entry_of(chunks@[j]),
            decreases n - i,
        {
            let cm = &chunks[i];
            entries.push(ChunkAllocEntry {
                logical_start: cm.logical,
                length: cm.length,
                next_free: 0,
                chunk_type: cm.chunk_type,
            });
            i = i + 1;
        }
        let ghost used = used_ranges@;
        let m = used_ranges.len();
        let mut k: usize = 0;
        while k < m
            invariant
                n == chunks@.len(),
                chunks@ == chunk_map@,
                m == used.len(),
                used == used_ranges@,
                k <= m,
                entries@.len() == n,
                forall|i: int| 0 <= i < chunk_map@.len() ==> #[trigger] chunk_map@[i].logical + chunk_map@[i].length <= u64::MAX,
                forall|i: int, k: int| 0 <= i < chunk_map@.len() && 0 <= k < used_ranges@.len()
                    && chunk_map@[i].logical <= (#[trigger] used_ranges@[k]).0
                    && used_ranges@[k].0 < (#[trigger] chunk_map@[i]).logical + chunk_map@[i].length
                    ==> used_ranges@[k].0 + used_ranges@[k].1 <= u64::MAX,
                forall|j: int| 0 <= j < n ==>
                    #[trigger] entries@[j] == mark_all_used(alloc_entry_of(chunks@[j]), used.take(k as int)),
            decreases m - k,
        {
            let (used_start, used_len) = used_ranges[k];
            let mut j: usize = 0;
            while j < n
                invariant
                    n == chunks@.len(),
                    chunks@ == chunk_map@,
                    m == used.len(),
                    used == used_ranges@,
                    k < m,
                    j <= n,
                    entries@.len() == n,
                    (used_start, used_len) == used[k as int],
                    forall|i: int| 0 <= i < chunk_map@.len() ==> #[trigger] chunk_map@[i].logical + chunk_map@[i].length <= u64::MAX,
                    forall|i: int, k: int| 0 <= i < chunk_map@.len() && 0 <= k < used_ranges@.len()
                        && chunk_map@[i].logical <= (#[trigger] used_ranges@[k]).0
                        && used_ranges@[k].0 < (#[trigger] chunk_map@[i]).logical + chunk_map@[i].length
                        ==> used_ranges@[k].0 + used_ranges@[k].1 <= u64::MAX,
                    forall|jj: int| 0 <= jj < j ==>
                        #[trigger] entries@[jj] == mark_all_used(alloc_entry_of(chunks@[jj]), used.take(k + 1)),
                    forall|jj: int| j <= jj < n ==>
                        #[trigger] entries@[jj] == mark_all_used(alloc_entry_of(chunks@[jj]), used.take(k as int)),
                decreases n - j,
            {
                let mut entry = entries[j];
                proof {
                    let t = used.take(k as int);
                    assert(used.take(k + 1).drop_last() =~= t);
                    assert forall|q: int| 0 <= q < t.len() && chunks@[j as int].logical <= (#[trigger] t[q]).0
                        && t[q].0 < chunks@[j as int].logical + chunks@[j as int].length
                        implies t[q].0 + t[q].1 <= u64::MAX by {
                        assert(t[q] == used_ranges@[q]);
                    }
                    lemma_mark_all_used(alloc_entry_of(chunks@[j as int]), t);
                    assert(chunk_map@[j as int].logical <= used_ranges@[k as int].0
                        && used_ranges@[k as int].0 < chunk_map@[j as int].logical + chunk_map@[j as int].length
                        ==> used_ranges@[k as int].0 + used_ranges@[k as int].1 <= u64::MAX);
                }
                let chunk_end = entry.logical_start + entry.length;
                if used_start >= entry.logical_start && used_start < chunk_end {
                    let used_end_in_chunk = (used_start + used_len) - entry.logical_start;
                    if used_end_in_chunk > entry.next_free {
                        entry.next_free = used_end_in_chunk;
                    }
                }
                entries.set(j, entry);
                j = j + 1;
            }
            k = k + 1;
        }
        proof {
            assert(used.take(m as int) =~= used);
            assert forall|j: int| 0 <= j < n implies {
                &&& #[trigger] entries@[j].logical_start + entries@[j].length <= u64::MAX
                &&& entries@[j].logical_start + entries@[j].next_free <= u64::MAX
            } by {
                lemma_mark_all_used(alloc_entry_of(chunks@[j]), used);
            }
        }
        ChunkAllocator { entries }
    }

    /// Allocate `size` bytes (rounded up to 4096) from the first chunk whose
    /// type shares a bit with `chunk_type_mask` and that has room.  Returns
    /// the logical address of the allocation, or `None` if no chunk has room.
    pub fn allocate(&mut self, size: u64, chunk_type_mask: u64) -> (r: Option<u64>)
        requires
            old(self).wf(),
            size <= u64::MAX - 4095,
        ensures
            final(self).wf(),
            (final(self)@, r) == allocate_spec(old(self)@, size, chunk_type_mask),
    {
        let aligned_size = (size + 4095) & !4095u64;
        let ghost s = self@;
        proof {
            lemma_first_fit_bounds(s, chunk_type_mask, aligned_size, 0);
        }
        let n = self.entries.len();
        let mut i: usize = 0;
        while i < n
            invariant
                n == self.entries@.len(),
                self.entries@ == s,
                s == old(self)@,
                old(self).wf(),
                aligned_size == align_up_4k(size),
                i <= n,
                forall|k: int| 0 <= k < i ==> !entry_fits(#[trigger] s[k], chunk_type_mask, aligned_size),
                i <= first_fit(s, chunk_type_mask, aligned_size, 0),
            decreases n - i,
        {
            let entry = self.entries[i];
            proof {
                assert(s[i as int].logical_start + s[i as int].length <= u64::MAX);
                assert(s[i as int].logical_start + s[i as int].next_free <= u64::MAX);
            }
            if (entry.chunk_type & chunk_type_mask) != 0 {
                let remaining = entry.length.saturating_sub(entry.next_free);
                if remaining >= aligned_size {
                    proof {
                        assert(entry_fits(s[i as int], chunk_type_mask, aligned_size));
                        lemma_first_fit_bounds(s, chunk_type_mask, aligned_size, 0);
                        assert(first_fit(s, chunk_type_mask, aligned_size, 0) == i);
                    }
                    let logical = entry.logical_start + entry.next_free;
                    let mut e2 = entry;
                    e2.next_free = entry.next_free + aligned_size;
                    self.entries.set(i, e2);
                    proof {
                        assert(self@ =~= allocate_spec(s, size, chunk_type_mask).0);
                        assert forall|k: int| 0 <= k < self@.len() implies {
                            &&& #[trigger] self@[k].logical_start + self@[k].length <= u64::MAX
                            &&& self@[k].logical_start + self@[k].next_free <= u64::MAX
                        } by {
                            assert(s[k].logical_start + s[k].length <= u64::MAX);
                            assert(s[k].logical_start + s[k].next_free <= u64::MAX);
                        }
                    }
                    return Some(logical);
                }
            }
            proof {
                assert(!entry_fits(s[i as int], chunk_type_mask, aligned_size));
                if first_fit(s, chunk_type_mask, aligned_size, 0) == i {
                    lemma_first_fit_bounds(s, chunk_type_mask, aligned_size, 0);
                }
            }
            i = i + 1;
        }
        None
    }

    /// Bytes used in the chunks whose type shares a bit with
    /// `chunk_type_mask` (the sum wraps at 2^64).
    pub fn bytes_used(&self, chunk_type_mask: u64) -> (r: u64)
        ensures
            r == used_sum(self@, chunk_type_mask) % 0x1_0000_0000_0000_0000,
    {
        let n = self.entries.len();
        let mut total: u64 = 0;
        let mut i: usize = 0;
        while i < n
            invariant
                n == self@.len(),
                i <= n,
                total == used_sum(self@.take(i as int), chunk_type_mask) % 0x1_0000_0000_0000_0000,
            decreases n - i,
        {
            let e = self.entries[i];
            proof {
                assert(self@.take(i + 1).drop_last() =~= self@.take(i as int));
                assert(self@.take(i + 1).last() == e);
                vstd::arithmetic::div_mod::lemma_add_mod_noop(
                    used_sum(self@.take(i as int), chunk_type_mask) as int,
                    e.next_free as int,
                    0x1_0000_0000_0000_0000,
                );
            }
            if (e.chunk_type & chunk_type_mask) != 0 {
                total = total.wrapping_add(e.next_free);
            }
            i = i + 1;
        }
        proof {
            assert(self@.take(n as int) =~= self@);
        }
        total
    }
}

/// `n` zero bytes.
pub open spec fn zeros(n: nat) -> Seq<u8> {
    Seq::new(n, |i: int| 0u8)
}

/// Header bytes of a freshly built leaf: zero checksum, bytenr, flags and
/// chunk tree UUID; level 0.
pub open spec fn leaf_header_bytes(owner: u64, generation: u64, fsid: Seq<u8>, nritems: u32) -> Seq<u8> {
    zeros(32) + fsid + spec_u64_to_le_bytes(0) + spec_u64_to_le_bytes(0) + zeros(16)
        + spec_u64_to_le_bytes(generation) + spec_u64_to_le_bytes(owner)
        + spec_u32_to_le_bytes(nritems) + seq![0u8]
}

/// Total data length of a list of items.
pub open spec fn data_total(items: Seq<(BtrfsKey, Seq<u8>)>) -> nat
    decreases items.len(),
{
    if items.len() == 0 {
        0
    } else {
        data_total(items.drop_last()) + items.last().1.len()
    }
}

/// Start of item `i`'s data in a built leaf: data is packed from the end of
/// the node backwards, in item order.
pub open spec fn item_end(nodesize: nat, items: Seq<(BtrfsKey, Seq<u8>)>, i: int) -> int {
    nodesize - data_total(items.take(i + 1))
}

/// Descriptor of item `i` in a built leaf.
pub open spec fn desc_of(nodesize: nat, items: Seq<(BtrfsKey, Seq<u8>)>, i: int) -> BtrfsItem {
    BtrfsItem {
        key: items[i].0,
        offset: item_end(nodesize, items, i) as u32,
        size: items[i].1.len() as u32,
    }
}

/// The bytes of a leaf of `nodesize` bytes built from `header` and `items`:
/// each item in turn writes its descriptor after the previous one and its
/// data below the previous item's data.
pub open spec fn built_leaf(nodesize: nat, header: Seq<u8>, items: Seq<(BtrfsKey, Seq<u8>)>) -> Seq<u8>
    decreases items.len(),
{
    if items.len() == 0 {
        spliced(zeros(nodesize), 0, header)
    } else {
        let k = items.len() - 1;
        let prev = built_leaf(nodesize, header, items.drop_last());
        spliced(
            spliced(prev, 101 + 25 * k, desc_of(nodesize, items, k).spec_encode()),
            item_end(nodesize, items, k),
            items[k].1,
        )
    }
}

/// The leaf `build_leaf` produces.
pub open spec fn build_leaf_spec(
    nodesize: nat,
    owner: u64,
    generation: u64,
    fsid: Seq<u8>,
    items: Seq<(BtrfsKey, Seq<u8>)>,
) -> Seq<u8> {
    built_leaf(nodesize, leaf_header_bytes(owner, generation, fsid, items.len() as u32), items)
}

proof fn lemma_data_total_take(items: Seq<(BtrfsKey, Seq<u8>)>, i: int)
    requires
        0 <= i < items.len(),
    ensures
        data_total(items.take(i + 1)) == data_total(items.take(i)) + items[i].1.len(),
{
    assert(items.take(i + 1).drop_last() =~= items.take(i));
}

proof fn lemma_data_total_mono(items: Seq<(BtrfsKey, Seq<u8>)>, i: int, j: int)
    requires
        0 <= i <= j <= items.len(),
    ensures
        data_total(items.take(i)) <= data_total(items.take(j)),
    decreases j - i,
{
    if i < j {
        lemma_data_total_take(items, j - 1);
        lemma_data_total_mono(items, i, j - 1);
    }
}

proof fn lemma_spliced_parts(s: Seq<u8>, off: int, src: Seq<u8>, a: int, b: int)
    requires
        0 <= off,
        off + src.len() <= s.len(),
        0 <= a <= b <= s.len(),
    ensures
        spliced(s, off, src).len() == s.len(),
        spliced(s, off, src).subrange(off, off + src.len()) == src,
        (b <= off || off + src.len() <= a) ==> spliced(s, off, src).subrange(a, b) == s.subrange(a, b),
{
    let t = spliced(s, off, src);
    assert(t.subrange(off, off + src.len()) =~= src);
    if b <= off || off + src.len() <= a {
        assert(t.subrange(a, b) =~= s.subrange(a, b));
    }
}

/// Layout of a built leaf whose descriptors and data do not overlap: the
/// header comes first, each descriptor sits in its slot, each item's data at
/// its place.
pub proof fn lemma_built_leaf_layout(nodesize: nat, header: Seq<u8>, items: Seq<(BtrfsKey, Seq<u8>)>)
    requires
        header.len() == 101,
        101 + 25 * items.len() + data_total(items) <= nodesize,
    ensures
        built_leaf(nodesize, header, items).len() == nodesize,
        built_leaf(nodesize, header, items).subrange(0, 101) == header,
        forall|i: int| 0 <= i < items.len() ==>
            built_leaf(nodesize, header, items).subrange(101 + 25 * i, 126 + 25 * i)
                == (#[trigger] desc_of(nodesize, items, i)).spec_encode(),
        forall|i: int| 0 <= i < items.len() ==>
            built_leaf(nodesize, header, items).subrange(#[trigger] item_end(nodesize, items, i),
                item_end(nodesize, items, i) + items[i].1.len()) == items[i].1,
    decreases items.len(),
{
    let n = items.len() as int;
    if n == 0 {
        lemma_spliced_parts(zeros(nodesize), 0, header, 0, 101);
    } else {
        let k = n - 1;
        let d = items.drop_last();
        assert(items.take(n) =~= items);
        lemma_data_total_take(items, k);
        assert(items.take(k) =~= d);
        lemma_built_leaf_layout(nodesize, header, d);
        let prev = built_leaf(nodesize, header, d);
        let enc = desc_of(nodesize, items, k).spec_encode();
        desc_of(nodesize, items, k).lemma_encode_len();
        let end_k = item_end(nodesize, items, k);
        let mid = spliced(prev, 101 + 25 * k, enc);
        let l = spliced(mid, end_k, items[k].1);
        assert(l == built_leaf(nodesize, header, items));
        lemma_spliced_parts(prev, 101 + 25 * k, enc, 0, 101);
        lemma_spliced_parts(mid, end_k, items[k].1, 0, 101);
        lemma_spliced_parts(mid, end_k, items[k].1, 101 + 25 * k, 126 + 25 * k);
        assert forall|i: int| 0 <= i < n implies
            l.subrange(101 + 25 * i, 126 + 25 * i) == (#[trigger] desc_of(nodesize, items, i)).spec_encode() by {
            if i < k {
                assert(d.take(i + 1) =~= items.take(i + 1));
                assert(d[i] == items[i]);
                assert(desc_of(nodesize, d, i) == desc_of(nodesize, items, i));
                lemma_spliced_parts(prev, 101 + 25 * k, enc, 101 + 25 * i, 126 + 25 * i);
                lemma_spliced_parts(mid, end_k, items[k].1, 101 + 25 * i, 126 + 25 * i);
            }
        }
        assert forall|i: int| 0 <= i < n implies
            l.subrange(#[trigger] item_end(nodesize, items, i), item_end(nodesize, items, i) + items[i].1.len())
                == items[i].1 by {
            if i < k {
                assert(d.take(i + 1) =~= items.take(i + 1));
                assert(d[i] == items[i]);
                assert(item_end(nodesize, d, i) == item_end(nodesize, items, i));
                lemma_data_total_take(items, i);
                lemma_data_total_mono(items, i + 1, k);
                let e = item_end(nodesize, items, i);
                lemma_spliced_parts(prev, 101 + 25 * k, enc, e, e + items[i].1.len());
                lemma_spliced_parts(mid, end_k, items[k].1, e, e + items[i].1.len());
            } else {
                lemma_spliced_parts(mid, end_k, items[k].1, end_k, end_k + items[k].1.len());
            }
        }
    }
}

proof fn lemma_items_from_built(leaf: Seq<u8>, nodesize: nat, items: Seq<(BtrfsKey, Seq<u8>)>, i: int)
    requires
        nodesize <= u32::MAX,
        leaf.len() == nodesize,
        0 <= i <= items.len(),
        101 + 25 * items.len() + data_total(items) <= nodesize,
        forall|j: int| 0 <= j < items.len() ==> item_data_range(leaf, j) == Some(#[trigger] items[j]),
    ensures
        items_from(leaf, i, items.len() as int) == items.subrange(i, items.len() as int),
    decreases items.len() - i,
{
    if i < items.len() {
        lemma_items_from_built(leaf, nodesize, items, i + 1);
        assert(items.subrange(i, items.len() as int) =~= seq![items[i]] + items.subrange(i + 1, items.len() as int));
    } else {
        assert(items.subrange(i, items.len() as int) =~= Seq::<(BtrfsKey, Seq<u8>)>::empty());
    }
}

/// A leaf built from `items` whose descriptors and data fit in `nodesize`
/// announces `items.len()` items and reads back, slot by slot, as exactly
/// `items`.
pub proof fn lemma_build_leaf_reads_back(
    nodesize: nat,
    owner: u64,
    generation: u64,
    fsid: Seq<u8>,
    items: Seq<(BtrfsKey, Seq<u8>)>,
)
    requires
        nodesize <= u32::MAX,
        fsid.len() == 16,
        101 + 25 * items.len() + data_total(items) <= nodesize,
    ensures
        build_leaf_spec(nodesize, owner, generation, fsid, items).len() == nodesize,
        header_nritems(build_leaf_spec(nodesize, owner, generation, fsid, items)) == items.len(),
        build_leaf_spec(nodesize, owner, generation, fsid, items).subrange(32, 48) == fsid,
        le64(build_leaf_spec(nodesize, owner, generation, fsid, items), 80) == generation,
        le64(build_leaf_spec(nodesize, owner, generation, fsid, items), 88) == owner,
        build_leaf_spec(nodesize, owner, generation, fsid, items)[100] == 0,
        items_from(build_leaf_spec(nodesize, owner, generation, fsid, items), 0, items.len() as int) == items,
{
    let n = items.len() as int;
    lemma_le_codec();
    let hb = leaf_header_bytes(owner, generation, fsid, n as u32);
    assert(hb.len() == 101);
    lemma_built_leaf_layout(nodesize, hb, items);
    let l = built_leaf(nodesize, hb, items);
    // Header.
    assert(l.subrange(96, 100) =~= hb.subrange(96, 100));
    assert(hb.subrange(96, 100) =~= spec_u32_to_le_bytes(n as u32));
    assert(l.subrange(80, 88) =~= hb.subrange(80, 88));
    assert(hb.subrange(80, 88) =~= spec_u64_to_le_bytes(generation));
    assert(l.subrange(88, 96) =~= hb.subrange(88, 96));
    assert(hb.subrange(88, 96) =~= spec_u64_to_le_bytes(owner));
    assert(l.subrange(32, 48) =~= hb.subrange(32, 48));
    assert(hb.subrange(32, 48) =~= fsid);
    assert(l[100] == hb[100]);
    // Items.
    assert forall|j: int| 0 <= j < n implies item_data_range(l, j) == Some(#[trigger] items[j]) by {
        let desc = desc_of(nodesize, items, j);
        desc.lemma_encode_len();
        let b = tail(l, 101 + 25 * j);
        let r2 = l.subrange(126 + 25 * j, l.len() as int);
        assert(b =~= l.subrange(101 + 25 * j, 126 + 25 * j) + r2);
        desc.lemma_roundtrip(r2);
        assert(b.subrange(0, b.len() as int) =~= b);
        assert(key_in(b) == desc.key);
        assert(leaf_item(l, j) == desc);
        lemma_data_total_take(items, j);
        lemma_data_total_mono(items, j + 1, n);
        assert(items.take(n) =~= items);
        assert(item_end(nodesize, items, j) >= 101);
        assert(item_end(nodesize, items, j) + items[j].1.len() <= nodesize);
    }
    lemma_items_from_built(l, nodesize, items, 0);
    assert(items.subrange(0, n) =~= items);
}

/// Build a new leaf node of `nodesize` bytes holding `items` (which should be
/// sorted by key): descriptors follow the header, data is packed from the
/// end of the node backwards.
pub fn build_leaf(
    nodesize: u32,
    owner: u64,
    generation: u64,
    fsid: &[u8; 16],
    items: &[(BtrfsKey, &[u8])],
) -> (node: Vec<u8>)
    requires
        101 + 25 * items@.len() <= nodesize,
        data_total(pairs_view(items@)) <= nodesize,
    ensures
        node@ == build_leaf_spec(nodesize as nat, owner, generation, fsid@, pairs_view(items@)),
        node@.len() == nodesize,
{
    let ghost pv = pairs_view(items@);
    let mut node = vec_of_zeros(nodesize as usize);
    let header = BtrfsHeader {
        csum: [0u8; 32],
        fsid: *fsid,
        bytenr: 0,
        flags: 0,
        chunk_tree_uuid: [0u8; 16],
        generation,
        owner,
        nritems: items.len() as u32,
        level: 0,
    };
    assert(node@ =~= zeros(nodesize as nat));
    header.to_bytes(node.as_mut_slice());
    let ghost hb = header.spec_encode();
    proof {
        header.lemma_encode_len();
        assert(header.csum@ =~= zeros(32));
        assert(header.chunk_tree_uuid@ =~= zeros(16));
        assert(hb =~= leaf_header_bytes(owner, generation, fsid@, pv.len() as u32));
        assert(pv.take(0) =~= Seq::<(BtrfsKey, Seq<u8>)>::empty());
    }
    let n = items.len();
    let mut data_end: usize = nodesize as usize;
    let mut i: usize = 0;
    while i < n
        invariant
            n == items@.len(),
            pv == pairs_view(items@),
            hb.len() == 101,
            101 + 25 * n <= nodesize,
            data_total(pv) <= nodesize,
            i <= n,
            data_end == nodesize - data_total(pv.take(i as int)),
            node@.len() == nodesize,
            node@ == built_leaf(nodesize as nat, hb, pv.take(i as int)),
        decreases n - i,
    {
        let (key, data) = items[i];
        proof {
            lemma_data_total_take(pv, i as int);
            lemma_data_total_mono(pv, i + 1, n as int);
            assert(pv.take(n as int) =~= pv);
            assert(pv[i as int] == (key, data@));
        }
        data_end = data_end - data.len();
        let item = BtrfsItem { key, offset: data_end as u32, size: data.len() as u32 };
        let item_offset = 101 + i * 25;
        let enc = item.encode();
        proof {
            item.lemma_encode_len();
            let t = pv.take(i + 1);
            assert(t.drop_last() =~= pv.take(i as int));
            assert(t.take(i + 1) =~= t);
            assert(t[i as int] == pv[i as int]);
            assert(item == desc_of(nodesize as nat, t, i as int));
        }
        write_bytes_at(node.as_mut_slice(), item_offset, enc.as_slice());
        write_bytes_at(node.as_mut_slice(), data_end, data);
        i = i + 1;
    }
    proof {
        assert(pv.take(n as int) =~= pv);
    }
    node
}

proof fn lemma_items_from_len(leaf: Seq<u8>, i: int, n: int)
    requires
        i <= n,
    ensures
        items_from(leaf, i, n).len() <= n - i,
    decreases n - i,
{
    if i < n {
        lemma_items_from_len(leaf, i + 1, n);
    }
}

/// First index from `i` on whose key is not below `key`, or the length.
pub open spec fn insert_pos(items: Seq<(BtrfsKey, Seq<u8>)>, key: BtrfsKey, i: nat) -> nat
    decreases items.len() - i,
{
    if i >= items.len() {
        items.len()
    } else if !key_lt(items[i as int].0, key) {
        i
    } else {
        insert_pos(items, key, i + 1)
    }
}

proof fn lemma_insert_pos_bounds(items: Seq<(BtrfsKey, Seq<u8>)>, key: BtrfsKey, i: nat)
    requires
        i <= items.len(),
    ensures
        i <= insert_pos(items, key, i) <= items.len(),
        insert_pos(items, key, i) < items.len() ==> !key_lt(items[insert_pos(items, key, i) as int].0, key),
        forall|k: int| i <= k < insert_pos(items, key, i) ==> key_lt((#[trigger] items[k]).0, key),
    decreases items.len() - i,
{
    if i < items.len() && key_lt(items[i as int].0, key) {
        lemma_insert_pos_bounds(items, key, i + 1);
    }
}

/// Inserting an item whose key is new into items sorted by strictly
/// increasing key keeps them sorted: the new item goes in at the one place
/// where every key before it is smaller and every key after it larger, and
/// taking it out again gives the items back.
pub proof fn lemma_insert_keeps_order(items: Seq<(BtrfsKey, Seq<u8>)>, key: BtrfsKey, data: Seq<u8>)
    requires
        forall|i: int, j: int| 0 <= i < j < items.len() ==> key_lt(items[i].0, items[j].0),
        forall|i: int| 0 <= i < items.len() ==> (#[trigger] items[i]).0 != key,
    ensures
        ({
            let p = insert_pos(items, key, 0) as int;
            let r = items.insert(p, (key, data));
            &&& r.len() == items.len() + 1
            &&& r[p] == (key, data)
            &&& r.remove(p) == items
            &&& forall|i: int, j: int| 0 <= i < j < r.len() ==> key_lt(r[i].0, r[j].0)
        }),
{
    lemma_insert_pos_bounds(items, key, 0);
    let p = insert_pos(items, key, 0) as int;
    let r = items.insert(p, (key, data));
    assert(r.remove(p) =~= items);
    assert forall|i: int| p < i < r.len() implies key_lt(key, (#[trigger] r[i]).0) by {
        assert(r[i] == items[i - 1]);
        assert(!key_lt(items[p].0, key));
        if i - 1 > p {
            assert(key_lt(items[p].0, items[i - 1].0));
        }
    }
    assert forall|i: int, j: int| 0 <= i < j < r.len() implies key_lt(r[i].0, r[j].0) by {
        if j < p {
            assert(r[i] == items[i] && r[j] == items[j]);
        } else if j == p {
            assert(r[i] == items[i]);
        } else if i < p {
            assert(r[i] == items[i]);
            assert(key_lt(key, r[j].0));
        } else if i == p {
        } else {
            assert(r[i] == items[i - 1] && r[j] == items[j - 1]);
        }
    }
}

/// The items of a leaf (slots `0..nritems` whose data lies inside it).
pub open spec fn leaf_items(leaf: Seq<u8>) -> Seq<(BtrfsKey, Seq<u8>)> {
    items_from(leaf, 0, header_nritems(leaf))
}

/// The items of a leaf with `(key, data)` inserted before the first item
/// whose key is not below `key`.
pub open spec fn items_with_inserted(leaf: Seq<u8>, key: BtrfsKey, data: Seq<u8>) -> Seq<(BtrfsKey, Seq<u8>)> {
    let items = leaf_items(leaf);
    items.insert(insert_pos(items, key, 0) as int, (key, data))
}

/// Inserting `data_len` more bytes into the leaf would not fit in
/// `nodesize`.
pub open spec fn insert_overflows(leaf: Seq<u8>, nodesize: int, data_len: int) -> bool {
    101 + 25 * (header_nritems(leaf) + 1) + data_total(leaf_items(leaf)) + data_len > nodesize
}

proof fn lemma_pairs_view_insert<'a>(v: Seq<(BtrfsKey, &'a [u8])>, i: int, p: (BtrfsKey, &'a [u8]))
    requires
        0 <= i <= v.len(),
    ensures
        pairs_view(v.insert(i, p)) == pairs_view(v).insert(i, (p.0, p.1@)),
{
    assert(pairs_view(v.insert(i, p)) =~= pairs_view(v).insert(i, (p.0, p.1@)));
}

proof fn lemma_data_total_insert(items: Seq<(BtrfsKey, Seq<u8>)>, i: int, p: (BtrfsKey, Seq<u8>))
    requires
        0 <= i <= items.len(),
    ensures
        data_total(items.insert(i, p)) == data_total(items) + p.1.len(),
    decreases items.len(),
{
    if i == items.len() {
        assert(items.insert(i, p).drop_last() =~= items);
    } else {
        let d = items.drop_last();
        lemma_data_total_insert(d, i, p);
        assert(items.insert(i, p).drop_last() =~= d.insert(i, p));
        assert(items.insert(i, p).last() == items.last());
    }
}

/// Insert one item into a leaf, rebuilding it with the same owner,
/// generation and fsid.  `None` if the leaf would be full.
pub fn insert_item_into_leaf(leaf: &[u8], nodesize: u32, new_key: &BtrfsKey, new_data: &[u8]) -> (r: Option<Vec<u8>>)
    requires
        101 <= leaf@.len(),
        leaf_items_fit(leaf@, header_nritems(leaf@)),
    ensures
        r is None <==> insert_overflows(leaf@, nodesize as int, new_data@.len() as int),
        r matches Some(v) ==> v@ == build_leaf_spec(nodesize as nat, le64(leaf@, 88), le64(leaf@, 80),
            leaf@.subrange(32, 48), items_with_inserted(leaf@, *new_key, new_data@)),
        r matches Some(v) ==> header_nritems(v@) == leaf_items(leaf@).len() + 1
            && leaf_items(v@) == items_with_inserted(leaf@, *new_key, new_data@)
            && v@.len() == nodesize
            && leaf_items_fit(v@, header_nritems(v@)),
{
    let header = BtrfsHeader::from_bytes(leaf);
    let nritems = header.nritems as usize;
    let mut items = iter_items_from(leaf, 0, nritems);
    let ghost old_items = leaf_items(leaf@);
    assert(pairs_view(items@) == old_items);
    // Total data size, stopping as soon as the leaf is known to be full.
    let m = items.len();
    let mut total: u64 = 0;
    let mut i: usize = 0;
    while i < m
        invariant
            m == items@.len(),
            pairs_view(items@) == old_items,
            old_items == leaf_items(leaf@),
            i <= m,
            total == data_total(old_items.take(i as int)),
            total <= nodesize,
        decreases m - i,
    {
        proof {
            lemma_data_total_take(old_items, i as int);
            assert(old_items[i as int].1.len() == items@[i as int].1@.len());
        }
        let len_i = items[i].1.len() as u64;
        if len_i > nodesize as u64 - total {
            proof {
                lemma_data_total_mono(old_items, i + 1, m as int);
                assert(old_items.take(m as int) =~= old_items);
                assert(data_total(old_items.take(i + 1)) > nodesize);
                assert(data_total(old_items) > nodesize);
                assert(header_nritems(leaf@) >= 0);
            }
            return None;
        }
        total = total + len_i;
        i = i + 1;
    }
    proof {
        assert(old_items.take(m as int) =~= old_items);
    }
    if new_data.len() as u64 > nodesize as u64 {
        return None;
    }
    let items_area: u64 = 101 + (nritems as u64 + 1) * 25;
    if items_area + total + new_data.len() as u64 > nodesize as u64 {
        return None;
    }
    // Insertion point: first item whose key is not below the new key.
    let mut pos: usize = 0;
    proof {
        lemma_insert_pos_bounds(old_items, *new_key, 0);
    }
    while pos < m && items[pos].0.less_than(new_key)
        invariant
            m == items@.len(),
            pairs_view(items@) == old_items,
            pos <= m,
            pos <= insert_pos(old_items, *new_key, 0),
            forall|k: int| 0 <= k < pos ==> key_lt((#[trigger] old_items[k]).0, *new_key),
        decreases m - pos,
    {
        proof {
            assert(old_items[pos as int].0 == items@[pos as int].0);
            if insert_pos(old_items, *new_key, 0) == pos {
                lemma_insert_pos_bounds(old_items, *new_key, 0);
            }
        }
        pos = pos + 1;
    }
    proof {
        if pos < m {
            assert(old_items[pos as int].0 == items@[pos as int].0);
        }
        lemma_insert_pos_bounds(old_items, *new_key, 0);
        if pos < insert_pos(old_items, *new_key, 0) {
            assert(key_lt(old_items[pos as int].0, *new_key));
        }
    }
    let ghost before = items@;
    items.insert(pos, (*new_key, new_data));
    proof {
        lemma_pairs_view_insert(before, pos as int, (*new_key, new_data));
        lemma_data_total_insert(old_items, pos as int, (*new_key, new_data@));
        lemma_items_from_len(leaf@, 0, nritems as int);
    }
    let new_leaf = build_leaf(nodesize, header.owner, header.generation, &header.fsid, items.as_slice());
    proof {
        lemma_build_leaf_reads_back(nodesize as nat, header.owner, header.generation, header.fsid@,
            pairs_view(items@));
    }
    Some(new_leaf)
}

/// The items of slots `i..n` other than `slot` whose data lies inside the
/// leaf, in order.
pub open spec fn items_except(leaf: Seq<u8>, slot: int, i: int, n: int) -> Seq<(BtrfsKey, Seq<u8>)>
    decreases n - i,
{
    if i >= n {
        Seq::empty()
    } else if i == slot {
        items_except(leaf, slot, i + 1, n)
    } else {
        match item_data_range(leaf, i) {
            Some(p) => seq![p] + items_except(leaf, slot, i + 1, n),
            None => items_except(leaf, slot, i + 1, n),
        }
    }
}

/// The items of a leaf other than the one at `slot`.
pub open spec fn leaf_items_without(leaf: Seq<u8>, slot: int) -> Seq<(BtrfsKey, Seq<u8>)> {
    items_except(leaf, slot, 0, header_nritems(leaf))
}

/// Delete the item at `slot` from a leaf, rebuilding it with the same owner,
/// generation and fsid.
pub fn delete_item_from_leaf(leaf: &[u8], nodesize: u32, slot: usize) -> (v: Vec<u8>)
    requires
        101 <= leaf@.len(),
        leaf_items_fit(leaf@, header_nritems(leaf@)),
        101 + 25 * leaf_items_without(leaf@, slot as int).len() <= nodesize,
        data_total(leaf_items_without(leaf@, slot as int)) <= nodesize,
    ensures
        v@ == build_leaf_spec(nodesize as nat, le64(leaf@, 88), le64(leaf@, 80),
            leaf@.subrange(32, 48), leaf_items_without(leaf@, slot as int)),
        v@.len() == nodesize,
        101 + 25 * leaf_items_without(leaf@, slot as int).len()
            + data_total(leaf_items_without(leaf@, slot as int)) <= nodesize
            ==> leaf_items(v@) == leaf_items_without(leaf@, slot as int),
{
    let header = BtrfsHeader::from_bytes(leaf);
    let nritems = header.nritems as usize;
    let ghost whole = leaf_items_without(leaf@, slot as int);
    let mut items: Vec<(BtrfsKey, &[u8])> = Vec::new();
    let mut i: usize = 0;
    while i < nritems
        invariant
            nritems == header_nritems(leaf@),
            leaf_items_fit(leaf@, nritems as int),
            i <= nritems,
            pairs_view(items@) + items_except(leaf@, slot as int, i as int, nritems as int) == whole,
        decreases nritems - i,
    {
        let ghost rest = items_except(leaf@, slot as int, i + 1, nritems as int);
        if i != slot {
            let r = get_item_data(leaf, i);
            let ghost before = items@;
            match r {
                Some(p) => {
                    items.push(p);
                    proof {
                        assert(pairs_view(items@) =~= pairs_view(before).push((p.0, p.1@)));
                        assert(pairs_view(items@) + rest =~= pairs_view(before) + (seq![(p.0, p.1@)] + rest));
                    }
                },
                None => {},
            }
        }
        i = i + 1;
    }
    proof {
        assert(pairs_view(items@) + Seq::<(BtrfsKey, Seq<u8>)>::empty() =~= pairs_view(items@));
    }
    let new_leaf = build_leaf(nodesize, header.owner, header.generation, &header.fsid, items.as_slice());
    proof {
        if 101 + 25 * whole.len() + data_total(whole) <= nodesize {
            lemma_build_leaf_reads_back(nodesize as nat, header.owner, header.generation, header.fsid@, whole);
        }
    }
    new_leaf
}

/// `b` with its first 32 bytes replaced by the checksum of `b[32..end]`
/// (little-endian in the first four bytes, zeros after).
pub open spec fn with_checksum(b: Seq<u8>, end: int) -> Seq<u8> {
    let c = spec_btrfs_checksum(b.subrange(32, end));
    spliced(spliced(b, 0, spec_u32_to_le_bytes(c)), 4, zeros(28))
}

/// A node as `write_node` writes it: bytenr set to `logical`, then
/// checksummed over `[32, nodesize)`.
pub open spec fn sealed_node(d: Seq<u8>, logical: u64, nodesize: int) -> Seq<u8> {
    with_checksum(spliced(d, 48, spec_u64_to_le_bytes(logical)), nodesize)
}

/// After `with_checksum` the checksum field matches the bytes it covers and
/// the covered bytes are unchanged.
pub proof fn lemma_with_checksum(b: Seq<u8>, end: int)
    requires
        32 <= end <= b.len(),
    ensures
        with_checksum(b, end).len() == b.len(),
        with_checksum(b, end).subrange(32, b.len() as int) == b.subrange(32, b.len() as int),
        le32(with_checksum(b, end), 0) == spec_btrfs_checksum(with_checksum(b, end).subrange(32, end)),
        with_checksum(b, end).subrange(4, 32) == zeros(28),
{
    lemma_le_codec();
    let c = spec_btrfs_checksum(b.subrange(32, end));
    let b1 = spliced(b, 0, spec_u32_to_le_bytes(c));
    let w = with_checksum(b, end);
    assert(w.subrange(32, b.len() as int) =~= b.subrange(32, b.len() as int));
    assert(w.subrange(32, end) =~= b.subrange(32, end));
    assert(w.subrange(0, 4) =~= spec_u32_to_le_bytes(c));
    assert(w.subrange(4, 32) =~= zeros(28));
}

/// Set the first 32 bytes of `buf` to the checksum of `buf[32..end]`.
fn store_checksum(buf: &mut [u8], end: usize)
    requires
        32 <= end <= old(buf)@.len(),
    ensures
        final(buf)@ == with_checksum(old(buf)@, end as int),
{
    let blen = buf.len();
    let csum = btrfs_checksum(slice_subrange(buf, 32, end));
    let cb = u32_to_le_bytes(csum);
    proof {
        lemma_le_codec();
    }
    write_bytes_at(buf, 0, cb.as_slice());
    let z = [0u8; 28];
    proof {
        assert(z@ =~= zeros(28));
    }
    write_bytes_at(buf, 4, z.as_slice());
}

/// Allocate a metadata extent of `nodesize` bytes, stamp the node with its
/// logical address and checksum, and write it to the device.  Returns the
/// node's logical address; `None` when no metadata chunk has room (the node
/// is then left as it was), the address is not mapped, or the write fails.
pub fn write_node<D: BlockDevice>(
    disk: &mut D,
    partition_start_lba: u64,
    chunk_map: &ChunkMap,
    allocator: &mut ChunkAllocator,
    nodesize: u32,
    node_data: &mut Vec<u8>,
) -> (r: Option<u64>)
    requires
        old(allocator).wf(),
        chunk_map.wf(),
        56 <= old(node_data)@.len(),
        32 <= nodesize <= old(node_data)@.len(),
    ensures
        final(allocator).wf(),
        final(node_data)@.len() == old(node_data)@.len(),
        final(allocator)@ == allocate_spec(old(allocator)@, nodesize as u64, BTRFS_BLOCK_GROUP_METADATA).0,
        match allocate_spec(old(allocator)@, nodesize as u64, BTRFS_BLOCK_GROUP_METADATA).1 {
            None => r is None && final(node_data)@ == old(node_data)@,
            Some(x) => final(node_data)@ == sealed_node(old(node_data)@, x, nodesize as int)
                && (r is Some ==> r == Some(x))
                && (translate(chunk_map@, x) is None ==> r is None),
        },
        final(disk).spec_contents().len() == old(disk).spec_contents().len(),
        r matches Some(x) ==> translate(chunk_map@, x) matches Some(p)
            && final(disk).spec_contents() == with_sectors(old(disk).spec_contents(), physical_lba(partition_start_lba, p),
                (nodesize + 511) / 512, final(node_data)@.subrange(0, (nodesize + 511) / 512 * 512)),
        r is None ==> match allocate_spec(old(allocator)@, nodesize as u64, BTRFS_BLOCK_GROUP_METADATA).1 {
            Some(x) => match translate(chunk_map@, x) {
                Some(p) => same_outside(old(disk).spec_contents(), final(disk).spec_contents(),
                    physical_lba(partition_start_lba, p), (nodesize + 511) / 512),
                None => final(disk).spec_contents() == old(disk).spec_contents(),
            },
            None => final(disk).spec_contents() == old(disk).spec_contents(),
        },
{
    let logical = match allocator.allocate(nodesize as u64, BTRFS_BLOCK_GROUP_METADATA) {
        Some(l) => l,
        None => return None,
    };
    let lb = u64_to_le_bytes(logical);
    proof {
        lemma_le_codec();
    }
    write_bytes_at(node_data.as_mut_slice(), 48, lb.as_slice());
    store_checksum(node_data.as_mut_slice(), nodesize as usize);
    let physical = match chunk_map.logical_to_physical(logical) {
        Some(p) => p,
        None => return None,
    };
    let (sector, sectors) = node_request(partition_start_lba, physical, nodesize);
    if !disk.write_sectors(sector, sectors, node_data.as_slice()) {
        return None;
    }
    Some(logical)
}

/// A superblock with the per-transaction fields replaced (generation, root,
/// root level, bytes used) and its checksum recomputed.
pub open spec fn patched_superblock(raw: Seq<u8>, new_root: u64, new_root_level: u8, new_generation: u64, new_bytes_used: u64) -> Seq<u8> {
    let b1 = spliced(raw, 0x48, spec_u64_to_le_bytes(new_generation));
    let b2 = spliced(b1, 0x50, spec_u64_to_le_bytes(new_root));
    let b3 = b2.update(0xC6, new_root_level);
    let b4 = spliced(b3, 0x78, spec_u64_to_le_bytes(new_bytes_used));
    with_checksum(b4, 4096)
}

/// Replace the per-transaction fields of a raw 4096-byte superblock and
/// recompute its checksum.
pub fn patch_superblock(raw: &mut [u8], new_root: u64, new_root_level: u8, new_generation: u64, new_bytes_used: u64)
    requires
        old(raw)@.len() == 4096,
    ensures
        final(raw)@ == patched_superblock(old(raw)@, new_root, new_root_level, new_generation, new_bytes_used),
        final(raw)@.len() == 4096,
        le64(final(raw)@, 0x48) == new_generation,
        le64(final(raw)@, 0x50) == new_root,
        final(raw)@[0xC6] == new_root_level,
        le64(final(raw)@, 0x78) == new_bytes_used,
        le32(final(raw)@, 0) == spec_btrfs_checksum(final(raw)@.subrange(32, 4096)),
{
    proof {
        lemma_le_codec();
    }
    let g = u64_to_le_bytes(new_generation);
    write_bytes_at(raw, SB_OFF_GENERATION, g.as_slice());
    let r = u64_to_le_bytes(new_root);
    write_bytes_at(raw, SB_OFF_ROOT, r.as_slice());
    raw[SB_OFF_ROOT_LEVEL] = new_root_level;
    let u = u64_to_le_bytes(new_bytes_used);
    write_bytes_at(raw, SB_OFF_BYTES_USED, u.as_slice());
    let ghost b4 = raw@;
    proof {
        assert(b4.subrange(0x48, 0x50) =~= spec_u64_to_le_bytes(new_generation));
        assert(b4.subrange(0x50, 0x58) =~= spec_u64_to_le_bytes(new_root));
        assert(b4.subrange(0x78, 0x80) =~= spec_u64_to_le_bytes(new_bytes_used));
    }
    store_checksum(raw, 4096);
    proof {
        lemma_with_checksum(b4, 4096);
        let w = raw@;
        assert(w.subrange(0x48, 0x50) =~= b4.subrange(0x48, 0x50));
        assert(w.subrange(0x50, 0x58) =~= b4.subrange(0x50, 0x58));
        assert(w.subrange(0x78, 0x80) =~= b4.subrange(0x78, 0x80));
        assert(w[0xC6] == b4.subrange(32, 4096)[0xC6 - 32]);
    }
}

/// `after` holds the bytes of `before` everywhere but in the `count`
/// sectors from sector `lba` on.
pub open spec fn same_outside(before: Seq<u8>, after: Seq<u8>, lba: int, count: int) -> bool {
    &&& after.len() == before.len()
    &&& forall|i: int| 0 <= i < before.len() && !(lba * 512 <= i < (lba + count) * 512) ==> #[trigger] after[i] == before[i]
}

/// Read the superblock (8 sectors from sector `partition_start_lba + 128`,
/// wrapping), replace its per-transaction fields and recompute its
/// checksum (`patched_superblock`), and write it back to the same sectors.
/// `false` when the read or the write fails; a failed read writes nothing.
pub fn commit_superblock<D: BlockDevice>(
    disk: &mut D,
    partition_start_lba: u64,
    new_root: u64,
    new_root_level: u8,
    new_generation: u64,
    new_bytes_used: u64,
) -> (ok: bool)
    ensures
        final(disk).spec_contents().len() == old(disk).spec_contents().len(),
        ok ==> final(disk).spec_contents() == with_sectors(old(disk).spec_contents(),
            wrapped_add(partition_start_lba, 128), 8,
            patched_superblock(sectors_of(old(disk).spec_contents(), wrapped_add(partition_start_lba, 128), 8),
                new_root, new_root_level, new_generation, new_bytes_used)),
        !ok ==> same_outside(old(disk).spec_contents(), final(disk).spec_contents(), wrapped_add(partition_start_lba, 128), 8),
{
    let mut raw = vec_of_zeros(4096);
    let sb_sector = partition_start_lba.wrapping_add(0x10000 / 512);
    if !disk.read_sectors(sb_sector, 8, raw.as_mut_slice()) {
        return false;
    }
    assert(raw@.subrange(0, 4096) =~= raw@);
    patch_superblock(raw.as_mut_slice(), new_root, new_root_level, new_generation, new_bytes_used);
    let ok = disk.write_sectors(sb_sector, 8, raw.as_slice());
    assert(raw@.subrange(0, 4096) =~= raw@);
    ok
}

/// An inline file extent item: generation, decoded size, no compression or
/// encryption, type INLINE, then the data itself.
pub open spec fn inline_extent_bytes(generation: u64, data: Seq<u8>) -> Seq<u8> {
    spec_u64_to_le_bytes(generation) + spec_u64_to_le_bytes(data.len() as u64)
        + seq![0u8, 0u8] + spec_u16_to_le_bytes(0) + seq![BTRFS_FILE_EXTENT_INLINE] + data
}

/// A regular file extent item pointing at `disk_num_bytes` bytes at
/// `disk_bytenr`, of which the first `len` are the file's data.
pub open spec fn regular_extent_bytes(generation: u64, len: u64, disk_bytenr: u64, disk_num_bytes: u64) -> Seq<u8> {
    spec_u64_to_le_bytes(generation) + spec_u64_to_le_bytes(len)
        + seq![0u8, 0u8] + spec_u16_to_le_bytes(0) + seq![BTRFS_FILE_EXTENT_REG]
        + spec_u64_to_le_bytes(disk_bytenr) + spec_u64_to_le_bytes(disk_num_bytes)
        + spec_u64_to_le_bytes(0) + spec_u64_to_le_bytes(len)
}

/// Largest data stored inline in a leaf: a quarter of the node, at most 2048.
pub open spec fn inline_max(nodesize: u32) -> int {
    let q = nodesize as int / 4;
    if q < 2048 { q } else { 2048 }
}

/// The common 21-byte head of a file extent item.
fn push_extent_head(out: &mut Vec<u8>, generation: u64, len: u64, extent_type: u8)
    ensures
        final(out)@ == old(out)@ + spec_u64_to_le_bytes(generation) + spec_u64_to_le_bytes(len)
            + seq![0u8, 0u8] + spec_u16_to_le_bytes(0) + seq![extent_type],
{
    push_u64_le(out, generation);
    push_u64_le(out, len);
    out.push(0u8);
    out.push(0u8);
    push_u16_le(out, 0);
    out.push(extent_type);
    assert(final(out)@ =~= old(out)@ + spec_u64_to_le_bytes(generation) + spec_u64_to_le_bytes(len)
        + seq![0u8, 0u8] + spec_u16_to_le_bytes(0) + seq![extent_type]);
}

/// Store a file's data: inline in the item when it is small, otherwise in a
/// newly allocated data extent written to the device.  Returns the
/// EXTENT_DATA item to insert into the FS tree; `None` when no data chunk
/// has room, the extent's address is not mapped, or the write fails.
pub fn create_extent_for_data<D: BlockDevice>(
    disk: &mut D,
    partition_start_lba: u64,
    chunk_map: &ChunkMap,
    allocator: &mut ChunkAllocator,
    generation: u64,
    data: &[u8],
    nodesize: u32,
) -> (r: Option<Vec<u8>>)
    requires
        old(allocator).wf(),
        chunk_map.wf(),
        data@.len() + 8192 <= usize::MAX,
    ensures
        final(allocator).wf(),
        data@.len() <= inline_max(nodesize) ==> (r matches Some(v) && v@ == inline_extent_bytes(generation, data@))
            && final(allocator)@ == old(allocator)@,
        data@.len() > inline_max(nodesize) ==> {
            let aligned = align_up_4k(data@.len() as u64);
            let (s2, res) = allocate_spec(old(allocator)@, aligned, BTRFS_BLOCK_GROUP_DATA);
            &&& final(allocator)@ == s2
            &&& res is None ==> r is None
            &&& res matches Some(x) ==> (translate(chunk_map@, x) is None ==> r is None)
            &&& r matches Some(v) ==> (res matches Some(x)
                && v@ == regular_extent_bytes(generation, data@.len() as u64, x, aligned))
        },
{
    let q = nodesize as usize / 4;
    let inline_limit = if q < 2048 { q } else { 2048 };
    if data.len() <= inline_limit {
        let mut item: Vec<u8> = Vec::new();
        push_extent_head(&mut item, generation, data.len() as u64, BTRFS_FILE_EXTENT_INLINE);
        push_slice(&mut item, data);
        assert(item@ =~= inline_extent_bytes(generation, data@));
        return Some(item);
    }
    let padded_len: u64 = data.len() as u64 + 4095;
    let aligned_size: u64 = padded_len & !4095u64;
    proof {
        assert(aligned_size <= padded_len && aligned_size >= padded_len - 4095) by (bit_vector)
            requires aligned_size == padded_len & !4095u64, padded_len >= 4095u64;
    }
    let logical = match allocator.allocate(aligned_size, BTRFS_BLOCK_GROUP_DATA) {
        Some(l) => l,
        None => return None,
    };
    let physical = match chunk_map.logical_to_physical(logical) {
        Some(p) => p,
        None => return None,
    };
    let sector = partition_start_lba.wrapping_add(physical / 512);
    let mut padded = vec_of_zeros(aligned_size as usize);
    write_bytes_at(padded.as_mut_slice(), 0, data);
    let sectors = ((aligned_size + 511) / 512) as u32;
    if !disk.write_sectors(sector, sectors, padded.as_slice()) {
        return None;
    }
    let mut item: Vec<u8> = Vec::new();
    push_extent_head(&mut item, generation, data.len() as u64, BTRFS_FILE_EXTENT_REG);
    push_u64_le(&mut item, logical);
    push_u64_le(&mut item, aligned_size);
    push_u64_le(&mut item, 0);
    push_u64_le(&mut item, data.len() as u64);
    assert(item@ =~= regular_extent_bytes(generation, data@.len() as u64, logical, aligned_size));
    Some(item)
}

/// Whether `build_leaf` can lay out `items` in a node of `nodesize` bytes:
/// all descriptors fit after the header and all data fits in the node.
pub fn items_fit_leaf(items: &[(BtrfsKey, &[u8])], nodesize: u32) -> (b: bool)
    ensures
        b == (101 + 25 * items@.len() <= nodesize && data_total(pairs_view(items@)) <= nodesize),
{
    let ghost pv = pairs_view(items@);
    let n = items.len();
    if n > (nodesize as usize) / 25 {
        return false;
    }
    if 101 + 25 * (n as u64) > nodesize as u64 {
        return false;
    }
    let mut total: u64 = 0;
    let mut i: usize = 0;
    while i < n
        invariant
            n == items@.len(),
            pv == pairs_view(items@),
            i <= n,
            total == data_total(pv.take(i as int)),
            total <= nodesize,
        decreases n - i,
    {
        proof {
            lemma_data_total_take(pv, i as int);
            assert(pv[i as int].1.len() == items@[i as int].1@.len());
        }
        let len_i = items[i].1.len() as u64;
        if len_i > nodesize as u64 - total {
            proof {
                lemma_data_total_mono(pv, i + 1, n as int);
                assert(pv.take(n as int) =~= pv);
            }
            return false;
        }
        total = total + len_i;
        i = i + 1;
    }
    proof {
        assert(pv.take(n as int) =~= pv);
    }
    true
}

/// The chunk map and used ranges meet what `ChunkAllocator::new` needs: no
/// chunk end overflows, nor the end of a used range that starts inside a
/// chunk.
pub open spec fn allocator_inputs_ok(chunks: Seq<ChunkMapping>, used: Seq<(u64, u64)>) -> bool {
    &&& forall|i: int| 0 <= i < chunks.len() ==> #[trigger] chunks[i].logical + chunks[i].length <= u64::MAX
    &&& forall|i: int, k: int| 0 <= i < chunks.len() && 0 <= k < used.len()
        && chunks[i].logical <= (#[trigger] used[k]).0
        && used[k].0 < (#[trigger] chunks[i]).logical + chunks[i].length
        ==> used[k].0 + used[k].1 <= u64::MAX
}

/// Check `allocator_inputs_ok`.
pub fn check_allocator_inputs(chunk_map: &ChunkMap, used_ranges: &[(u64, u64)]) -> (b: bool)
    ensures
        b == allocator_inputs_ok(chunk_map@, used_ranges@),
{
    let chunks = chunk_map.iter();
    let n = chunks.len();
    let m = used_ranges.len();
    let mut i: usize = 0;
    while i < n
        invariant
            n == chunks@.len(),
            chunks@ == chunk_map@,
            m == used_ranges@.len(),
            i <= n,
            forall|a: int| 0 <= a < i ==> #[trigger] chunks@[a].logical + chunks@[a].length <= u64::MAX,
            forall|a: int, k: int| 0 <= a < i && 0 <= k < m
                && chunks@[a].logical <= (#[trigger] used_ranges@[k]).0
                && used_ranges@[k].0 < (#[trigger] chunks@[a]).logical + chunks@[a].length
                ==> used_ranges@[k].0 + used_ranges@[k].1 <= u64::MAX,
        decreases n - i,
    {
        let c = chunks[i];
        if c.length > u64::MAX - c.logical {
            return false;
        }
        let mut k: usize = 0;
        while k < m
            invariant
                n == chunks@.len(),
                m == used_ranges@.len(),
                i < n,
                chunks@ == chunk_map@,
                c == chunks@[i as int],
                c.logical + c.length <= u64::MAX,
                k <= m,
                forall|q: int| 0 <= q < k && c.logical <= (#[trigger] used_ranges@[q]).0
                    && used_ranges@[q].0 < c.logical + c.length
                    ==> used_ranges@[q].0 + used_ranges@[q].1 <= u64::MAX,
            decreases m - k,
        {
            let (us, ul) = used_ranges[k];
            assert(chunks@ == chunk_map@);
            if us >= c.logical && us < c.logical + c.length && ul > u64::MAX - us {
                proof {
                    let ii = i as int;
                    let kk = k as int;
                    assert(chunk_map@[ii].logical <= used_ranges@[kk].0
                        && used_ranges@[kk].0 < chunk_map@[ii].logical + chunk_map@[ii].length
                        && used_ranges@[kk].0 + used_ranges@[kk].1 > u64::MAX);
                }
                return false;
            }
            k = k + 1;
        }
        i = i + 1;
    }
    true
}

/// Whether the items of a leaf other than `slot` can be laid out in a node
/// of `nodesize` bytes, as `delete_item_from_leaf` needs.
pub fn remaining_items_fit(leaf: &[u8], nodesize: u32, slot: usize) -> (b: bool)
    requires
        101 <= leaf@.len(),
        leaf_items_fit(leaf@, header_nritems(leaf@)),
    ensures
        b == (101 + 25 * leaf_items_without(leaf@, slot as int).len() <= nodesize
            && data_total(leaf_items_without(leaf@, slot as int)) <= nodesize),
{
    let header = BtrfsHeader::from_bytes(leaf);
    let nritems = header.nritems as usize;
    let ghost whole = leaf_items_without(leaf@, slot as int);
    let mut items: Vec<(BtrfsKey, &[u8])> = Vec::new();
    let mut i: usize = 0;
    while i < nritems
        invariant
            nritems == header_nritems(leaf@),
            leaf_items_fit(leaf@, nritems as int),
            i <= nritems,
            pairs_view(items@) + items_except(leaf@, slot as int, i as int, nritems as int) == whole,
        decreases nritems - i,
    {
        let ghost rest = items_except(leaf@, slot as int, i + 1, nritems as int);
        if i != slot {
            let ghost before = items@;
            match get_item_data(leaf, i) {
                Some(p) => {
                    items.push(p);
                    proof {
                        assert(pairs_view(items@) =~= pairs_view(before).push((p.0, p.1@)));
                        assert(pairs_view(items@) + rest =~= pairs_view(before) + (seq![(p.0, p.1@)] + rest));
                    }
                },
                None => {},
            }
        }
        i = i + 1;
    }
    proof {
        assert(pairs_view(items@) + Seq::<(BtrfsKey, Seq<u8>)>::empty() =~= pairs_view(items@));
    }
    items_fit_leaf(items.as_slice(), nodesize)
}

} // verus!
