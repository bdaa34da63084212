//! MBR and GPT partition tables.

use vstd::prelude::*;
use vstd::string::StringSliceAdditionalSpecFns;
use crate::bytes::{le32, le64, read_u32_le, read_u64_le, vec_of_zeros};
use crate::disk::{sectors_of, BlockDevice};

verus! {

/// A partition of a disk.
#[derive(Clone, Copy, Debug, PartialEq, Eq, Structural)]
pub struct Partition {
    pub disk_index: usize,
    pub part_index: usize,
    pub start_lba: u64,
    pub sector_count: u64,
    /// MBR type byte (0x0C for a GPT basic data partition, 0x01 for other
    /// GPT partitions, 0xFF for a whole unpartitioned disk).
    pub partition_type: u8,
}

impl Partition {
    /// Types that may hold FAT32: 0x0B, 0x0C, and a whole disk.
    pub fn is_fat32_candidate(&self) -> (b: bool)
        ensures
            b == (self.partition_type == 0x0B || self.partition_type == 0x0C || self.partition_type == 0xFF),
    {
        self.partition_type == 0x0B || self.partition_type == 0x0C || self.partition_type == 0xFF
    }

    /// "/mnt/disk" + disk letter (a–z, capped at z) + partition number (from 1).
    pub fn mount_path(&self) -> (s: String)
        requires
            self.part_index < usize::MAX,
        ensures
            crate::procfs::codes_of(s@) == mount_path_bytes(self.disk_index, self.part_index),
    {
        let mut bytes: Vec<u8> = Vec::new();
        crate::bytes::push_slice(&mut bytes, "/mnt/disk".as_bytes());
        let d: u8 = if self.disk_index < 25 { self.disk_index as u8 } else { 25 };
        bytes.push(97 + d);
        crate::bytes::push_dec(&mut bytes, (self.part_index + 1) as u64);
        crate::procfs::ascii_string(bytes.as_slice())
    }
}

/// The bytes of a partition's mount path.
pub open spec fn mount_path_bytes(disk_index: usize, part_index: usize) -> Seq<u8> {
    "/mnt/disk".spec_bytes() + seq![(97 + (if disk_index < 25 { disk_index as int } else { 25 })) as u8]
        + crate::bytes::dec_digits((part_index + 1) as nat)
}

/// The partition of MBR entry `i` (0..4) of a boot sector, if it is used:
/// non-zero type, start and size.
pub open spec fn mbr_entry(sector0: Seq<u8>, i: int) -> Option<(u64, u64, u8)> {
    let base = 446 + 16 * i;
    let t = sector0[base + 4];
    let start = le32(sector0, base + 8) as u64;
    let count = le32(sector0, base + 12) as u64;
    if t == 0 || start == 0 || count == 0 { None } else { Some((start, count, t)) }
}

/// The used MBR entries among `0..k`, in order.
pub open spec fn mbr_entries(sector0: Seq<u8>, k: int) -> Seq<(u64, u64, u8)>
    decreases k,
{
    if k <= 0 {
        Seq::empty()
    } else {
        match mbr_entry(sector0, k - 1) {
            Some(e) => mbr_entries(sector0, k - 1).push(e),
            None => mbr_entries(sector0, k - 1),
        }
    }
}

/// The partitions of an MBR disk: its used entries numbered in order, or
/// the whole disk when there is none.
pub fn parse_mbr(sector0: &[u8], disk_index: usize, disk_sector_count: u64) -> (v: Vec<Partition>)
    requires
        sector0@.len() >= 512,
    ensures
        mbr_entries(sector0@, 4).len() == 0 ==> v@ == seq![Partition { disk_index, part_index: 0, start_lba: 0, sector_count: disk_sector_count, partition_type: 0xFF }],
        mbr_entries(sector0@, 4).len() > 0 ==> v@.len() == mbr_entries(sector0@, 4).len()
            && forall|k: int| 0 <= k < v@.len() ==> #[trigger] v@[k] == (Partition {
                disk_index,
                part_index: k as usize,
                start_lba: mbr_entries(sector0@, 4)[k].0,
                sector_count: mbr_entries(sector0@, 4)[k].1,
                partition_type: mbr_entries(sector0@, 4)[k].2,
            }),
{
    let mut partitions: Vec<Partition> = Vec::new();
    let mut entry_index: usize = 0;
    while entry_index < 4
        invariant
            sector0@.len() >= 512,
            entry_index <= 4,
            partitions@.len() == mbr_entries(sector0@, entry_index as int).len(),
            forall|k: int| 0 <= k < partitions@.len() ==> #[trigger] partitions@[k] == (Partition {
                disk_index,
                part_index: k as usize,
                start_lba: mbr_entries(sector0@, entry_index as int)[k].0,
                sector_count: mbr_entries(sector0@, entry_index as int)[k].1,
                partition_type: mbr_entries(sector0@, entry_index as int)[k].2,
            }),
        decreases 4 - entry_index,
    {
        let base = 446 + entry_index * 16;
        let partition_type = sector0[base + 4];
        let start_lba = read_u32_le(sector0, base + 8) as u64;
        let sector_count = read_u32_le(sector0, base + 12) as u64;
        if !(partition_type == 0 || start_lba == 0 || sector_count == 0) {
            let part_index = partitions.len();
            partitions.push(Partition { disk_index, part_index, start_lba, sector_count, partition_type });
        }
        entry_index = entry_index + 1;
    }
    if partitions.len() == 0 {
        partitions.push(Partition { disk_index, part_index: 0, start_lba: 0, sector_count: disk_sector_count, partition_type: 0xFF });
        assert(partitions@ =~= seq![Partition { disk_index, part_index: 0, start_lba: 0, sector_count: disk_sector_count, partition_type: 0xFF }]);
    }
    partitions
}

/// The GPT type GUID of a basic data partition (as stored).
pub open spec fn basic_data_guid() -> Seq<u8> {
    seq![0xA2u8, 0xA0, 0xD0, 0xEB, 0xE5, 0xB9, 0x33, 0x44, 0x87, 0xC0, 0x68, 0xB6, 0xB7, 0x26, 0x99, 0xC7]
}

/// The partition of GPT entry `i` of an entry array, if it is used: type
/// GUID not all zero, start non-zero, end not before start.
pub open spec fn gpt_entry(buf: Seq<u8>, entry_size: int, i: int) -> Option<(u64, u64, u8)> {
    let base = i * entry_size;
    let guid = buf.subrange(base, base + 16);
    let start = le64(buf, base + 32);
    let end = le64(buf, base + 40);
    if (forall|k: int| 0 <= k < 16 ==> guid[k] == 0) || start == 0 || end < start {
        None
    } else {
        Some((start, (end - start + 1) as u64, if guid == basic_data_guid() { 0x0Cu8 } else { 0x01u8 }))
    }
}

/// The used GPT entries among the first `k` that lie inside the buffer, in
/// order.
pub open spec fn gpt_entries(buf: Seq<u8>, entry_size: int, k: int) -> Seq<(u64, u64, u8)>
    decreases k,
{
    if k <= 0 {
        Seq::empty()
    } else if k * entry_size > buf.len() {
        gpt_entries(buf, entry_size, k - 1)
    } else {
        match gpt_entry(buf, entry_size, k - 1) {
            Some(e) => gpt_entries(buf, entry_size, k - 1).push(e),
            None => gpt_entries(buf, entry_size, k - 1),
        }
    }
}

/// A used GPT entry (type GUID not all zero, first LBA non-zero, last LBA
/// not before it) spans its first to its last LBA inclusive, and is
/// listed with MBR type 0x0C (FAT32 LBA, a FAT32 candidate) exactly when
/// its type GUID is the basic data GUID
/// EBD0A0A2-B9E5-4433-87C0-68B6B72699C7 (stored A2 A0 D0 EB E5 B9 33 44
/// 87 C0 68 B6 B7 26 99 C7), and with type 0x01 otherwise.
pub proof fn lemma_gpt_entry_type(buf: Seq<u8>, entry_size: int, i: int)
    requires
        0 <= i,
        48 <= entry_size,
        (i + 1) * entry_size <= buf.len(),
    ensures
        ({
            let base = i * entry_size;
            let guid = buf.subrange(base, base + 16);
            let first = le64(buf, base + 32);
            let last = le64(buf, base + 40);
            let used = (exists|k: int| 0 <= k < 16 && guid[k] != 0) && first != 0 && last >= first;
            let basic = guid == seq![0xA2u8, 0xA0u8, 0xD0u8, 0xEBu8, 0xE5u8, 0xB9u8, 0x33u8, 0x44u8,
                0x87u8, 0xC0u8, 0x68u8, 0xB6u8, 0xB7u8, 0x26u8, 0x99u8, 0xC7u8];
            &&& (gpt_entry(buf, entry_size, i) is Some <==> used)
            &&& used ==> gpt_entry(buf, entry_size, i)->Some_0.0 == first
                && gpt_entry(buf, entry_size, i)->Some_0.1 == last - first + 1
                && (basic ==> gpt_entry(buf, entry_size, i)->Some_0.2 == 0x0C)
                && (!basic ==> gpt_entry(buf, entry_size, i)->Some_0.2 == 0x01)
        }),
{
    let base = i * entry_size;
    assert(i * entry_size + entry_size == (i + 1) * entry_size) by (nonlinear_arith);
    assert(base + 48 <= buf.len());
    let guid = buf.subrange(base, base + 16);
    assert(basic_data_guid() =~= seq![0xA2u8, 0xA0u8, 0xD0u8, 0xEBu8, 0xE5u8, 0xB9u8, 0x33u8, 0x44u8,
        0x87u8, 0xC0u8, 0x68u8, 0xB6u8, 0xB7u8, 0x26u8, 0x99u8, 0xC7u8]);
}

/// MBR entry `i` (0 to 3) is the 16 bytes at 446 + 16 i: it is used when
/// its type byte (offset 4), first LBA (little-endian, offset 8) and
/// sector count (offset 12) are all non-zero, and then lists exactly
/// those three values.
pub proof fn lemma_mbr_entry_fields(sector0: Seq<u8>, i: int)
    requires
        0 <= i < 4,
        sector0.len() >= 512,
    ensures
        ({
            let t = sector0[446 + 16 * i + 4];
            let first = vstd::bytes::spec_u32_from_le_bytes(sector0.subrange(446 + 16 * i + 8, 446 + 16 * i + 12));
            let count = vstd::bytes::spec_u32_from_le_bytes(sector0.subrange(446 + 16 * i + 12, 446 + 16 * i + 16));
            &&& (mbr_entry(sector0, i) is Some <==> (t != 0 && first != 0 && count != 0))
            &&& mbr_entry(sector0, i) is Some ==> mbr_entry(sector0, i)->Some_0 == (first as u64, count as u64, t)
        }),
{
}

/// Sector 0 decides the layout: without the 0x55 0xAA signature at 510
/// the whole disk is one volume of type 0xFF; with it, a sector starting
/// with a jump (0xEB or 0xE9) is a FAT boot sector and the whole disk is
/// one volume of type 0x0C; otherwise a first entry of type 0xEE
/// (protective MBR) means GPT, and anything else a classic MBR.
pub proof fn lemma_layout_of_sector0(sector0: Seq<u8>)
    requires
        sector0.len() >= 512,
    ensures
        !(sector0[510] == 0x55 && sector0[511] == 0xAA) ==> layout_of(sector0) == DiskLayout::WholeDisk(0xFF),
        sector0[510] == 0x55 && sector0[511] == 0xAA && (sector0[0] == 0xEB || sector0[0] == 0xE9)
            ==> layout_of(sector0) == DiskLayout::WholeDisk(0x0C),
        sector0[510] == 0x55 && sector0[511] == 0xAA && sector0[0] != 0xEB && sector0[0] != 0xE9
            ==> (layout_of(sector0) == DiskLayout::Gpt <==> sector0[450] == 0xEE)
                && (layout_of(sector0) == DiskLayout::Mbr <==> sector0[450] != 0xEE),
{
}

fn guid_is_zero(g: &[u8]) -> (b: bool)
    requires
        g@.len() == 16,
    ensures
        b == forall|k: int| 0 <= k < 16 ==> g@[k] == 0,
{
    let mut k: usize = 0;
    while k < 16
        invariant
            g@.len() == 16,
            k <= 16,
            forall|j: int| 0 <= j < k ==> g@[j] == 0,
        decreases 16 - k,
    {
        if g[k] != 0 {
            return false;
        }
        k = k + 1;
    }
    true
}

/// Entries past those that fit in the buffer add nothing.
proof fn lemma_gpt_entries_fit(buf: Seq<u8>, entry_size: int, n: int, fit: int)
    requires
        entry_size > 0,
        0 <= fit,
        fit * entry_size <= buf.len(),
        (fit + 1) * entry_size > buf.len(),
        fit <= n,
    ensures
        gpt_entries(buf, entry_size, n) == gpt_entries(buf, entry_size, fit),
    decreases n - fit,
{
    if n > fit {
        lemma_gpt_entries_fit(buf, entry_size, n - 1, fit);
        assert(n * entry_size > buf.len()) by (nonlinear_arith)
            requires n >= fit + 1, (fit + 1) * entry_size > buf.len(), entry_size > 0;
    }
}

/// The partitions of a GPT entry array of `num_entries` entries of
/// `entry_size` bytes (entries past the buffer are left out).
pub fn parse_gpt_entries(buf: &[u8], num_entries: usize, entry_size: usize, disk_index: usize) -> (v: Vec<Partition>)
    requires
        48 <= entry_size <= 512,
    ensures
        v@.len() == gpt_entries(buf@, entry_size as int, num_entries as int).len(),
        forall|k: int| 0 <= k < v@.len() ==> #[trigger] v@[k] == (Partition {
            disk_index,
            part_index: k as usize,
            start_lba: gpt_entries(buf@, entry_size as int, num_entries as int)[k].0,
            sector_count: gpt_entries(buf@, entry_size as int, num_entries as int)[k].1,
            partition_type: gpt_entries(buf@, entry_size as int, num_entries as int)[k].2,
        }),
{
    let mut partitions: Vec<Partition> = Vec::new();
    let len = buf.len();
    let fit = len / entry_size;
    let count = if num_entries < fit { num_entries } else { fit };
    proof {
        assert(fit * entry_size <= len && (fit + 1) * entry_size > len) by (nonlinear_arith)
            requires fit == len / entry_size, entry_size > 0;
        if num_entries >= fit {
            lemma_gpt_entries_fit(buf@, entry_size as int, num_entries as int, fit as int);
        }
        assert(count * entry_size <= len) by (nonlinear_arith)
            requires count <= fit, fit * entry_size <= len, entry_size > 0;
    }
    let mut entry_index: usize = 0;
    while entry_index < count
        invariant
            len == buf@.len(),
            48 <= entry_size <= 512,
            count * entry_size <= len,
            entry_index <= count,
            partitions@.len() == gpt_entries(buf@, entry_size as int, entry_index as int).len(),
            forall|k: int| 0 <= k < partitions@.len() ==> #[trigger] partitions@[k] == (Partition {
                disk_index,
                part_index: k as usize,
                start_lba: gpt_entries(buf@, entry_size as int, entry_index as int)[k].0,
                sector_count: gpt_entries(buf@, entry_size as int, entry_index as int)[k].1,
                partition_type: gpt_entries(buf@, entry_size as int, entry_index as int)[k].2,
            }),
        decreases count - entry_index,
    {
        proof {
            assert(entry_index * entry_size + entry_size <= len) by (nonlinear_arith)
                requires entry_index + 1 <= count, entry_size > 0, count * entry_size <= len;
            assert((entry_index + 1) * entry_size <= len) by (nonlinear_arith)
                requires entry_index * entry_size + entry_size <= len;
        }
        let b = entry_index * entry_size;
        let guid = vstd::slice::slice_subrange(buf, b, b + 16);
        let start_lba = read_u64_le(buf, b + 32);
        let end_lba = read_u64_le(buf, b + 40);
        proof {
            assert(guid@ =~= buf@.subrange(b as int, b + 16));
        }
        if !(guid_is_zero(guid) || start_lba == 0 || end_lba < start_lba) {
            let is_basic = crate::read::bytes_equal(guid, basic_data_guid_bytes().as_slice());
            let partition_type: u8 = if is_basic { 0x0C } else { 0x01 };
            let part_index = partitions.len();
            partitions.push(Partition { disk_index, part_index, start_lba, sector_count: end_lba - start_lba + 1, partition_type });
        }
        proof {
            let bi = (entry_index * entry_size) as int;
            assert(bi == entry_index as int * entry_size as int);
        }
        entry_index = entry_index + 1;
    }
    partitions
}

fn basic_data_guid_bytes() -> (v: Vec<u8>)
    ensures
        v@ == basic_data_guid(),
{
    let v = vec![0xA2u8, 0xA0, 0xD0, 0xEB, 0xE5, 0xB9, 0x33, 0x44, 0x87, 0xC0, 0x68, 0xB6, 0xB7, 0x26, 0x99, 0xC7];
    assert(v@ =~= basic_data_guid());
    v
}

/// `v` lists the GPT entries found in an entry array `buf` of entries of
/// `entry_size` bytes (`n` announced), numbered in order on disk
/// `disk_index`.
pub open spec fn lists_gpt(v: Seq<Partition>, buf: Seq<u8>, entry_size: int, n: int, disk_index: usize) -> bool {
    &&& v.len() == gpt_entries(buf, entry_size, n).len()
    &&& forall|k: int| 0 <= k < v.len() ==> #[trigger] v[k] == (Partition {
        disk_index,
        part_index: k as usize,
        start_lba: gpt_entries(buf, entry_size, n)[k].0,
        sector_count: gpt_entries(buf, entry_size, n)[k].1,
        partition_type: gpt_entries(buf, entry_size, n)[k].2,
    })
}

/// `v` lists the MBR partitions of `sector0` on disk `disk_index` (the
/// whole disk of `count` sectors when there is none).
pub open spec fn lists_mbr(v: Seq<Partition>, sector0: Seq<u8>, disk_index: usize, count: u64) -> bool {
    &&& mbr_entries(sector0, 4).len() == 0 ==> v == seq![Partition { disk_index, part_index: 0, start_lba: 0, sector_count: count, partition_type: 0xFF }]
    &&& mbr_entries(sector0, 4).len() > 0 ==> v.len() == mbr_entries(sector0, 4).len()
        && forall|k: int| 0 <= k < v.len() ==> #[trigger] v[k] == (Partition {
            disk_index,
            part_index: k as usize,
            start_lba: mbr_entries(sector0, 4)[k].0,
            sector_count: mbr_entries(sector0, 4)[k].1,
            partition_type: mbr_entries(sector0, 4)[k].2,
        })
}

/// Read the GPT header and entry array of `disk` and list its partitions.
/// Empty when a read fails, the header signature is not "EFI PART", or the
/// entry size is 0 or above 512 (or below the 48 bytes an entry needs).
pub fn parse_gpt<D: BlockDevice>(disk: &D, disk_index: usize) -> (v: Vec<Partition>)
    ensures
        v@.len() == 0 || gpt_listing(disk.spec_contents(), v@, disk_index),
{
    let mut header = vec_of_zeros(512);
    if !disk.read_sectors(1, 1, header.as_mut_slice()) {
        return Vec::new();
    }
    if !crate::read::bytes_equal(vstd::slice::slice_subrange(header.as_slice(), 0, 8), "EFI PART".as_bytes()) {
        return Vec::new();
    }
    let entries_start_lba = read_u64_le(header.as_slice(), 72);
    let num_entries = read_u32_le(header.as_slice(), 80) as usize;
    let entry_size = read_u32_le(header.as_slice(), 84) as usize;
    if entry_size == 0 || entry_size > 512 || entry_size < 48 {
        return Vec::new();
    }
    let entries_per_sector = 512 / entry_size;
    assert(entries_per_sector >= 1) by (nonlinear_arith)
        requires entries_per_sector == 512usize / entry_size, 1usize <= entry_size <= 512usize;
    let whole = num_entries / entries_per_sector;
    let rest = num_entries % entries_per_sector;
    assert(rest != 0 ==> whole < num_entries) by (nonlinear_arith)
        requires whole == num_entries / entries_per_sector, rest == num_entries % entries_per_sector, entries_per_sector >= 1;
    let sectors_needed = whole + if rest == 0 { 0 } else { 1 };
    if sectors_needed > usize::MAX / 512 || sectors_needed > 0xFFFF_FFFF {
        return Vec::new();
    }
    let mut buf = vec_of_zeros(sectors_needed * 512);
    if !disk.read_sectors(entries_start_lba, sectors_needed as u32, buf.as_mut_slice()) {
        return Vec::new();
    }
    let v = parse_gpt_entries(buf.as_slice(), num_entries, entry_size, disk_index);
    proof {
        let c = disk.spec_contents();
        assert(header@.subrange(0, 512) =~= header@);
        assert(buf@.subrange(0, sectors_needed * 512) =~= buf@);
        assert(buf@.len() / 512 == sectors_needed);
        assert(lists_gpt(v@, buf@, entry_size as int, num_entries as int, disk_index));
    }
    v
}

/// `v` lists the GPT partitions of a device holding `contents`: the
/// header (sector 1) says "EFI PART", and `v` is what `lists_gpt` gives
/// for the entry array it points at (whole sectors from the sector at
/// byte 72), the entry count at byte 80 and the entry size (48 to 512) at
/// byte 84.
pub open spec fn gpt_listing(contents: Seq<u8>, v: Seq<Partition>, disk_index: usize) -> bool {
    let header = sectors_of(contents, 1, 1);
    &&& header.subrange(0, 8) == "EFI PART".spec_bytes()
    &&& 48 <= le32(header, 84) <= 512
    &&& exists|buf: Seq<u8>| #[trigger] lists_gpt(v, buf, le32(header, 84) as int, le32(header, 80) as int, disk_index)
        && buf == sectors_of(contents, le64(header, 72) as int, (buf.len() / 512) as int)
}

/// How sector 0 of a disk describes its layout.
#[derive(Clone, Copy, Debug, PartialEq, Eq, Structural)]
pub enum DiskLayout {
    /// No partition table: the whole disk is one volume of this type.
    WholeDisk(u8),
    /// A protective MBR: the partitions are in the GPT.
    Gpt,
    /// A classic MBR partition table.
    Mbr,
}

/// The layout that sector 0 describes: the whole disk (type 0xFF) without
/// the 0x55AA signature, the whole disk as FAT (type 0x0C) when it starts
/// with a jump instruction (a FAT boot sector), GPT when the first entry
/// has type 0xEE, else MBR.
pub open spec fn layout_of(sector0: Seq<u8>) -> DiskLayout {
    if sector0[510] != 0x55 || sector0[511] != 0xAA {
        DiskLayout::WholeDisk(0xFF)
    } else if sector0[0] == 0xEB || sector0[0] == 0xE9 {
        DiskLayout::WholeDisk(0x0C)
    } else if sector0[450] == 0xEE {
        DiskLayout::Gpt
    } else {
        DiskLayout::Mbr
    }
}

/// Tell from sector 0 how the disk is laid out.
pub fn classify_sector0(sector0: &[u8]) -> (l: DiskLayout)
    requires
        sector0@.len() >= 512,
    ensures
        l == layout_of(sector0@),
{
    if sector0[510] != 0x55 || sector0[511] != 0xAA {
        DiskLayout::WholeDisk(0xFF)
    } else if sector0[0] == 0xEB || sector0[0] == 0xE9 {
        DiskLayout::WholeDisk(0x0C)
    } else if sector0[446 + 4] == 0xEE {
        DiskLayout::Gpt
    } else {
        DiskLayout::Mbr
    }
}

/// The partitions of a disk: the whole disk when sector 0 lacks the MBR
/// signature (type 0xFF) or holds a FAT boot sector (type 0x0C); the GPT
/// partitions when the first MBR entry is a protective one; else the MBR
/// partitions.  Empty when sector 0 cannot be read.
pub fn enumerate_partitions<D: BlockDevice>(disk: &D, disk_index: usize) -> (v: Vec<Partition>)
    ensures
        v@.len() == 0 || {
            let sector0 = sectors_of(disk.spec_contents(), 0, 1);
            let count = (disk.spec_contents().len() / 512) as u64;
            &&& 512 <= disk.spec_contents().len()
            &&& match layout_of(sector0) {
                DiskLayout::WholeDisk(t) => v@ == seq![Partition { disk_index, part_index: 0, start_lba: 0, sector_count: count, partition_type: t }],
                DiskLayout::Gpt => gpt_listing(disk.spec_contents(), v@, disk_index),
                DiskLayout::Mbr => lists_mbr(v@, sector0, disk_index, count),
            }
        },
{
    let mut sector0 = vec_of_zeros(512);
    if !disk.read_sectors(0, 1, sector0.as_mut_slice()) {
        return Vec::new();
    }
    assert(sector0@.subrange(0, 512) =~= sector0@);
    match classify_sector0(sector0.as_slice()) {
        DiskLayout::WholeDisk(partition_type) => {
            let sector_count = disk.sector_count();
            let mut v: Vec<Partition> = Vec::new();
            v.push(Partition { disk_index, part_index: 0, start_lba: 0, sector_count, partition_type });
            assert(v@ =~= seq![Partition { disk_index, part_index: 0, start_lba: 0, sector_count, partition_type }]);
            v
        },
        DiskLayout::Gpt => {
            parse_gpt(disk, disk_index)
        },
        DiskLayout::Mbr => {
            let sector_count = disk.sector_count();
            let v = parse_mbr(sector0.as_slice(), disk_index, sector_count);
            assert(lists_mbr(v@, sector0@, disk_index, sector_count));
            v
        },
    }
}

} // verus!
