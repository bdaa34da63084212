//! Reading and validating the Btrfs superblock.

use vstd::prelude::*;
use vstd::slice::slice_subrange;
use crate::bytes::{vec_of_zeros, le16, le32, le64, read_array16, read_array32, read_u16_le, read_u32_le, read_u64_le};
use crate::crc32c;
use crate::disk::{sectors_of, BlockDevice};
use crate::ondisk::{
    BTRFS_CSUM_TYPE_CRC32C, BTRFS_LABEL_SIZE, BTRFS_MAGIC, BTRFS_SUPER_INFO_OFFSET, BTRFS_SUPER_INFO_SIZE, BTRFS_SYSTEM_CHUNK_ARRAY_SIZE, BtrfsDevItem, BtrfsSuperblock, SB_OFF_BYTENR, SB_OFF_BYTES_USED, SB_OFF_CACHE_GENERATION, SB_OFF_CHUNK_ROOT, SB_OFF_CHUNK_ROOT_GENERATION, SB_OFF_CHUNK_ROOT_LEVEL, SB_OFF_COMPAT_FLAGS, SB_OFF_COMPAT_RO_FLAGS, SB_OFF_CSUM, SB_OFF_CSUM_TYPE, SB_OFF_DEV_ITEM, SB_OFF_FLAGS, SB_OFF_FSID, SB_OFF_GENERATION, SB_OFF_INCOMPAT_FLAGS, SB_OFF_LABEL, SB_OFF_LOG_ROOT, SB_OFF_LOG_ROOT_LEVEL, SB_OFF_MAGIC, SB_OFF_METADATA_UUID, SB_OFF_NODESIZE, SB_OFF_NUM_DEVICES, SB_OFF_ROOT, SB_OFF_ROOT_DIR_OBJECTID, SB_OFF_ROOT_LEVEL, SB_OFF_SECTORSIZE, SB_OFF_STRIPESIZE, SB_OFF_SYS_CHUNK_ARRAY, SB_OFF_SYS_CHUNK_ARRAY_SIZE, SB_OFF_TOTAL_BYTES, SB_OFF_UUID_TREE_GENERATION,
};

verus! {

/// Errors returned by superblock operations.
#[derive(Clone, Copy, PartialEq, Eq, Structural, Debug)]
pub enum SuperblockError {
    /// Could not read sectors from the block device.
    ReadError,
    /// Magic number mismatch: not a Btrfs filesystem.
    BadMagic,
    /// Checksum mismatch.
    BadChecksum,
    /// Unsupported checksum type (only CRC32C is supported).
    UnsupportedChecksumType,
    /// nodesize or sectorsize is zero or nodesize < sectorsize.
    InvalidGeometry,
}

/// Bytes of the superblock that `parse_superblock` reads.
pub open spec fn superblock_min_len() -> int {
    0x2FBint + 2048int
}

/// `nodesize`/`sectorsize` are acceptable.
pub open spec fn geometry_ok(raw: Seq<u8>) -> bool {
    let nodesize = le32(raw, 0x94);
    let sectorsize = le32(raw, 0x90);
    nodesize != 0 && sectorsize != 0 && nodesize >= sectorsize
}

/// `sb` holds the fields stored in `raw`.
pub open spec fn superblock_fields(sb: BtrfsSuperblock, raw: Seq<u8>) -> bool {
    let sca_len = if le32(raw, 0xA0) < 2048 { le32(raw, 0xA0) as int } else { 2048 };
    &&& sb.csum@ == raw.subrange(0, 32)
    &&& sb.fsid@ == raw.subrange(0x20, 0x30)
    &&& sb.bytenr == le64(raw, 0x30)
    &&& sb.flags == le64(raw, 0x38)
    &&& sb.magic == le64(raw, 0x40)
    &&& sb.generation == le64(raw, 0x48)
    &&& sb.root == le64(raw, 0x50)
    &&& sb.chunk_root == le64(raw, 0x58)
    &&& sb.log_root == le64(raw, 0x60)
    &&& sb.total_bytes == le64(raw, 0x70)
    &&& sb.bytes_used == le64(raw, 0x78)
    &&& sb.root_dir_objectid == le64(raw, 0x80)
    &&& sb.num_devices == le64(raw, 0x88)
    &&& sb.sectorsize == le32(raw, 0x90)
    &&& sb.nodesize == le32(raw, 0x94)
    &&& sb.stripesize == le32(raw, 0x9C)
    &&& sb.sys_chunk_array_size == le32(raw, 0xA0)
    &&& sb.chunk_root_generation == le64(raw, 0xA4)
    &&& sb.compat_flags == le64(raw, 0xAC)
    &&& sb.compat_ro_flags == le64(raw, 0xB4)
    &&& sb.incompat_flags == le64(raw, 0xBC)
    &&& sb.csum_type == le16(raw, 0xC4)
    &&& sb.root_level == raw[0xC6]
    &&& sb.chunk_root_level == raw[0xC7]
    &&& sb.log_root_level == raw[0xC8]
    &&& sb.dev_item.parsed_from(raw.subrange(0xC9, raw.len() as int))
    &&& sb.label@ == raw.subrange(0x12B, 0x22B)
    &&& sb.cache_generation == le64(raw, 0x22B)
    &&& sb.uuid_tree_generation == le64(raw, 0x233)
    &&& sb.metadata_uuid@ == raw.subrange(0x23B, 0x24B)
    &&& sb.sys_chunk_array@.len() == 2048
    &&& sb.sys_chunk_array@.subrange(0, sca_len) == raw.subrange(0x2FB, 0x2FB + sca_len)
    &&& forall|i: int| sca_len <= i < 2048 ==> #[trigger] sb.sys_chunk_array@[i] == 0
}

/// Copy `n` bytes starting at `off` into a new vector, zero-padded to `total`.
fn copy_padded(raw: &[u8], off: usize, n: usize, total: usize) -> (v: Vec<u8>)
    requires
        off + n <= raw@.len(),
        n <= total,
    ensures
        v@.len() == total,
        v@.subrange(0, n as int) == raw@.subrange(off as int, off + n),
        forall|i: int| n <= i < total ==> #[trigger] v@[i] == 0,
{
    let mut v: Vec<u8> = Vec::new();
    let rlen = raw.len();
    let mut i: usize = 0;
    while i < total
        invariant
            rlen == raw@.len(),
            off + n <= rlen,
            n <= total,
            i <= total,
            v@.len() == i,
            forall|k: int| 0 <= k < i && k < n ==> #[trigger] v@[k] == raw@[off + k],
            forall|k: int| n <= k < i ==> #[trigger] v@[k] == 0,
        decreases total - i,
    {
        if i < n {
            v.push(raw[off + i]);
        } else {
            v.push(0u8);
        }
        i = i + 1;
    }
    assert(v@.subrange(0, n as int) =~= raw@.subrange(off as int, off + n));
    v
}

/// Parse the superblock fields from a raw superblock buffer.
fn parse_superblock(raw: &[u8]) -> (r: Result<BtrfsSuperblock, SuperblockError>)
    requires
        raw@.len() >= superblock_min_len(),
    ensures
        geometry_ok(raw@) <==> r is Ok,
        r is Err ==> r == Err::<BtrfsSuperblock, SuperblockError>(SuperblockError::InvalidGeometry),
        r matches Ok(sb) ==> superblock_fields(sb, raw@),
{
    let len = raw.len();
    let nodesize = read_u32_le(raw, SB_OFF_NODESIZE);
    let sectorsize = read_u32_le(raw, SB_OFF_SECTORSIZE);
    if nodesize == 0 || sectorsize == 0 || nodesize < sectorsize {
        return Err(SuperblockError::InvalidGeometry);
    }
    let sys_chunk_array_size = read_u32_le(raw, SB_OFF_SYS_CHUNK_ARRAY_SIZE);
    let sca_len: usize = if sys_chunk_array_size < 2048 { sys_chunk_array_size as usize } else { 2048 };
    let label = copy_padded(raw, SB_OFF_LABEL, BTRFS_LABEL_SIZE, BTRFS_LABEL_SIZE);
    let sys_chunk_array = copy_padded(raw, SB_OFF_SYS_CHUNK_ARRAY, sca_len, BTRFS_SYSTEM_CHUNK_ARRAY_SIZE);
    let dev_item = BtrfsDevItem::from_bytes(slice_subrange(raw, SB_OFF_DEV_ITEM, len));
    assert(label@ =~= label@.subrange(0, 256));
    Ok(BtrfsSuperblock {
        csum: read_array32(raw, SB_OFF_CSUM),
        fsid: read_array16(raw, SB_OFF_FSID),
        bytenr: read_u64_le(raw, SB_OFF_BYTENR),
        flags: read_u64_le(raw, SB_OFF_FLAGS),
        magic: read_u64_le(raw, SB_OFF_MAGIC),
        generation: read_u64_le(raw, SB_OFF_GENERATION),
        root: read_u64_le(raw, SB_OFF_ROOT),
        chunk_root: read_u64_le(raw, SB_OFF_CHUNK_ROOT),
        log_root: read_u64_le(raw, SB_OFF_LOG_ROOT),
        total_bytes: read_u64_le(raw, SB_OFF_TOTAL_BYTES),
        bytes_used: read_u64_le(raw, SB_OFF_BYTES_USED),
        root_dir_objectid: read_u64_le(raw, SB_OFF_ROOT_DIR_OBJECTID),
        num_devices: read_u64_le(raw, SB_OFF_NUM_DEVICES),
        sectorsize,
        nodesize,
        stripesize: read_u32_le(raw, SB_OFF_STRIPESIZE),
        sys_chunk_array_size,
        chunk_root_generation: read_u64_le(raw, SB_OFF_CHUNK_ROOT_GENERATION),
        compat_flags: read_u64_le(raw, SB_OFF_COMPAT_FLAGS),
        compat_ro_flags: read_u64_le(raw, SB_OFF_COMPAT_RO_FLAGS),
        incompat_flags: read_u64_le(raw, SB_OFF_INCOMPAT_FLAGS),
        csum_type: read_u16_le(raw, SB_OFF_CSUM_TYPE),
        root_level: raw[SB_OFF_ROOT_LEVEL],
        chunk_root_level: raw[SB_OFF_CHUNK_ROOT_LEVEL],
        log_root_level: raw[SB_OFF_LOG_ROOT_LEVEL],
        dev_item,
        label,
        cache_generation: read_u64_le(raw, SB_OFF_CACHE_GENERATION),
        uuid_tree_generation: read_u64_le(raw, SB_OFF_UUID_TREE_GENERATION),
        metadata_uuid: read_array16(raw, SB_OFF_METADATA_UUID),
        sys_chunk_array,
    })
}

/// The outcome of validating a 4096-byte raw superblock: the first check
/// that fails gives the error, in the order magic, checksum type, checksum,
/// geometry.
pub open spec fn validation_outcome(raw: Seq<u8>, r: Result<BtrfsSuperblock, SuperblockError>) -> bool {
    if le64(raw, 0x40) != BTRFS_MAGIC {
        r == Err::<BtrfsSuperblock, SuperblockError>(SuperblockError::BadMagic)
    } else if le16(raw, 0xC4) != BTRFS_CSUM_TYPE_CRC32C {
        r == Err::<BtrfsSuperblock, SuperblockError>(SuperblockError::UnsupportedChecksumType)
    } else if crc32c::spec_btrfs_checksum(raw.subrange(0x20, 4096)) != le32(raw, 0) {
        r == Err::<BtrfsSuperblock, SuperblockError>(SuperblockError::BadChecksum)
    } else if !geometry_ok(raw) {
        r == Err::<BtrfsSuperblock, SuperblockError>(SuperblockError::InvalidGeometry)
    } else {
        r matches Ok(sb) && superblock_fields(sb, raw)
    }
}

/// A superblock is accepted only with the magic "_BHRfS_M" (the
/// little-endian value 0x4D5F53665248425F) at 0x40, checksum type 0
/// (CRC32C) at 0xC4 and a stored checksum at 0 equal to the CRC32C of
/// bytes 0x20 to 4096; the checks come in that order, so a wrong magic is
/// reported whatever else is wrong, and a wrong checksum type before the
/// checksum is looked at.  An accepted superblock carries that magic.
pub proof fn lemma_superblock_acceptance(raw: Seq<u8>, r: Result<BtrfsSuperblock, SuperblockError>)
    requires
        validation_outcome(raw, r),
    ensures
        le64(raw, 0x40) != 0x4D5F53665248425F ==> r == Err::<BtrfsSuperblock, SuperblockError>(SuperblockError::BadMagic),
        le64(raw, 0x40) == 0x4D5F53665248425F && le16(raw, 0xC4) != 0
            ==> r == Err::<BtrfsSuperblock, SuperblockError>(SuperblockError::UnsupportedChecksumType),
        le64(raw, 0x40) == 0x4D5F53665248425F && le16(raw, 0xC4) == 0
            && crc32c::spec_btrfs_checksum(raw.subrange(0x20, 4096)) != le32(raw, 0)
            ==> r == Err::<BtrfsSuperblock, SuperblockError>(SuperblockError::BadChecksum),
        r is Ok ==> le64(raw, 0x40) == 0x4D5F53665248425F && le16(raw, 0xC4) == 0
            && crc32c::spec_btrfs_checksum(raw.subrange(0x20, 4096)) == le32(raw, 0)
            && r->Ok_0.magic == 0x4D5F53665248425F,
{
}

/// Validate a raw 4096-byte superblock (magic, checksum type, CRC32C
/// checksum of bytes 0x20..0x1000, geometry) and parse it.
pub fn validate_superblock(raw: &[u8]) -> (r: Result<BtrfsSuperblock, SuperblockError>)
    requires
        raw@.len() == BTRFS_SUPER_INFO_SIZE,
    ensures
        validation_outcome(raw@, r),
{
    let magic = read_u64_le(raw, SB_OFF_MAGIC);
    if magic != BTRFS_MAGIC {
        return Err(SuperblockError::BadMagic);
    }
    let csum_type = read_u16_le(raw, SB_OFF_CSUM_TYPE);
    if csum_type != BTRFS_CSUM_TYPE_CRC32C {
        return Err(SuperblockError::UnsupportedChecksumType);
    }
    let computed = crc32c::btrfs_checksum(slice_subrange(raw, 0x20, BTRFS_SUPER_INFO_SIZE));
    let stored = read_u32_le(raw, 0);
    if computed != stored {
        return Err(SuperblockError::BadChecksum);
    }
    parse_superblock(raw)
}

/// Read and validate the primary superblock from `disk` at `partition_start_lba`.
///
/// The superblock lives 64 KiB into the partition: one request of 8
/// sectors from sector `partition_start_lba + 128`.  `ReadError` when that
/// read fails; otherwise the result is what `validate_superblock` gives
/// for the 4096 bytes the device holds there.
pub fn read_superblock<D: BlockDevice>(disk: &D, partition_start_lba: u64) -> (r: Result<BtrfsSuperblock, SuperblockError>)
    requires
        partition_start_lba + 128 <= u64::MAX,
    ensures
        r != Err::<BtrfsSuperblock, SuperblockError>(SuperblockError::ReadError) ==>
            (partition_start_lba + 136) * 512 <= disk.spec_contents().len()
            && validation_outcome(sectors_of(disk.spec_contents(), partition_start_lba + 128, 8), r),
{
    let sb_sector = partition_start_lba + BTRFS_SUPER_INFO_OFFSET / 512;
    let mut raw: Vec<u8> = vec_of_zeros(BTRFS_SUPER_INFO_SIZE);
    if !disk.read_sectors(sb_sector, 8, raw.as_mut_slice()) {
        return Err(SuperblockError::ReadError);
    }
    assert(raw@.subrange(0, 4096) =~= raw@);
    validate_superblock(raw.as_slice())
}

/// The first 512 bytes of a superblock carry the Btrfs magic: the
/// little-endian `u64` at offset 0x40.
pub fn sector_has_btrfs_magic(sector: &[u8]) -> (b: bool)
    requires
        sector@.len() >= 0x48,
    ensures
        b == (le64(sector@, 0x40) == BTRFS_MAGIC),
{
    read_u64_le(sector, SB_OFF_MAGIC) == BTRFS_MAGIC
}

/// Quick probe: read the one sector where the superblock starts (sector
/// `partition_start_lba + 128`) and check it with `sector_has_btrfs_magic`;
/// no checksum is examined.  `false` when the read fails.
pub fn probe_btrfs_magic<D: BlockDevice>(disk: &D, partition_start_lba: u64) -> (b: bool)
    requires
        partition_start_lba + 128 <= u64::MAX,
    ensures
        b ==> le64(sectors_of(disk.spec_contents(), partition_start_lba + 128, 1), 0x40) == BTRFS_MAGIC,
{
    let sb_sector = partition_start_lba + BTRFS_SUPER_INFO_OFFSET / 512;
    let mut buf: Vec<u8> = vec_of_zeros(512);
    if !disk.read_sectors(sb_sector, 1, buf.as_mut_slice()) {
        return false;
    }
    assert(buf@.subrange(0, 512) =~= buf@);
    sector_has_btrfs_magic(buf.as_slice())
}

} // verus!
