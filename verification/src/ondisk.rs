//! Btrfs on-disk records: little-endian field layouts, parsing and
//! serialisation.

use vstd::prelude::*;
use vstd::bytes::*;
use vstd::slice::slice_subrange;
use crate::bytes::{
    le16, le32, le64, lemma_le_codec, push_slice, push_u16_le, push_u32_le, push_u64_le,
    read_array16, read_array32, read_u16_le, read_u32_le, read_u64_le, spliced, write_bytes_at,
};
use crate::crc32c;

verus! {

/// Btrfs superblock magic: "_BHRfS_M" as a little-endian u64.
pub const BTRFS_MAGIC: u64 = 0x4D5F53665248425F;
/// Byte offset of the primary superblock on the device.
pub const BTRFS_SUPER_INFO_OFFSET: u64 = 0x10000;
/// Size of the superblock in bytes.
pub const BTRFS_SUPER_INFO_SIZE: usize = 4096;
/// Maximum label length (including NUL terminator).
pub const BTRFS_LABEL_SIZE: usize = 256;
/// Size of the sys_chunk_array inside the superblock.
pub const BTRFS_SYSTEM_CHUNK_ARRAY_SIZE: usize = 2048;
/// Size of the checksum field in headers and the superblock.
pub const BTRFS_CSUM_SIZE: usize = 32;
/// Size of a UUID field.
pub const BTRFS_UUID_SIZE: usize = 16;

/// CRC32C (Castagnoli) — the only checksum type supported.
pub const BTRFS_CSUM_TYPE_CRC32C: u16 = 0;

/// Root tree.
pub const BTRFS_ROOT_TREE_OBJECTID: u64 = 1;
/// Extent tree.
pub const BTRFS_EXTENT_TREE_OBJECTID: u64 = 2;
/// Chunk tree (logical to physical mapping).
pub const BTRFS_CHUNK_TREE_OBJECTID: u64 = 3;
/// Device tree.
pub const BTRFS_DEV_TREE_OBJECTID: u64 = 4;
/// FS tree (default subvolume).
pub const BTRFS_FS_TREE_OBJECTID: u64 = 5;
/// Root directory objectid inside root tree.
pub const BTRFS_ROOT_TREE_DIR_OBJECTID: u64 = 6;
/// Checksum tree.
pub const BTRFS_CSUM_TREE_OBJECTID: u64 = 7;
/// UUID tree.
pub const BTRFS_UUID_TREE_OBJECTID: u64 = 9;
/// Free space tree.
pub const BTRFS_FREE_SPACE_TREE_OBJECTID: u64 = 10;
/// First free objectid for user files/dirs.
pub const BTRFS_FIRST_FREE_OBJECTID: u64 = 256;
/// Last free objectid.
pub const BTRFS_LAST_FREE_OBJECTID: u64 = 0xFFFF_FFFF_FFFF_FEFF;
/// First chunk tree item objectid.
pub const BTRFS_FIRST_CHUNK_TREE_OBJECTID: u64 = 256;
/// Dev items key objectid.
pub const BTRFS_DEV_ITEMS_OBJECTID: u64 = 1;

pub const BTRFS_INODE_ITEM_KEY: u8 = 1;
pub const BTRFS_INODE_REF_KEY: u8 = 12;
pub const BTRFS_INODE_EXTREF_KEY: u8 = 13;
pub const BTRFS_DIR_ITEM_KEY: u8 = 84;
pub const BTRFS_DIR_INDEX_KEY: u8 = 96;
pub const BTRFS_EXTENT_DATA_KEY: u8 = 108;
pub const BTRFS_EXTENT_ITEM_KEY: u8 = 168;
pub const BTRFS_METADATA_ITEM_KEY: u8 = 169;
pub const BTRFS_BLOCK_GROUP_ITEM_KEY: u8 = 192;
pub const BTRFS_DEV_ITEM_KEY: u8 = 216;
pub const BTRFS_CHUNK_ITEM_KEY: u8 = 228;
pub const BTRFS_ROOT_ITEM_KEY: u8 = 132;
pub const BTRFS_ROOT_REF_KEY: u8 = 156;
pub const BTRFS_ROOT_BACKREF_KEY: u8 = 144;
pub const BTRFS_FREE_SPACE_INFO_KEY: u8 = 198;
pub const BTRFS_FREE_SPACE_EXTENT_KEY: u8 = 199;

/// File type bits in a dir item (same as Linux d_type).
pub const BTRFS_FT_REG_FILE: u8 = 1;
pub const BTRFS_FT_DIR: u8 = 2;
pub const BTRFS_FT_CHRDEV: u8 = 3;
pub const BTRFS_FT_BLKDEV: u8 = 4;
pub const BTRFS_FT_FIFO: u8 = 5;
pub const BTRFS_FT_SOCK: u8 = 6;
pub const BTRFS_FT_SYMLINK: u8 = 7;

/// Extent data types.
pub const BTRFS_FILE_EXTENT_INLINE: u8 = 0;
pub const BTRFS_FILE_EXTENT_REG: u8 = 1;
pub const BTRFS_FILE_EXTENT_PREALLOC: u8 = 2;

pub const BTRFS_BLOCK_GROUP_DATA: u64 = 1;
pub const BTRFS_BLOCK_GROUP_SYSTEM: u64 = 2;
pub const BTRFS_BLOCK_GROUP_METADATA: u64 = 4;
/// Single profile (no RAID).
pub const BTRFS_BLOCK_GROUP_SINGLE: u64 = 0;

pub const BTRFS_FEATURE_INCOMPAT_MIXED_BACKREF: u64 = 1;
pub const BTRFS_FEATURE_INCOMPAT_DEFAULT_SUBVOL: u64 = 2;
pub const BTRFS_FEATURE_INCOMPAT_MIXED_GROUPS: u64 = 4;
pub const BTRFS_FEATURE_INCOMPAT_COMPRESS_LZO: u64 = 8;
pub const BTRFS_FEATURE_INCOMPAT_COMPRESS_ZSTD: u64 = 16;
pub const BTRFS_FEATURE_INCOMPAT_BIG_METADATA: u64 = 32;
pub const BTRFS_FEATURE_INCOMPAT_EXTENDED_IREF: u64 = 64;
pub const BTRFS_FEATURE_INCOMPAT_SKINNY_METADATA: u64 = 256;
pub const BTRFS_FEATURE_INCOMPAT_NO_HOLES: u64 = 512;

// Superblock field offsets.
pub const SB_OFF_CSUM: usize = 0x00;
pub const SB_OFF_FSID: usize = 0x20;
pub const SB_OFF_BYTENR: usize = 0x30;
pub const SB_OFF_FLAGS: usize = 0x38;
pub const SB_OFF_MAGIC: usize = 0x40;
pub const SB_OFF_GENERATION: usize = 0x48;
pub const SB_OFF_ROOT: usize = 0x50;
pub const SB_OFF_CHUNK_ROOT: usize = 0x58;
pub const SB_OFF_LOG_ROOT: usize = 0x60;
pub const SB_OFF_TOTAL_BYTES: usize = 0x70;
pub const SB_OFF_BYTES_USED: usize = 0x78;
pub const SB_OFF_ROOT_DIR_OBJECTID: usize = 0x80;
pub const SB_OFF_NUM_DEVICES: usize = 0x88;
pub const SB_OFF_SECTORSIZE: usize = 0x90;
pub const SB_OFF_NODESIZE: usize = 0x94;
pub const SB_OFF_STRIPESIZE: usize = 0x9C;
pub const SB_OFF_SYS_CHUNK_ARRAY_SIZE: usize = 0xA0;
pub const SB_OFF_CHUNK_ROOT_GENERATION: usize = 0xA4;
pub const SB_OFF_COMPAT_FLAGS: usize = 0xAC;
pub const SB_OFF_COMPAT_RO_FLAGS: usize = 0xB4;
pub const SB_OFF_INCOMPAT_FLAGS: usize = 0xBC;
pub const SB_OFF_CSUM_TYPE: usize = 0xC4;
pub const SB_OFF_ROOT_LEVEL: usize = 0xC6;
pub const SB_OFF_CHUNK_ROOT_LEVEL: usize = 0xC7;
pub const SB_OFF_LOG_ROOT_LEVEL: usize = 0xC8;
pub const SB_OFF_DEV_ITEM: usize = 0xC9;
pub const SB_OFF_LABEL: usize = 0x12B;
pub const SB_OFF_CACHE_GENERATION: usize = 0x22B;
pub const SB_OFF_UUID_TREE_GENERATION: usize = 0x233;
pub const SB_OFF_METADATA_UUID: usize = 0x23B;
pub const SB_OFF_SYS_CHUNK_ARRAY: usize = 0x2FB;

/// Result of comparing two keys.
#[derive(Clone, Copy, PartialEq, Eq, Structural, Debug)]
pub enum KeyOrder {
    Less,
    Equal,
    Greater,
}

/// Lexicographic order on (objectid, item_type, offset).
pub open spec fn key_lt(a: BtrfsKey, b: BtrfsKey) -> bool {
    ||| a.objectid < b.objectid
    ||| (a.objectid == b.objectid && a.item_type < b.item_type)
    ||| (a.objectid == b.objectid && a.item_type == b.item_type && a.offset < b.offset)
}

/// Non-strict lexicographic order on keys.
pub open spec fn key_le(a: BtrfsKey, b: BtrfsKey) -> bool {
    key_lt(a, b) || a == b
}


/// Keys are ordered by object id, then type, then offset: of two keys
/// exactly one is smaller unless they are equal, and the order is
/// transitive.
pub proof fn lemma_key_order(a: BtrfsKey, b: BtrfsKey, c: BtrfsKey)
    ensures
        a == b ==> !key_lt(a, b),
        a != b ==> key_lt(a, b) != key_lt(b, a),
        key_lt(a, b) && key_lt(b, c) ==> key_lt(a, c),
        key_lt(a, b) <==> (a.objectid < b.objectid || (a.objectid == b.objectid && (a.item_type < b.item_type
            || (a.item_type == b.item_type && a.offset < b.offset)))),
{
}

/// A Btrfs disk key: (objectid, type, offset), 17 bytes on disk.
#[derive(Clone, Copy, PartialEq, Eq, Structural, Debug)]
pub struct BtrfsKey {
    pub objectid: u64,
    pub item_type: u8,
    pub offset: u64,
}

impl BtrfsKey {
    /// Size of the on-disk record in bytes.
    pub const SIZE: usize = 17;

    /// Build a key from its three components.
    pub fn new(objectid: u64, item_type: u8, offset: u64) -> (k: Self)
        ensures
            k.objectid == objectid,
            k.item_type == item_type,
            k.offset == offset,
    {
        BtrfsKey { objectid, item_type, offset }
    }

    /// The zero key, which sorts before all real keys.
    pub fn zero() -> (k: Self)
        ensures
            k.objectid == 0 && k.item_type == 0 && k.offset == 0,
    {
        BtrfsKey { objectid: 0, item_type: 0, offset: 0 }
    }

    /// Three-way lexicographic comparison.
    pub fn compare(&self, other: &BtrfsKey) -> (o: KeyOrder)
        ensures
            o == KeyOrder::Less <==> key_lt(*self, *other),
            o == KeyOrder::Equal <==> *self == *other,
            o == KeyOrder::Greater <==> key_lt(*other, *self),
    {
        if self.objectid < other.objectid {
            KeyOrder::Less
        } else if self.objectid > other.objectid {
            KeyOrder::Greater
        } else if self.item_type < other.item_type {
            KeyOrder::Less
        } else if self.item_type > other.item_type {
            KeyOrder::Greater
        } else if self.offset < other.offset {
            KeyOrder::Less
        } else if self.offset > other.offset {
            KeyOrder::Greater
        } else {
            KeyOrder::Equal
        }
    }

    /// `self < other` in key order.
    pub fn less_than(&self, other: &BtrfsKey) -> (b: bool)
        ensures
            b == key_lt(*self, *other),
    {
        self.compare(other) == KeyOrder::Less
    }

    /// `self <= other` in key order.
    pub fn less_or_equal(&self, other: &BtrfsKey) -> (b: bool)
        ensures
            b == key_le(*self, *other),
    {
        self.compare(other) != KeyOrder::Greater
    }

    /// `self` is the record stored at the start of `b`.
    pub open spec fn parsed_from(self, b: Seq<u8>) -> bool {
        &&& self.objectid == le64(b, 0)
        &&& self.item_type == b[8]
        &&& self.offset == le64(b, 9)
    }

    /// The 17 bytes that store `self` on disk.
    pub open spec fn spec_encode(self) -> Seq<u8> {
        spec_u64_to_le_bytes(self.objectid)
            + seq![self.item_type]
            + spec_u64_to_le_bytes(self.offset)
    }

    /// Parse from a byte slice (at least 17 bytes).
    pub fn from_bytes(buf: &[u8]) -> (r: Self)
        requires
            buf@.len() >= 17,
        ensures
            r.parsed_from(buf@),
    {
        let len = buf.len();
        BtrfsKey {
            objectid: read_u64_le(buf, 0),
            item_type: buf[8],
            offset: read_u64_le(buf, 9),
        }
    }

    /// The on-disk bytes of `self`.
    pub fn encode(&self) -> (out: Vec<u8>)
        ensures
            out@ == self.spec_encode(),
    {
        let mut out: Vec<u8> = Vec::new();
        push_u64_le(&mut out, self.objectid);
        out.push(self.item_type);
        push_u64_le(&mut out, self.offset);
        assert(out@ =~= self.spec_encode());
        out
    }

    /// Serialize into the first 17 bytes of `buf`; the rest is left as it was.
    pub fn to_bytes(&self, buf: &mut [u8])
        requires
            old(buf)@.len() >= 17,
        ensures
            final(buf)@ == spliced(old(buf)@, 0, self.spec_encode()),
            final(buf)@.len() == old(buf)@.len(),
    {
        let enc = self.encode();
        proof { lemma_le_codec(); self.lemma_encode_len(); }
        write_bytes_at(buf, 0, enc.as_slice());
    }

    /// The encoding is 17 bytes long.
    pub proof fn lemma_encode_len(self)
        ensures
            self.spec_encode().len() == 17,
    {
        lemma_le_codec();
    }

    /// Parsing what `to_bytes` wrote gives back the same record, whatever follows it.
    pub proof fn lemma_roundtrip(self, rest: Seq<u8>)
        ensures
            self.parsed_from(self.spec_encode() + rest),
    {
        lemma_le_codec();
        self.lemma_encode_len();
        let whole = self.spec_encode() + rest;
        assert(whole.subrange(0, 8) =~= spec_u64_to_le_bytes(self.objectid));
        assert(whole[8] == self.item_type);
        assert(whole.subrange(9, 17) =~= spec_u64_to_le_bytes(self.offset));
    }
}

/// Header present at the start of every B-tree node (101 bytes).
#[derive(Clone, Copy, Debug)]
pub struct BtrfsHeader {
    pub csum: [u8; 32],
    pub fsid: [u8; 16],
    pub bytenr: u64,
    pub flags: u64,
    pub chunk_tree_uuid: [u8; 16],
    pub generation: u64,
    pub owner: u64,
    pub nritems: u32,
    pub level: u8,
}

impl BtrfsHeader {
    /// Size of the on-disk record in bytes.
    pub const SIZE: usize = 101;

    /// `self` is the record stored at the start of `b`.
    pub open spec fn parsed_from(self, b: Seq<u8>) -> bool {
        &&& self.csum@ == b.subrange(0, 32)
        &&& self.fsid@ == b.subrange(32, 48)
        &&& self.bytenr == le64(b, 48)
        &&& self.flags == le64(b, 56)
        &&& self.chunk_tree_uuid@ == b.subrange(64, 80)
        &&& self.generation == le64(b, 80)
        &&& self.owner == le64(b, 88)
        &&& self.nritems == le32(b, 96)
        &&& self.level == b[100]
    }

    /// The 101 bytes that store `self` on disk.
    pub open spec fn spec_encode(self) -> Seq<u8> {
        self.csum@
            + self.fsid@
            + spec_u64_to_le_bytes(self.bytenr)
            + spec_u64_to_le_bytes(self.flags)
            + self.chunk_tree_uuid@
            + spec_u64_to_le_bytes(self.generation)
            + spec_u64_to_le_bytes(self.owner)
            + spec_u32_to_le_bytes(self.nritems)
            + seq![self.level]
    }

    /// Parse from a byte slice (at least 101 bytes).
    pub fn from_bytes(buf: &[u8]) -> (r: Self)
        requires
            buf@.len() >= 101,
        ensures
            r.parsed_from(buf@),
    {
        let len = buf.len();
        BtrfsHeader {
            csum: read_array32(buf, 0),
            fsid: read_array16(buf, 32),
            bytenr: read_u64_le(buf, 48),
            flags: read_u64_le(buf, 56),
            chunk_tree_uuid: read_array16(buf, 64),
            generation: read_u64_le(buf, 80),
            owner: read_u64_le(buf, 88),
            nritems: read_u32_le(buf, 96),
            level: buf[100],
        }
    }

    /// The on-disk bytes of `self`.
    pub fn encode(&self) -> (out: Vec<u8>)
        ensures
            out@ == self.spec_encode(),
    {
        let mut out: Vec<u8> = Vec::new();
        push_slice(&mut out, self.csum.as_slice());
        push_slice(&mut out, self.fsid.as_slice());
        push_u64_le(&mut out, self.bytenr);
        push_u64_le(&mut out, self.flags);
        push_slice(&mut out, self.chunk_tree_uuid.as_slice());
        push_u64_le(&mut out, self.generation);
        push_u64_le(&mut out, self.owner);
        push_u32_le(&mut out, self.nritems);
        out.push(self.level);
        assert(out@ =~= self.spec_encode());
        out
    }

    /// Serialize into the first 101 bytes of `buf`; the rest is left as it was.
    pub fn to_bytes(&self, buf: &mut [u8])
        requires
            old(buf)@.len() >= 101,
        ensures
            final(buf)@ == spliced(old(buf)@, 0, self.spec_encode()),
            final(buf)@.len() == old(buf)@.len(),
    {
        let enc = self.encode();
        proof { lemma_le_codec(); self.lemma_encode_len(); }
        write_bytes_at(buf, 0, enc.as_slice());
    }

    /// The encoding is 101 bytes long.
    pub proof fn lemma_encode_len(self)
        ensures
            self.spec_encode().len() == 101,
    {
        lemma_le_codec();
    }

    /// Parsing what `to_bytes` wrote gives back the same record, whatever follows it.
    pub proof fn lemma_roundtrip(self, rest: Seq<u8>)
        ensures
            self.parsed_from(self.spec_encode() + rest),
    {
        lemma_le_codec();
        self.lemma_encode_len();
        let whole = self.spec_encode() + rest;
        assert(whole.subrange(0, 32) =~= self.csum@);
        assert(whole.subrange(32, 48) =~= self.fsid@);
        assert(whole.subrange(48, 56) =~= spec_u64_to_le_bytes(self.bytenr));
        assert(whole.subrange(56, 64) =~= spec_u64_to_le_bytes(self.flags));
        assert(whole.subrange(64, 80) =~= self.chunk_tree_uuid@);
        assert(whole.subrange(80, 88) =~= spec_u64_to_le_bytes(self.generation));
        assert(whole.subrange(88, 96) =~= spec_u64_to_le_bytes(self.owner));
        assert(whole.subrange(96, 100) =~= spec_u32_to_le_bytes(self.nritems));
        assert(whole[100] == self.level);
    }
}

/// An item descriptor inside a leaf node (25 bytes): key, data offset and size.
#[derive(Clone, Copy, Debug)]
pub struct BtrfsItem {
    pub key: BtrfsKey,
    pub offset: u32,
    pub size: u32,
}

impl BtrfsItem {
    /// Size of the on-disk record in bytes.
    pub const SIZE: usize = 25;

    /// `self` is the record stored at the start of `b`.
    pub open spec fn parsed_from(self, b: Seq<u8>) -> bool {
        &&& self.key.parsed_from(b.subrange(0, b.len() as int))
        &&& self.offset == le32(b, 17)
        &&& self.size == le32(b, 21)
    }

    /// The 25 bytes that store `self` on disk.
    pub open spec fn spec_encode(self) -> Seq<u8> {
        self.key.spec_encode()
            + spec_u32_to_le_bytes(self.offset)
            + spec_u32_to_le_bytes(self.size)
    }

    /// Parse from a byte slice (at least 25 bytes).
    pub fn from_bytes(buf: &[u8]) -> (r: Self)
        requires
            buf@.len() >= 25,
        ensures
            r.parsed_from(buf@),
    {
        let len = buf.len();
        BtrfsItem {
            key: BtrfsKey::from_bytes(slice_subrange(buf, 0, len)),
            offset: read_u32_le(buf, 17),
            size: read_u32_le(buf, 21),
        }
    }

    /// The on-disk bytes of `self`.
    pub fn encode(&self) -> (out: Vec<u8>)
        ensures
            out@ == self.spec_encode(),
    {
        let mut out: Vec<u8> = Vec::new();
        let mut part_key = self.key.encode();
        out.append(&mut part_key);
        push_u32_le(&mut out, self.offset);
        push_u32_le(&mut out, self.size);
        assert(out@ =~= self.spec_encode());
        out
    }

    /// Serialize into the first 25 bytes of `buf`; the rest is left as it was.
    pub fn to_bytes(&self, buf: &mut [u8])
        requires
            old(buf)@.len() >= 25,
        ensures
            final(buf)@ == spliced(old(buf)@, 0, self.spec_encode()),
            final(buf)@.len() == old(buf)@.len(),
    {
        let enc = self.encode();
        proof { lemma_le_codec(); self.lemma_encode_len(); }
        write_bytes_at(buf, 0, enc.as_slice());
    }

    /// The encoding is 25 bytes long.
    pub proof fn lemma_encode_len(self)
        ensures
            self.spec_encode().len() == 25,
    {
        lemma_le_codec();
        self.key.lemma_encode_len();
    }

    /// Parsing what `to_bytes` wrote gives back the same record, whatever follows it.
    pub proof fn lemma_roundtrip(self, rest: Seq<u8>)
        ensures
            self.parsed_from(self.spec_encode() + rest),
    {
        lemma_le_codec();
        self.lemma_encode_len();
        let whole = self.spec_encode() + rest;
        let tail_key = whole.subrange(17, whole.len() as int);
        self.key.lemma_encode_len();
        self.key.lemma_roundtrip(tail_key);
        assert(whole.subrange(0, whole.len() as int) =~= self.key.spec_encode() + tail_key);
        assert(whole.subrange(17, 21) =~= spec_u32_to_le_bytes(self.offset));
        assert(whole.subrange(21, 25) =~= spec_u32_to_le_bytes(self.size));
    }
}

/// A key/pointer pair inside an internal node (33 bytes).
#[derive(Clone, Copy, Debug)]
pub struct BtrfsKeyPtr {
    pub key: BtrfsKey,
    pub blockptr: u64,
    pub generation: u64,
}

impl BtrfsKeyPtr {
    /// Size of the on-disk record in bytes.
    pub const SIZE: usize = 33;

    /// `self` is the record stored at the start of `b`.
    pub open spec fn parsed_from(self, b: Seq<u8>) -> bool {
        &&& self.key.parsed_from(b.subrange(0, b.len() as int))
        &&& self.blockptr == le64(b, 17)
        &&& self.generation == le64(b, 25)
    }

    /// The 33 bytes that store `self` on disk.
    pub open spec fn spec_encode(self) -> Seq<u8> {
        self.key.spec_encode()
            + spec_u64_to_le_bytes(self.blockptr)
            + spec_u64_to_le_bytes(self.generation)
    }

    /// Parse from a byte slice (at least 33 bytes).
    pub fn from_bytes(buf: &[u8]) -> (r: Self)
        requires
            buf@.len() >= 33,
        ensures
            r.parsed_from(buf@),
    {
        let len = buf.len();
        BtrfsKeyPtr {
            key: BtrfsKey::from_bytes(slice_subrange(buf, 0, len)),
            blockptr: read_u64_le(buf, 17),
            generation: read_u64_le(buf, 25),
        }
    }

    /// The on-disk bytes of `self`.
    pub fn encode(&self) -> (out: Vec<u8>)
        ensures
            out@ == self.spec_encode(),
    {
        let mut out: Vec<u8> = Vec::new();
        let mut part_key = self.key.encode();
        out.append(&mut part_key);
        push_u64_le(&mut out, self.blockptr);
        push_u64_le(&mut out, self.generation);
        assert(out@ =~= self.spec_encode());
        out
    }

    /// Serialize into the first 33 bytes of `buf`; the rest is left as it was.
    pub fn to_bytes(&self, buf: &mut [u8])
        requires
            old(buf)@.len() >= 33,
        ensures
            final(buf)@ == spliced(old(buf)@, 0, self.spec_encode()),
            final(buf)@.len() == old(buf)@.len(),
    {
        let enc = self.encode();
        proof { lemma_le_codec(); self.lemma_encode_len(); }
        write_bytes_at(buf, 0, enc.as_slice());
    }

    /// The encoding is 33 bytes long.
    pub proof fn lemma_encode_len(self)
        ensures
            self.spec_encode().len() == 33,
    {
        lemma_le_codec();
        self.key.lemma_encode_len();
    }

    /// Parsing what `to_bytes` wrote gives back the same record, whatever follows it.
    pub proof fn lemma_roundtrip(self, rest: Seq<u8>)
        ensures
            self.parsed_from(self.spec_encode() + rest),
    {
        lemma_le_codec();
        self.lemma_encode_len();
        let whole = self.spec_encode() + rest;
        let tail_key = whole.subrange(17, whole.len() as int);
        self.key.lemma_encode_len();
        self.key.lemma_roundtrip(tail_key);
        assert(whole.subrange(0, whole.len() as int) =~= self.key.spec_encode() + tail_key);
        assert(whole.subrange(17, 25) =~= spec_u64_to_le_bytes(self.blockptr));
        assert(whole.subrange(25, 33) =~= spec_u64_to_le_bytes(self.generation));
    }
}

/// On-disk device item (98 bytes).
#[derive(Clone, Copy, Debug)]
pub struct BtrfsDevItem {
    pub devid: u64,
    pub total_bytes: u64,
    pub bytes_used: u64,
    pub io_align: u32,
    pub io_width: u32,
    pub sector_size: u32,
    pub dev_type: u64,
    pub generation: u64,
    pub start_offset: u64,
    pub dev_group: u32,
    pub seek_speed: u8,
    pub bandwidth: u8,
    pub uuid: [u8; 16],
    pub fsid: [u8; 16],
}

impl BtrfsDevItem {
    /// Size of the on-disk record in bytes.
    pub const SIZE: usize = 98;

    /// `self` is the record stored at the start of `b`.
    pub open spec fn parsed_from(self, b: Seq<u8>) -> bool {
        &&& self.devid == le64(b, 0)
        &&& self.total_bytes == le64(b, 8)
        &&& self.bytes_used == le64(b, 16)
        &&& self.io_align == le32(b, 24)
        &&& self.io_width == le32(b, 28)
        &&& self.sector_size == le32(b, 32)
        &&& self.dev_type == le64(b, 36)
        &&& self.generation == le64(b, 44)
        &&& self.start_offset == le64(b, 52)
        &&& self.dev_group == le32(b, 60)
        &&& self.seek_speed == b[64]
        &&& self.bandwidth == b[65]
        &&& self.uuid@ == b.subrange(66, 82)
        &&& self.fsid@ == b.subrange(82, 98)
    }

    /// The 98 bytes that store `self` on disk.
    pub open spec fn spec_encode(self) -> Seq<u8> {
        spec_u64_to_le_bytes(self.devid)
            + spec_u64_to_le_bytes(self.total_bytes)
            + spec_u64_to_le_bytes(self.bytes_used)
            + spec_u32_to_le_bytes(self.io_align)
            + spec_u32_to_le_bytes(self.io_width)
            + spec_u32_to_le_bytes(self.sector_size)
            + spec_u64_to_le_bytes(self.dev_type)
            + spec_u64_to_le_bytes(self.generation)
            + spec_u64_to_le_bytes(self.start_offset)
            + spec_u32_to_le_bytes(self.dev_group)
            + seq![self.seek_speed]
            + seq![self.bandwidth]
            + self.uuid@
            + self.fsid@
    }

    /// Parse from a byte slice (at least 98 bytes).
    pub fn from_bytes(buf: &[u8]) -> (r: Self)
        requires
            buf@.len() >= 98,
        ensures
            r.parsed_from(buf@),
    {
        let len = buf.len();
        BtrfsDevItem {
            devid: read_u64_le(buf, 0),
            total_bytes: read_u64_le(buf, 8),
            bytes_used: read_u64_le(buf, 16),
            io_align: read_u32_le(buf, 24),
            io_width: read_u32_le(buf, 28),
            sector_size: read_u32_le(buf, 32),
            dev_type: read_u64_le(buf, 36),
            generation: read_u64_le(buf, 44),
            start_offset: read_u64_le(buf, 52),
            dev_group: read_u32_le(buf, 60),
            seek_speed: buf[64],
            bandwidth: buf[65],
            uuid: read_array16(buf, 66),
            fsid: read_array16(buf, 82),
        }
    }

    /// The on-disk bytes of `self`.
    pub fn encode(&self) -> (out: Vec<u8>)
        ensures
            out@ == self.spec_encode(),
    {
        let mut out: Vec<u8> = Vec::new();
        push_u64_le(&mut out, self.devid);
        push_u64_le(&mut out, self.total_bytes);
        push_u64_le(&mut out, self.bytes_used);
        push_u32_le(&mut out, self.io_align);
        push_u32_le(&mut out, self.io_width);
        push_u32_le(&mut out, self.sector_size);
        push_u64_le(&mut out, self.dev_type);
        push_u64_le(&mut out, self.generation);
        push_u64_le(&mut out, self.start_offset);
        push_u32_le(&mut out, self.dev_group);
        out.push(self.seek_speed);
        out.push(self.bandwidth);
        push_slice(&mut out, self.uuid.as_slice());
        push_slice(&mut out, self.fsid.as_slice());
        assert(out@ =~= self.spec_encode());
        out
    }

    /// Serialize into the first 98 bytes of `buf`; the rest is left as it was.
    pub fn to_bytes(&self, buf: &mut [u8])
        requires
            old(buf)@.len() >= 98,
        ensures
            final(buf)@ == spliced(old(buf)@, 0, self.spec_encode()),
            final(buf)@.len() == old(buf)@.len(),
    {
        let enc = self.encode();
        proof { lemma_le_codec(); self.lemma_encode_len(); }
        write_bytes_at(buf, 0, enc.as_slice());
    }

    /// The encoding is 98 bytes long.
    pub proof fn lemma_encode_len(self)
        ensures
            self.spec_encode().len() == 98,
    {
        lemma_le_codec();
    }

    /// Parsing what `to_bytes` wrote gives back the same record, whatever follows it.
    pub proof fn lemma_roundtrip(self, rest: Seq<u8>)
        ensures
            self.parsed_from(self.spec_encode() + rest),
    {
        lemma_le_codec();
        self.lemma_encode_len();
        let whole = self.spec_encode() + rest;
        assert(whole.subrange(0, 8) =~= spec_u64_to_le_bytes(self.devid));
        assert(whole.subrange(8, 16) =~= spec_u64_to_le_bytes(self.total_bytes));
        assert(whole.subrange(16, 24) =~= spec_u64_to_le_bytes(self.bytes_used));
        assert(whole.subrange(24, 28) =~= spec_u32_to_le_bytes(self.io_align));
        assert(whole.subrange(28, 32) =~= spec_u32_to_le_bytes(self.io_width));
        assert(whole.subrange(32, 36) =~= spec_u32_to_le_bytes(self.sector_size));
        assert(whole.subrange(36, 44) =~= spec_u64_to_le_bytes(self.dev_type));
        assert(whole.subrange(44, 52) =~= spec_u64_to_le_bytes(self.generation));
        assert(whole.subrange(52, 60) =~= spec_u64_to_le_bytes(self.start_offset));
        assert(whole.subrange(60, 64) =~= spec_u32_to_le_bytes(self.dev_group));
        assert(whole[64] == self.seek_speed);
        assert(whole[65] == self.bandwidth);
        assert(whole.subrange(66, 82) =~= self.uuid@);
        assert(whole.subrange(82, 98) =~= self.fsid@);
    }
}

/// On-disk chunk item header (48 bytes), followed by `num_stripes` stripes.
#[derive(Clone, Copy, Debug)]
pub struct BtrfsChunkItem {
    pub length: u64,
    pub owner: u64,
    pub stripe_len: u64,
    pub chunk_type: u64,
    pub io_align: u32,
    pub io_width: u32,
    pub sector_size: u32,
    pub num_stripes: u16,
    pub sub_stripes: u16,
}

impl BtrfsChunkItem {
    /// Size of the on-disk record in bytes.
    pub const SIZE: usize = 48;

    /// `self` is the record stored at the start of `b`.
    pub open spec fn parsed_from(self, b: Seq<u8>) -> bool {
        &&& self.length == le64(b, 0)
        &&& self.owner == le64(b, 8)
        &&& self.stripe_len == le64(b, 16)
        &&& self.chunk_type == le64(b, 24)
        &&& self.io_align == le32(b, 32)
        &&& self.io_width == le32(b, 36)
        &&& self.sector_size == le32(b, 40)
        &&& self.num_stripes == le16(b, 44)
        &&& self.sub_stripes == le16(b, 46)
    }

    /// The 48 bytes that store `self` on disk.
    pub open spec fn spec_encode(self) -> Seq<u8> {
        spec_u64_to_le_bytes(self.length)
            + spec_u64_to_le_bytes(self.owner)
            + spec_u64_to_le_bytes(self.stripe_len)
            + spec_u64_to_le_bytes(self.chunk_type)
            + spec_u32_to_le_bytes(self.io_align)
            + spec_u32_to_le_bytes(self.io_width)
            + spec_u32_to_le_bytes(self.sector_size)
            + spec_u16_to_le_bytes(self.num_stripes)
            + spec_u16_to_le_bytes(self.sub_stripes)
    }

    /// Parse from a byte slice (at least 48 bytes).
    pub fn from_bytes(buf: &[u8]) -> (r: Self)
        requires
            buf@.len() >= 48,
        ensures
            r.parsed_from(buf@),
    {
        let len = buf.len();
        BtrfsChunkItem {
            length: read_u64_le(buf, 0),
            owner: read_u64_le(buf, 8),
            stripe_len: read_u64_le(buf, 16),
            chunk_type: read_u64_le(buf, 24),
            io_align: read_u32_le(buf, 32),
            io_width: read_u32_le(buf, 36),
            sector_size: read_u32_le(buf, 40),
            num_stripes: read_u16_le(buf, 44),
            sub_stripes: read_u16_le(buf, 46),
        }
    }

    /// The on-disk bytes of `self`.
    pub fn encode(&self) -> (out: Vec<u8>)
        ensures
            out@ == self.spec_encode(),
    {
        let mut out: Vec<u8> = Vec::new();
        push_u64_le(&mut out, self.length);
        push_u64_le(&mut out, self.owner);
        push_u64_le(&mut out, self.stripe_len);
        push_u64_le(&mut out, self.chunk_type);
        push_u32_le(&mut out, self.io_align);
        push_u32_le(&mut out, self.io_width);
        push_u32_le(&mut out, self.sector_size);
        push_u16_le(&mut out, self.num_stripes);
        push_u16_le(&mut out, self.sub_stripes);
        assert(out@ =~= self.spec_encode());
        out
    }

    /// Serialize into the first 48 bytes of `buf`; the rest is left as it was.
    pub fn to_bytes(&self, buf: &mut [u8])
        requires
            old(buf)@.len() >= 48,
        ensures
            final(buf)@ == spliced(old(buf)@, 0, self.spec_encode()),
            final(buf)@.len() == old(buf)@.len(),
    {
        let enc = self.encode();
        proof { lemma_le_codec(); self.lemma_encode_len(); }
        write_bytes_at(buf, 0, enc.as_slice());
    }

    /// The encoding is 48 bytes long.
    pub proof fn lemma_encode_len(self)
        ensures
            self.spec_encode().len() == 48,
    {
        lemma_le_codec();
    }

    /// Parsing what `to_bytes` wrote gives back the same record, whatever follows it.
    pub proof fn lemma_roundtrip(self, rest: Seq<u8>)
        ensures
            self.parsed_from(self.spec_encode() + rest),
    {
        lemma_le_codec();
        self.lemma_encode_len();
        let whole = self.spec_encode() + rest;
        assert(whole.subrange(0, 8) =~= spec_u64_to_le_bytes(self.length));
        assert(whole.subrange(8, 16) =~= spec_u64_to_le_bytes(self.owner));
        assert(whole.subrange(16, 24) =~= spec_u64_to_le_bytes(self.stripe_len));
        assert(whole.subrange(24, 32) =~= spec_u64_to_le_bytes(self.chunk_type));
        assert(whole.subrange(32, 36) =~= spec_u32_to_le_bytes(self.io_align));
        assert(whole.subrange(36, 40) =~= spec_u32_to_le_bytes(self.io_width));
        assert(whole.subrange(40, 44) =~= spec_u32_to_le_bytes(self.sector_size));
        assert(whole.subrange(44, 46) =~= spec_u16_to_le_bytes(self.num_stripes));
        assert(whole.subrange(46, 48) =~= spec_u16_to_le_bytes(self.sub_stripes));
    }
}

/// A single stripe within a chunk item (32 bytes).
#[derive(Clone, Copy, Debug)]
pub struct BtrfsStripe {
    pub devid: u64,
    pub offset: u64,
    pub dev_uuid: [u8; 16],
}

impl BtrfsStripe {
    /// Size of the on-disk record in bytes.
    pub const SIZE: usize = 32;

    /// `self` is the record stored at the start of `b`.
    pub open spec fn parsed_from(self, b: Seq<u8>) -> bool {
        &&& self.devid == le64(b, 0)
        &&& self.offset == le64(b, 8)
        &&& self.dev_uuid@ == b.subrange(16, 32)
    }

    /// The 32 bytes that store `self` on disk.
    pub open spec fn spec_encode(self) -> Seq<u8> {
        spec_u64_to_le_bytes(self.devid)
            + spec_u64_to_le_bytes(self.offset)
            + self.dev_uuid@
    }

    /// Parse from a byte slice (at least 32 bytes).
    pub fn from_bytes(buf: &[u8]) -> (r: Self)
        requires
            buf@.len() >= 32,
        ensures
            r.parsed_from(buf@),
    {
        let len = buf.len();
        BtrfsStripe {
            devid: read_u64_le(buf, 0),
            offset: read_u64_le(buf, 8),
            dev_uuid: read_array16(buf, 16),
        }
    }

    /// The on-disk bytes of `self`.
    pub fn encode(&self) -> (out: Vec<u8>)
        ensures
            out@ == self.spec_encode(),
    {
        let mut out: Vec<u8> = Vec::new();
        push_u64_le(&mut out, self.devid);
        push_u64_le(&mut out, self.offset);
        push_slice(&mut out, self.dev_uuid.as_slice());
        assert(out@ =~= self.spec_encode());
        out
    }

    /// Serialize into the first 32 bytes of `buf`; the rest is left as it was.
    pub fn to_bytes(&self, buf: &mut [u8])
        requires
            old(buf)@.len() >= 32,
        ensures
            final(buf)@ == spliced(old(buf)@, 0, self.spec_encode()),
            final(buf)@.len() == old(buf)@.len(),
    {
        let enc = self.encode();
        proof { lemma_le_codec(); self.lemma_encode_len(); }
        write_bytes_at(buf, 0, enc.as_slice());
    }

    /// The encoding is 32 bytes long.
    pub proof fn lemma_encode_len(self)
        ensures
            self.spec_encode().len() == 32,
    {
        lemma_le_codec();
    }

    /// Parsing what `to_bytes` wrote gives back the same record, whatever follows it.
    pub proof fn lemma_roundtrip(self, rest: Seq<u8>)
        ensures
            self.parsed_from(self.spec_encode() + rest),
    {
        lemma_le_codec();
        self.lemma_encode_len();
        let whole = self.spec_encode() + rest;
        assert(whole.subrange(0, 8) =~= spec_u64_to_le_bytes(self.devid));
        assert(whole.subrange(8, 16) =~= spec_u64_to_le_bytes(self.offset));
        assert(whole.subrange(16, 32) =~= self.dev_uuid@);
    }
}

/// On-disk timespec: seconds and nanoseconds (12 bytes).
#[derive(Clone, Copy, Debug)]
pub struct BtrfsTimespec {
    pub sec: u64,
    pub nsec: u32,
}

impl BtrfsTimespec {
    /// Size of the on-disk record in bytes.
    pub const SIZE: usize = 12;

    /// `self` is the record stored at the start of `b`.
    pub open spec fn parsed_from(self, b: Seq<u8>) -> bool {
        &&& self.sec == le64(b, 0)
        &&& self.nsec == le32(b, 8)
    }

    /// The 12 bytes that store `self` on disk.
    pub open spec fn spec_encode(self) -> Seq<u8> {
        spec_u64_to_le_bytes(self.sec)
            + spec_u32_to_le_bytes(self.nsec)
    }

    /// Parse from a byte slice (at least 12 bytes).
    pub fn from_bytes(buf: &[u8]) -> (r: Self)
        requires
            buf@.len() >= 12,
        ensures
            r.parsed_from(buf@),
    {
        let len = buf.len();
        BtrfsTimespec {
            sec: read_u64_le(buf, 0),
            nsec: read_u32_le(buf, 8),
        }
    }

    /// The on-disk bytes of `self`.
    pub fn encode(&self) -> (out: Vec<u8>)
        ensures
            out@ == self.spec_encode(),
    {
        let mut out: Vec<u8> = Vec::new();
        push_u64_le(&mut out, self.sec);
        push_u32_le(&mut out, self.nsec);
        assert(out@ =~= self.spec_encode());
        out
    }

    /// Serialize into the first 12 bytes of `buf`; the rest is left as it was.
    pub fn to_bytes(&self, buf: &mut [u8])
        requires
            old(buf)@.len() >= 12,
        ensures
            final(buf)@ == spliced(old(buf)@, 0, self.spec_encode()),
            final(buf)@.len() == old(buf)@.len(),
    {
        let enc = self.encode();
        proof { lemma_le_codec(); self.lemma_encode_len(); }
        write_bytes_at(buf, 0, enc.as_slice());
    }

    /// The encoding is 12 bytes long.
    pub proof fn lemma_encode_len(self)
        ensures
            self.spec_encode().len() == 12,
    {
        lemma_le_codec();
    }

    /// Parsing what `to_bytes` wrote gives back the same record, whatever follows it.
    pub proof fn lemma_roundtrip(self, rest: Seq<u8>)
        ensures
            self.parsed_from(self.spec_encode() + rest),
    {
        lemma_le_codec();
        self.lemma_encode_len();
        let whole = self.spec_encode() + rest;
        assert(whole.subrange(0, 8) =~= spec_u64_to_le_bytes(self.sec));
        assert(whole.subrange(8, 12) =~= spec_u32_to_le_bytes(self.nsec));
    }
}

/// On-disk inode item (160 bytes).
#[derive(Clone, Copy, Debug)]
pub struct BtrfsInodeItem {
    pub generation: u64,
    pub transid: u64,
    pub size: u64,
    pub nbytes: u64,
    pub block_group: u64,
    pub nlink: u32,
    pub uid: u32,
    pub gid: u32,
    pub mode: u32,
    pub rdev: u64,
    pub flags: u64,
    pub sequence: u64,
    pub reserved: [u64; 4],
    pub atime: BtrfsTimespec,
    pub ctime: BtrfsTimespec,
    pub mtime: BtrfsTimespec,
    pub otime: BtrfsTimespec,
}

impl BtrfsInodeItem {
    /// Size of the on-disk record in bytes.
    pub const SIZE: usize = 160;

    /// `mode` names a directory (S_IFDIR).
    pub fn is_directory(&self) -> (b: bool)
        ensures
            b == ((self.mode & 0o170000u32) == 0o040000u32),
    {
        (self.mode & 0o170000u32) == 0o040000u32
    }

    /// `mode` names a regular file (S_IFREG).
    pub fn is_regular_file(&self) -> (b: bool)
        ensures
            b == ((self.mode & 0o170000u32) == 0o100000u32),
    {
        (self.mode & 0o170000u32) == 0o100000u32
    }

    /// `mode` names a symbolic link (S_IFLNK).
    pub fn is_symlink(&self) -> (b: bool)
        ensures
            b == ((self.mode & 0o170000u32) == 0o120000u32),
    {
        (self.mode & 0o170000u32) == 0o120000u32
    }

    /// `self` is the record stored at the start of `b`.
    pub open spec fn parsed_from(self, b: Seq<u8>) -> bool {
        &&& self.generation == le64(b, 0)
        &&& self.transid == le64(b, 8)
        &&& self.size == le64(b, 16)
        &&& self.nbytes == le64(b, 24)
        &&& self.block_group == le64(b, 32)
        &&& self.nlink == le32(b, 40)
        &&& self.uid == le32(b, 44)
        &&& self.gid == le32(b, 48)
        &&& self.mode == le32(b, 52)
        &&& self.rdev == le64(b, 56)
        &&& self.flags == le64(b, 64)
        &&& self.sequence == le64(b, 72)
        &&& self.reserved@ == seq![le64(b, 80), le64(b, 88), le64(b, 96), le64(b, 104)]
        &&& self.atime.parsed_from(b.subrange(112, b.len() as int))
        &&& self.ctime.parsed_from(b.subrange(124, b.len() as int))
        &&& self.mtime.parsed_from(b.subrange(136, b.len() as int))
        &&& self.otime.parsed_from(b.subrange(148, b.len() as int))
    }

    /// The 160 bytes that store `self` on disk.
    pub open spec fn spec_encode(self) -> Seq<u8> {
        spec_u64_to_le_bytes(self.generation)
            + spec_u64_to_le_bytes(self.transid)
            + spec_u64_to_le_bytes(self.size)
            + spec_u64_to_le_bytes(self.nbytes)
            + spec_u64_to_le_bytes(self.block_group)
            + spec_u32_to_le_bytes(self.nlink)
            + spec_u32_to_le_bytes(self.uid)
            + spec_u32_to_le_bytes(self.gid)
            + spec_u32_to_le_bytes(self.mode)
            + spec_u64_to_le_bytes(self.rdev)
            + spec_u64_to_le_bytes(self.flags)
            + spec_u64_to_le_bytes(self.sequence)
            + spec_u64_to_le_bytes(self.reserved@[0]) + spec_u64_to_le_bytes(self.reserved@[1]) + spec_u64_to_le_bytes(self.reserved@[2]) + spec_u64_to_le_bytes(self.reserved@[3])
            + self.atime.spec_encode()
            + self.ctime.spec_encode()
            + self.mtime.spec_encode()
            + self.otime.spec_encode()
    }

    /// Parse from a byte slice (at least 160 bytes).
    pub fn from_bytes(buf: &[u8]) -> (r: Self)
        requires
            buf@.len() >= 160,
        ensures
            r.parsed_from(buf@),
    {
        let len = buf.len();
        BtrfsInodeItem {
            generation: read_u64_le(buf, 0),
            transid: read_u64_le(buf, 8),
            size: read_u64_le(buf, 16),
            nbytes: read_u64_le(buf, 24),
            block_group: read_u64_le(buf, 32),
            nlink: read_u32_le(buf, 40),
            uid: read_u32_le(buf, 44),
            gid: read_u32_le(buf, 48),
            mode: read_u32_le(buf, 52),
            rdev: read_u64_le(buf, 56),
            flags: read_u64_le(buf, 64),
            sequence: read_u64_le(buf, 72),
            reserved: [read_u64_le(buf, 80), read_u64_le(buf, 88), read_u64_le(buf, 96), read_u64_le(buf, 104)],
            atime: BtrfsTimespec::from_bytes(slice_subrange(buf, 112, len)),
            ctime: BtrfsTimespec::from_bytes(slice_subrange(buf, 124, len)),
            mtime: BtrfsTimespec::from_bytes(slice_subrange(buf, 136, len)),
            otime: BtrfsTimespec::from_bytes(slice_subrange(buf, 148, len)),
        }
    }

    /// The on-disk bytes of `self`.
    pub fn encode(&self) -> (out: Vec<u8>)
        ensures
            out@ == self.spec_encode(),
    {
        let mut out: Vec<u8> = Vec::new();
        push_u64_le(&mut out, self.generation);
        push_u64_le(&mut out, self.transid);
        push_u64_le(&mut out, self.size);
        push_u64_le(&mut out, self.nbytes);
        push_u64_le(&mut out, self.block_group);
        push_u32_le(&mut out, self.nlink);
        push_u32_le(&mut out, self.uid);
        push_u32_le(&mut out, self.gid);
        push_u32_le(&mut out, self.mode);
        push_u64_le(&mut out, self.rdev);
        push_u64_le(&mut out, self.flags);
        push_u64_le(&mut out, self.sequence);
        push_u64_le(&mut out, self.reserved[0]);
        push_u64_le(&mut out, self.reserved[1]);
        push_u64_le(&mut out, self.reserved[2]);
        push_u64_le(&mut out, self.reserved[3]);
        let mut part_atime = self.atime.encode();
        out.append(&mut part_atime);
        let mut part_ctime = self.ctime.encode();
        out.append(&mut part_ctime);
        let mut part_mtime = self.mtime.encode();
        out.append(&mut part_mtime);
        let mut part_otime = self.otime.encode();
        out.append(&mut part_otime);
        assert(out@ =~= self.spec_encode());
        out
    }

    /// Serialize into the first 160 bytes of `buf`; the rest is left as it was.
    pub fn to_bytes(&self, buf: &mut [u8])
        requires
            old(buf)@.len() >= 160,
        ensures
            final(buf)@ == spliced(old(buf)@, 0, self.spec_encode()),
            final(buf)@.len() == old(buf)@.len(),
    {
        let enc = self.encode();
        proof { lemma_le_codec(); self.lemma_encode_len(); }
        write_bytes_at(buf, 0, enc.as_slice());
    }

    /// The encoding is 160 bytes long.
    pub proof fn lemma_encode_len(self)
        ensures
            self.spec_encode().len() == 160,
    {
        lemma_le_codec();
        self.atime.lemma_encode_len();
        self.ctime.lemma_encode_len();
        self.mtime.lemma_encode_len();
        self.otime.lemma_encode_len();
    }

    /// Parsing what `to_bytes` wrote gives back the same record, whatever follows it.
    pub proof fn lemma_roundtrip(self, rest: Seq<u8>)
        ensures
            self.parsed_from(self.spec_encode() + rest),
    {
        lemma_le_codec();
        self.lemma_encode_len();
        let whole = self.spec_encode() + rest;
        assert(whole.subrange(0, 8) =~= spec_u64_to_le_bytes(self.generation));
        assert(whole.subrange(8, 16) =~= spec_u64_to_le_bytes(self.transid));
        assert(whole.subrange(16, 24) =~= spec_u64_to_le_bytes(self.size));
        assert(whole.subrange(24, 32) =~= spec_u64_to_le_bytes(self.nbytes));
        assert(whole.subrange(32, 40) =~= spec_u64_to_le_bytes(self.block_group));
        assert(whole.subrange(40, 44) =~= spec_u32_to_le_bytes(self.nlink));
        assert(whole.subrange(44, 48) =~= spec_u32_to_le_bytes(self.uid));
        assert(whole.subrange(48, 52) =~= spec_u32_to_le_bytes(self.gid));
        assert(whole.subrange(52, 56) =~= spec_u32_to_le_bytes(self.mode));
        assert(whole.subrange(56, 64) =~= spec_u64_to_le_bytes(self.rdev));
        assert(whole.subrange(64, 72) =~= spec_u64_to_le_bytes(self.flags));
        assert(whole.subrange(72, 80) =~= spec_u64_to_le_bytes(self.sequence));
        assert(whole.subrange(80, 88) =~= spec_u64_to_le_bytes(self.reserved@[0]));
        assert(whole.subrange(88, 96) =~= spec_u64_to_le_bytes(self.reserved@[1]));
        assert(whole.subrange(96, 104) =~= spec_u64_to_le_bytes(self.reserved@[2]));
        assert(whole.subrange(104, 112) =~= spec_u64_to_le_bytes(self.reserved@[3]));
        assert(self.reserved@ =~= seq![le64(whole, 80), le64(whole, 88), le64(whole, 96), le64(whole, 104)]);
        let tail_atime = whole.subrange(124, whole.len() as int);
        self.atime.lemma_encode_len();
        self.atime.lemma_roundtrip(tail_atime);
        assert(whole.subrange(112, whole.len() as int) =~= self.atime.spec_encode() + tail_atime);
        let tail_ctime = whole.subrange(136, whole.len() as int);
        self.ctime.lemma_encode_len();
        self.ctime.lemma_roundtrip(tail_ctime);
        assert(whole.subrange(124, whole.len() as int) =~= self.ctime.spec_encode() + tail_ctime);
        let tail_mtime = whole.subrange(148, whole.len() as int);
        self.mtime.lemma_encode_len();
        self.mtime.lemma_roundtrip(tail_mtime);
        assert(whole.subrange(136, whole.len() as int) =~= self.mtime.spec_encode() + tail_mtime);
        let tail_otime = whole.subrange(160, whole.len() as int);
        self.otime.lemma_encode_len();
        self.otime.lemma_roundtrip(tail_otime);
        assert(whole.subrange(148, whole.len() as int) =~= self.otime.spec_encode() + tail_otime);
    }
}

/// On-disk root item (the first 375 of its 439 bytes carry the fields below).
#[derive(Clone, Copy, Debug)]
pub struct BtrfsRootItem {
    pub inode: BtrfsInodeItem,
    pub generation: u64,
    pub root_dirid: u64,
    pub bytenr: u64,
    pub byte_limit: u64,
    pub bytes_used: u64,
    pub last_snapshot: u64,
    pub flags: u64,
    pub refs_count: u32,
    pub drop_progress: BtrfsKey,
    pub drop_level: u8,
    pub level: u8,
    pub generation_v2: u64,
    pub uuid: [u8; 16],
    pub parent_uuid: [u8; 16],
    pub received_uuid: [u8; 16],
    pub ctransid: u64,
    pub otransid: u64,
    pub stransid: u64,
    pub rtransid: u64,
    pub ctime: BtrfsTimespec,
    pub otime: BtrfsTimespec,
    pub stime: BtrfsTimespec,
    pub rtime: BtrfsTimespec,
}

impl BtrfsRootItem {
    /// Size of the on-disk record in bytes.
    pub const SIZE: usize = 439;

    /// `self` is the record stored at the start of `b`.
    pub open spec fn parsed_from(self, b: Seq<u8>) -> bool {
        &&& self.inode.parsed_from(b.subrange(0, b.len() as int))
        &&& self.generation == le64(b, 160)
        &&& self.root_dirid == le64(b, 168)
        &&& self.bytenr == le64(b, 176)
        &&& self.byte_limit == le64(b, 184)
        &&& self.bytes_used == le64(b, 192)
        &&& self.last_snapshot == le64(b, 200)
        &&& self.flags == le64(b, 208)
        &&& self.refs_count == le32(b, 216)
        &&& self.drop_progress.parsed_from(b.subrange(220, b.len() as int))
        &&& self.drop_level == b[237]
        &&& self.level == b[238]
        &&& self.generation_v2 == le64(b, 239)
        &&& self.uuid@ == b.subrange(247, 263)
        &&& self.parent_uuid@ == b.subrange(263, 279)
        &&& self.received_uuid@ == b.subrange(279, 295)
        &&& self.ctransid == le64(b, 295)
        &&& self.otransid == le64(b, 303)
        &&& self.stransid == le64(b, 311)
        &&& self.rtransid == le64(b, 319)
        &&& self.ctime.parsed_from(b.subrange(327, b.len() as int))
        &&& self.otime.parsed_from(b.subrange(339, b.len() as int))
        &&& self.stime.parsed_from(b.subrange(351, b.len() as int))
        &&& self.rtime.parsed_from(b.subrange(363, b.len() as int))
    }

    /// The 375 bytes that store `self` on disk.
    pub open spec fn spec_encode(self) -> Seq<u8> {
        self.inode.spec_encode()
            + spec_u64_to_le_bytes(self.generation)
            + spec_u64_to_le_bytes(self.root_dirid)
            + spec_u64_to_le_bytes(self.bytenr)
            + spec_u64_to_le_bytes(self.byte_limit)
            + spec_u64_to_le_bytes(self.bytes_used)
            + spec_u64_to_le_bytes(self.last_snapshot)
            + spec_u64_to_le_bytes(self.flags)
            + spec_u32_to_le_bytes(self.refs_count)
            + self.drop_progress.spec_encode()
            + seq![self.drop_level]
            + seq![self.level]
            + spec_u64_to_le_bytes(self.generation_v2)
            + self.uuid@
            + self.parent_uuid@
            + self.received_uuid@
            + spec_u64_to_le_bytes(self.ctransid)
            + spec_u64_to_le_bytes(self.otransid)
            + spec_u64_to_le_bytes(self.stransid)
            + spec_u64_to_le_bytes(self.rtransid)
            + self.ctime.spec_encode()
            + self.otime.spec_encode()
            + self.stime.spec_encode()
            + self.rtime.spec_encode()
    }

    /// Parse from a byte slice (at least 375 bytes).
    pub fn from_bytes(buf: &[u8]) -> (r: Self)
        requires
            buf@.len() >= 375,
        ensures
            r.parsed_from(buf@),
    {
        let len = buf.len();
        BtrfsRootItem {
            inode: BtrfsInodeItem::from_bytes(slice_subrange(buf, 0, len)),
            generation: read_u64_le(buf, 160),
            root_dirid: read_u64_le(buf, 168),
            bytenr: read_u64_le(buf, 176),
            byte_limit: read_u64_le(buf, 184),
            bytes_used: read_u64_le(buf, 192),
            last_snapshot: read_u64_le(buf, 200),
            flags: read_u64_le(buf, 208),
            refs_count: read_u32_le(buf, 216),
            drop_progress: BtrfsKey::from_bytes(slice_subrange(buf, 220, len)),
            drop_level: buf[237],
            level: buf[238],
            generation_v2: read_u64_le(buf, 239),
            uuid: read_array16(buf, 247),
            parent_uuid: read_array16(buf, 263),
            received_uuid: read_array16(buf, 279),
            ctransid: read_u64_le(buf, 295),
            otransid: read_u64_le(buf, 303),
            stransid: read_u64_le(buf, 311),
            rtransid: read_u64_le(buf, 319),
            ctime: BtrfsTimespec::from_bytes(slice_subrange(buf, 327, len)),
            otime: BtrfsTimespec::from_bytes(slice_subrange(buf, 339, len)),
            stime: BtrfsTimespec::from_bytes(slice_subrange(buf, 351, len)),
            rtime: BtrfsTimespec::from_bytes(slice_subrange(buf, 363, len)),
        }
    }

    /// The on-disk bytes of `self`.
    pub fn encode(&self) -> (out: Vec<u8>)
        ensures
            out@ == self.spec_encode(),
    {
        let mut out: Vec<u8> = Vec::new();
        let mut part_inode = self.inode.encode();
        out.append(&mut part_inode);
        push_u64_le(&mut out, self.generation);
        push_u64_le(&mut out, self.root_dirid);
        push_u64_le(&mut out, self.bytenr);
        push_u64_le(&mut out, self.byte_limit);
        push_u64_le(&mut out, self.bytes_used);
        push_u64_le(&mut out, self.last_snapshot);
        push_u64_le(&mut out, self.flags);
        push_u32_le(&mut out, self.refs_count);
        let mut part_drop_progress = self.drop_progress.encode();
        out.append(&mut part_drop_progress);
        out.push(self.drop_level);
        out.push(self.level);
        push_u64_le(&mut out, self.generation_v2);
        push_slice(&mut out, self.uuid.as_slice());
        push_slice(&mut out, self.parent_uuid.as_slice());
        push_slice(&mut out, self.received_uuid.as_slice());
        push_u64_le(&mut out, self.ctransid);
        push_u64_le(&mut out, self.otransid);
        push_u64_le(&mut out, self.stransid);
        push_u64_le(&mut out, self.rtransid);
        let mut part_ctime = self.ctime.encode();
        out.append(&mut part_ctime);
        let mut part_otime = self.otime.encode();
        out.append(&mut part_otime);
        let mut part_stime = self.stime.encode();
        out.append(&mut part_stime);
        let mut part_rtime = self.rtime.encode();
        out.append(&mut part_rtime);
        assert(out@ =~= self.spec_encode());
        out
    }

    /// Serialize into the first 375 bytes of `buf`; the rest is left as it was.
    pub fn to_bytes(&self, buf: &mut [u8])
        requires
            old(buf)@.len() >= 375,
        ensures
            final(buf)@ == spliced(old(buf)@, 0, self.spec_encode()),
            final(buf)@.len() == old(buf)@.len(),
    {
        let enc = self.encode();
        proof { lemma_le_codec(); self.lemma_encode_len(); }
        write_bytes_at(buf, 0, enc.as_slice());
    }

    /// The encoding is 375 bytes long.
    pub proof fn lemma_encode_len(self)
        ensures
            self.spec_encode().len() == 375,
    {
        lemma_le_codec();
        self.inode.lemma_encode_len();
        self.drop_progress.lemma_encode_len();
        self.ctime.lemma_encode_len();
        self.otime.lemma_encode_len();
        self.stime.lemma_encode_len();
        self.rtime.lemma_encode_len();
    }

    /// Parsing what `to_bytes` wrote gives back the same record, whatever follows it.
    pub proof fn lemma_roundtrip(self, rest: Seq<u8>)
        ensures
            self.parsed_from(self.spec_encode() + rest),
    {
        lemma_le_codec();
        self.lemma_encode_len();
        let whole = self.spec_encode() + rest;
        let tail_inode = whole.subrange(160, whole.len() as int);
        self.inode.lemma_encode_len();
        self.inode.lemma_roundtrip(tail_inode);
        assert(whole.subrange(0, whole.len() as int) =~= self.inode.spec_encode() + tail_inode);
        assert(whole.subrange(160, 168) =~= spec_u64_to_le_bytes(self.generation));
        assert(whole.subrange(168, 176) =~= spec_u64_to_le_bytes(self.root_dirid));
        assert(whole.subrange(176, 184) =~= spec_u64_to_le_bytes(self.bytenr));
        assert(whole.subrange(184, 192) =~= spec_u64_to_le_bytes(self.byte_limit));
        assert(whole.subrange(192, 200) =~= spec_u64_to_le_bytes(self.bytes_used));
        assert(whole.subrange(200, 208) =~= spec_u64_to_le_bytes(self.last_snapshot));
        assert(whole.subrange(208, 216) =~= spec_u64_to_le_bytes(self.flags));
        assert(whole.subrange(216, 220) =~= spec_u32_to_le_bytes(self.refs_count));
        let tail_drop_progress = whole.subrange(237, whole.len() as int);
        self.drop_progress.lemma_encode_len();
        self.drop_progress.lemma_roundtrip(tail_drop_progress);
        assert(whole.subrange(220, whole.len() as int) =~= self.drop_progress.spec_encode() + tail_drop_progress);
        assert(whole[237] == self.drop_level);
        assert(whole[238] == self.level);
        assert(whole.subrange(239, 247) =~= spec_u64_to_le_bytes(self.generation_v2));
        assert(whole.subrange(247, 263) =~= self.uuid@);
        assert(whole.subrange(263, 279) =~= self.parent_uuid@);
        assert(whole.subrange(279, 295) =~= self.received_uuid@);
        assert(whole.subrange(295, 303) =~= spec_u64_to_le_bytes(self.ctransid));
        assert(whole.subrange(303, 311) =~= spec_u64_to_le_bytes(self.otransid));
        assert(whole.subrange(311, 319) =~= spec_u64_to_le_bytes(self.stransid));
        assert(whole.subrange(319, 327) =~= spec_u64_to_le_bytes(self.rtransid));
        let tail_ctime = whole.subrange(339, whole.len() as int);
        self.ctime.lemma_encode_len();
        self.ctime.lemma_roundtrip(tail_ctime);
        assert(whole.subrange(327, whole.len() as int) =~= self.ctime.spec_encode() + tail_ctime);
        let tail_otime = whole.subrange(351, whole.len() as int);
        self.otime.lemma_encode_len();
        self.otime.lemma_roundtrip(tail_otime);
        assert(whole.subrange(339, whole.len() as int) =~= self.otime.spec_encode() + tail_otime);
        let tail_stime = whole.subrange(363, whole.len() as int);
        self.stime.lemma_encode_len();
        self.stime.lemma_roundtrip(tail_stime);
        assert(whole.subrange(351, whole.len() as int) =~= self.stime.spec_encode() + tail_stime);
        let tail_rtime = whole.subrange(375, whole.len() as int);
        self.rtime.lemma_encode_len();
        self.rtime.lemma_roundtrip(tail_rtime);
        assert(whole.subrange(363, whole.len() as int) =~= self.rtime.spec_encode() + tail_rtime);
    }
}

/// On-disk inode reference header (10 bytes), followed by the name.
#[derive(Clone, Copy, Debug)]
pub struct BtrfsInodeRef {
    pub index: u64,
    pub name_len: u16,
}

impl BtrfsInodeRef {
    /// Size of the fixed header in bytes.
    pub const HEADER_SIZE: usize = 10;

    /// `self` is the record stored at the start of `b`.
    pub open spec fn parsed_from(self, b: Seq<u8>) -> bool {
        &&& self.index == le64(b, 0)
        &&& self.name_len == le16(b, 8)
    }

    /// The 10 bytes that store `self` on disk.
    pub open spec fn spec_encode(self) -> Seq<u8> {
        spec_u64_to_le_bytes(self.index)
            + spec_u16_to_le_bytes(self.name_len)
    }

    /// Parse from a byte slice (at least 10 bytes).
    pub fn from_bytes(buf: &[u8]) -> (r: Self)
        requires
            buf@.len() >= 10,
        ensures
            r.parsed_from(buf@),
    {
        let len = buf.len();
        BtrfsInodeRef {
            index: read_u64_le(buf, 0),
            name_len: read_u16_le(buf, 8),
        }
    }

    /// The on-disk bytes of `self`.
    pub fn encode(&self) -> (out: Vec<u8>)
        ensures
            out@ == self.spec_encode(),
    {
        let mut out: Vec<u8> = Vec::new();
        push_u64_le(&mut out, self.index);
        push_u16_le(&mut out, self.name_len);
        assert(out@ =~= self.spec_encode());
        out
    }

    /// Serialize into the first 10 bytes of `buf`; the rest is left as it was.
    pub fn to_bytes(&self, buf: &mut [u8])
        requires
            old(buf)@.len() >= 10,
        ensures
            final(buf)@ == spliced(old(buf)@, 0, self.spec_encode()),
            final(buf)@.len() == old(buf)@.len(),
    {
        let enc = self.encode();
        proof { lemma_le_codec(); self.lemma_encode_len(); }
        write_bytes_at(buf, 0, enc.as_slice());
    }

    /// The encoding is 10 bytes long.
    pub proof fn lemma_encode_len(self)
        ensures
            self.spec_encode().len() == 10,
    {
        lemma_le_codec();
    }

    /// Parsing what `to_bytes` wrote gives back the same record, whatever follows it.
    pub proof fn lemma_roundtrip(self, rest: Seq<u8>)
        ensures
            self.parsed_from(self.spec_encode() + rest),
    {
        lemma_le_codec();
        self.lemma_encode_len();
        let whole = self.spec_encode() + rest;
        assert(whole.subrange(0, 8) =~= spec_u64_to_le_bytes(self.index));
        assert(whole.subrange(8, 10) =~= spec_u16_to_le_bytes(self.name_len));
    }
}

/// On-disk directory item header (30 bytes), followed by name and data.
#[derive(Clone, Copy, Debug)]
pub struct BtrfsDirItem {
    pub location: BtrfsKey,
    pub transid: u64,
    pub data_len: u16,
    pub name_len: u16,
    pub dir_type: u8,
}

impl BtrfsDirItem {
    /// Size of the fixed header in bytes.
    pub const HEADER_SIZE: usize = 30;

    /// `self` is the record stored at the start of `b`.
    pub open spec fn parsed_from(self, b: Seq<u8>) -> bool {
        &&& self.location.parsed_from(b.subrange(0, b.len() as int))
        &&& self.transid == le64(b, 17)
        &&& self.data_len == le16(b, 25)
        &&& self.name_len == le16(b, 27)
        &&& self.dir_type == b[29]
    }

    /// The 30 bytes that store `self` on disk.
    pub open spec fn spec_encode(self) -> Seq<u8> {
        self.location.spec_encode()
            + spec_u64_to_le_bytes(self.transid)
            + spec_u16_to_le_bytes(self.data_len)
            + spec_u16_to_le_bytes(self.name_len)
            + seq![self.dir_type]
    }

    /// Parse from a byte slice (at least 30 bytes).
    pub fn from_bytes(buf: &[u8]) -> (r: Self)
        requires
            buf@.len() >= 30,
        ensures
            r.parsed_from(buf@),
    {
        let len = buf.len();
        BtrfsDirItem {
            location: BtrfsKey::from_bytes(slice_subrange(buf, 0, len)),
            transid: read_u64_le(buf, 17),
            data_len: read_u16_le(buf, 25),
            name_len: read_u16_le(buf, 27),
            dir_type: buf[29],
        }
    }

    /// The on-disk bytes of `self`.
    pub fn encode(&self) -> (out: Vec<u8>)
        ensures
            out@ == self.spec_encode(),
    {
        let mut out: Vec<u8> = Vec::new();
        let mut part_location = self.location.encode();
        out.append(&mut part_location);
        push_u64_le(&mut out, self.transid);
        push_u16_le(&mut out, self.data_len);
        push_u16_le(&mut out, self.name_len);
        out.push(self.dir_type);
        assert(out@ =~= self.spec_encode());
        out
    }

    /// Serialize into the first 30 bytes of `buf`; the rest is left as it was.
    pub fn to_bytes(&self, buf: &mut [u8])
        requires
            old(buf)@.len() >= 30,
        ensures
            final(buf)@ == spliced(old(buf)@, 0, self.spec_encode()),
            final(buf)@.len() == old(buf)@.len(),
    {
        let enc = self.encode();
        proof { lemma_le_codec(); self.lemma_encode_len(); }
        write_bytes_at(buf, 0, enc.as_slice());
    }

    /// The encoding is 30 bytes long.
    pub proof fn lemma_encode_len(self)
        ensures
            self.spec_encode().len() == 30,
    {
        lemma_le_codec();
        self.location.lemma_encode_len();
    }

    /// Parsing what `to_bytes` wrote gives back the same record, whatever follows it.
    pub proof fn lemma_roundtrip(self, rest: Seq<u8>)
        ensures
            self.parsed_from(self.spec_encode() + rest),
    {
        lemma_le_codec();
        self.lemma_encode_len();
        let whole = self.spec_encode() + rest;
        let tail_location = whole.subrange(17, whole.len() as int);
        self.location.lemma_encode_len();
        self.location.lemma_roundtrip(tail_location);
        assert(whole.subrange(0, whole.len() as int) =~= self.location.spec_encode() + tail_location);
        assert(whole.subrange(17, 25) =~= spec_u64_to_le_bytes(self.transid));
        assert(whole.subrange(25, 27) =~= spec_u16_to_le_bytes(self.data_len));
        assert(whole.subrange(27, 29) =~= spec_u16_to_le_bytes(self.name_len));
        assert(whole[29] == self.dir_type);
    }
}

/// On-disk extent item (24 bytes).
#[derive(Clone, Copy, Debug)]
pub struct BtrfsExtentItem {
    pub refs_count: u64,
    pub generation: u64,
    pub flags: u64,
}

impl BtrfsExtentItem {
    /// Size of the on-disk record in bytes.
    pub const SIZE: usize = 24;
    /// Extent flag: data extent.
    pub const FLAG_DATA: u64 = 1;
    /// Extent flag: tree block.
    pub const FLAG_TREE_BLOCK: u64 = 2;

    /// `self` is the record stored at the start of `b`.
    pub open spec fn parsed_from(self, b: Seq<u8>) -> bool {
        &&& self.refs_count == le64(b, 0)
        &&& self.generation == le64(b, 8)
        &&& self.flags == le64(b, 16)
    }

    /// The 24 bytes that store `self` on disk.
    pub open spec fn spec_encode(self) -> Seq<u8> {
        spec_u64_to_le_bytes(self.refs_count)
            + spec_u64_to_le_bytes(self.generation)
            + spec_u64_to_le_bytes(self.flags)
    }

    /// Parse from a byte slice (at least 24 bytes).
    pub fn from_bytes(buf: &[u8]) -> (r: Self)
        requires
            buf@.len() >= 24,
        ensures
            r.parsed_from(buf@),
    {
        let len = buf.len();
        BtrfsExtentItem {
            refs_count: read_u64_le(buf, 0),
            generation: read_u64_le(buf, 8),
            flags: read_u64_le(buf, 16),
        }
    }

    /// The on-disk bytes of `self`.
    pub fn encode(&self) -> (out: Vec<u8>)
        ensures
            out@ == self.spec_encode(),
    {
        let mut out: Vec<u8> = Vec::new();
        push_u64_le(&mut out, self.refs_count);
        push_u64_le(&mut out, self.generation);
        push_u64_le(&mut out, self.flags);
        assert(out@ =~= self.spec_encode());
        out
    }

    /// Serialize into the first 24 bytes of `buf`; the rest is left as it was.
    pub fn to_bytes(&self, buf: &mut [u8])
        requires
            old(buf)@.len() >= 24,
        ensures
            final(buf)@ == spliced(old(buf)@, 0, self.spec_encode()),
            final(buf)@.len() == old(buf)@.len(),
    {
        let enc = self.encode();
        proof { lemma_le_codec(); self.lemma_encode_len(); }
        write_bytes_at(buf, 0, enc.as_slice());
    }

    /// The encoding is 24 bytes long.
    pub proof fn lemma_encode_len(self)
        ensures
            self.spec_encode().len() == 24,
    {
        lemma_le_codec();
    }

    /// Parsing what `to_bytes` wrote gives back the same record, whatever follows it.
    pub proof fn lemma_roundtrip(self, rest: Seq<u8>)
        ensures
            self.parsed_from(self.spec_encode() + rest),
    {
        lemma_le_codec();
        self.lemma_encode_len();
        let whole = self.spec_encode() + rest;
        assert(whole.subrange(0, 8) =~= spec_u64_to_le_bytes(self.refs_count));
        assert(whole.subrange(8, 16) =~= spec_u64_to_le_bytes(self.generation));
        assert(whole.subrange(16, 24) =~= spec_u64_to_le_bytes(self.flags));
    }
}

/// On-disk block group item (24 bytes).
#[derive(Clone, Copy, Debug)]
pub struct BtrfsBlockGroupItem {
    pub used: u64,
    pub chunk_objectid: u64,
    pub flags: u64,
}

impl BtrfsBlockGroupItem {
    /// Size of the on-disk record in bytes.
    pub const SIZE: usize = 24;

    /// `self` is the record stored at the start of `b`.
    pub open spec fn parsed_from(self, b: Seq<u8>) -> bool {
        &&& self.used == le64(b, 0)
        &&& self.chunk_objectid == le64(b, 8)
        &&& self.flags == le64(b, 16)
    }

    /// The 24 bytes that store `self` on disk.
    pub open spec fn spec_encode(self) -> Seq<u8> {
        spec_u64_to_le_bytes(self.used)
            + spec_u64_to_le_bytes(self.chunk_objectid)
            + spec_u64_to_le_bytes(self.flags)
    }

    /// Parse from a byte slice (at least 24 bytes).
    pub fn from_bytes(buf: &[u8]) -> (r: Self)
        requires
            buf@.len() >= 24,
        ensures
            r.parsed_from(buf@),
    {
        let len = buf.len();
        BtrfsBlockGroupItem {
            used: read_u64_le(buf, 0),
            chunk_objectid: read_u64_le(buf, 8),
            flags: read_u64_le(buf, 16),
        }
    }

    /// The on-disk bytes of `self`.
    pub fn encode(&self) -> (out: Vec<u8>)
        ensures
            out@ == self.spec_encode(),
    {
        let mut out: Vec<u8> = Vec::new();
        push_u64_le(&mut out, self.used);
        push_u64_le(&mut out, self.chunk_objectid);
        push_u64_le(&mut out, self.flags);
        assert(out@ =~= self.spec_encode());
        out
    }

    /// Serialize into the first 24 bytes of `buf`; the rest is left as it was.
    pub fn to_bytes(&self, buf: &mut [u8])
        requires
            old(buf)@.len() >= 24,
        ensures
            final(buf)@ == spliced(old(buf)@, 0, self.spec_encode()),
            final(buf)@.len() == old(buf)@.len(),
    {
        let enc = self.encode();
        proof { lemma_le_codec(); self.lemma_encode_len(); }
        write_bytes_at(buf, 0, enc.as_slice());
    }

    /// The encoding is 24 bytes long.
    pub proof fn lemma_encode_len(self)
        ensures
            self.spec_encode().len() == 24,
    {
        lemma_le_codec();
    }

    /// Parsing what `to_bytes` wrote gives back the same record, whatever follows it.
    pub proof fn lemma_roundtrip(self, rest: Seq<u8>)
        ensures
            self.parsed_from(self.spec_encode() + rest),
    {
        lemma_le_codec();
        self.lemma_encode_len();
        let whole = self.spec_encode() + rest;
        assert(whole.subrange(0, 8) =~= spec_u64_to_le_bytes(self.used));
        assert(whole.subrange(8, 16) =~= spec_u64_to_le_bytes(self.chunk_objectid));
        assert(whole.subrange(16, 24) =~= spec_u64_to_le_bytes(self.flags));
    }
}

/// On-disk file extent item: 21 header bytes for inline extents, 53 bytes for
/// regular and preallocated ones.
#[derive(Clone, Copy, Debug)]
pub struct BtrfsFileExtentItem {
    pub generation: u64,
    /// Size of decoded (decompressed) data.
    pub ram_bytes: u64,
    /// Compression type (0 = none).
    pub compression: u8,
    /// Encryption type (0 = none).
    pub encryption: u8,
    /// Other encoding (0 = none).
    pub other_encoding: u16,
    /// 0 = inline, 1 = regular, 2 = prealloc.
    pub extent_type: u8,
    /// Logical address of the extent on disk (0 for holes).
    pub disk_bytenr: u64,
    /// Size of the extent on disk.
    pub disk_num_bytes: u64,
    /// Offset within the extent.
    pub offset: u64,
    /// Number of bytes referenced from this file.
    pub num_bytes: u64,
}

impl BtrfsFileExtentItem {
    /// Header size of an inline extent item.
    pub const INLINE_HEADER_SIZE: usize = 21;
    /// Size of a regular or preallocated extent item.
    pub const REG_SIZE: usize = 53;

    /// The record stored at the start of `b`: the extended fields are read only
    /// for non-inline extents in a buffer of at least 53 bytes, and are zero
    /// otherwise.
    pub open spec fn parsed_from(self, b: Seq<u8>) -> bool {
        &&& self.generation == le64(b, 0)
        &&& self.ram_bytes == le64(b, 8)
        &&& self.compression == b[16]
        &&& self.encryption == b[17]
        &&& self.other_encoding == le16(b, 18)
        &&& self.extent_type == b[20]
        &&& if self.extent_type != BTRFS_FILE_EXTENT_INLINE && b.len() >= 53 {
            &&& self.disk_bytenr == le64(b, 21)
            &&& self.disk_num_bytes == le64(b, 29)
            &&& self.offset == le64(b, 37)
            &&& self.num_bytes == le64(b, 45)
        } else {
            &&& self.disk_bytenr == 0
            &&& self.disk_num_bytes == 0
            &&& self.offset == 0
            &&& self.num_bytes == 0
        }
    }

    /// The 21 header bytes of `self`.
    pub open spec fn spec_encode_header(self) -> Seq<u8> {
        spec_u64_to_le_bytes(self.generation) + spec_u64_to_le_bytes(self.ram_bytes)
            + seq![self.compression, self.encryption] + spec_u16_to_le_bytes(self.other_encoding)
            + seq![self.extent_type]
    }

    /// The 32 bytes that follow the header in a regular extent item.
    pub open spec fn spec_encode_extent(self) -> Seq<u8> {
        spec_u64_to_le_bytes(self.disk_bytenr) + spec_u64_to_le_bytes(self.disk_num_bytes)
            + spec_u64_to_le_bytes(self.offset) + spec_u64_to_le_bytes(self.num_bytes)
    }

    /// Parse from a byte slice (at least 21 bytes).
    pub fn from_bytes(buf: &[u8]) -> (r: Self)
        requires
            buf@.len() >= 21,
        ensures
            r.parsed_from(buf@),
    {
        let len = buf.len();
        let mut item = BtrfsFileExtentItem {
            generation: read_u64_le(buf, 0),
            ram_bytes: read_u64_le(buf, 8),
            compression: buf[16],
            encryption: buf[17],
            other_encoding: read_u16_le(buf, 18),
            extent_type: buf[20],
            disk_bytenr: 0,
            disk_num_bytes: 0,
            offset: 0,
            num_bytes: 0,
        };
        if item.extent_type != BTRFS_FILE_EXTENT_INLINE && len >= Self::REG_SIZE {
            item.disk_bytenr = read_u64_le(buf, 21);
            item.disk_num_bytes = read_u64_le(buf, 29);
            item.offset = read_u64_le(buf, 37);
            item.num_bytes = read_u64_le(buf, 45);
        }
        item
    }

    /// Serialize the header into `buf[0..21]`, and for non-inline extents the
    /// extent fields into `buf[21..53]` when the buffer is that long.
    pub fn to_bytes(&self, buf: &mut [u8])
        requires
            old(buf)@.len() >= 21,
        ensures
            final(buf)@.len() == old(buf)@.len(),
            self.extent_type != BTRFS_FILE_EXTENT_INLINE && old(buf)@.len() >= 53 ==>
                final(buf)@ == spliced(old(buf)@, 0, self.spec_encode_header() + self.spec_encode_extent()),
            !(self.extent_type != BTRFS_FILE_EXTENT_INLINE && old(buf)@.len() >= 53) ==>
                final(buf)@ == spliced(old(buf)@, 0, self.spec_encode_header()),
    {
        proof { lemma_le_codec(); }
        let mut head: Vec<u8> = Vec::new();
        push_u64_le(&mut head, self.generation);
        push_u64_le(&mut head, self.ram_bytes);
        head.push(self.compression);
        head.push(self.encryption);
        push_u16_le(&mut head, self.other_encoding);
        head.push(self.extent_type);
        assert(head@ =~= self.spec_encode_header());
        let len = buf.len();
        if self.extent_type != BTRFS_FILE_EXTENT_INLINE && len >= Self::REG_SIZE {
            push_u64_le(&mut head, self.disk_bytenr);
            push_u64_le(&mut head, self.disk_num_bytes);
            push_u64_le(&mut head, self.offset);
            push_u64_le(&mut head, self.num_bytes);
            assert(head@ =~= self.spec_encode_header() + self.spec_encode_extent());
        }
        write_bytes_at(buf, 0, head.as_slice());
    }

    /// Writing a regular extent item into a 53-byte-or-longer buffer and
    /// parsing it back gives the same record.
    pub proof fn lemma_roundtrip(self, rest: Seq<u8>)
        requires
            self.extent_type != BTRFS_FILE_EXTENT_INLINE,
        ensures
            self.parsed_from(self.spec_encode_header() + self.spec_encode_extent() + rest),
    {
        lemma_le_codec();
        let whole = self.spec_encode_header() + self.spec_encode_extent() + rest;
        assert(whole.subrange(0, 8) =~= spec_u64_to_le_bytes(self.generation));
        assert(whole.subrange(8, 16) =~= spec_u64_to_le_bytes(self.ram_bytes));
        assert(whole[16] == self.compression);
        assert(whole[17] == self.encryption);
        assert(whole.subrange(18, 20) =~= spec_u16_to_le_bytes(self.other_encoding));
        assert(whole[20] == self.extent_type);
        assert(whole.subrange(21, 29) =~= spec_u64_to_le_bytes(self.disk_bytenr));
        assert(whole.subrange(29, 37) =~= spec_u64_to_le_bytes(self.disk_num_bytes));
        assert(whole.subrange(37, 45) =~= spec_u64_to_le_bytes(self.offset));
        assert(whole.subrange(45, 53) =~= spec_u64_to_le_bytes(self.num_bytes));
    }
}

/// The Btrfs directory name hash: the raw CRC32C accumulator of the name
/// started from all ones (no final complement).
pub fn btrfs_name_hash(name: &[u8]) -> (h: u64)
    ensures
        h == crc32c::spec_crc32c(0xFFFF_FFFFu32, name@) as u64,
{
    crc32c::crc32c(0xFFFF_FFFFu32, name) as u64
}

/// Parsed superblock fields.
pub struct BtrfsSuperblock {
    pub csum: [u8; 32],
    pub fsid: [u8; 16],
    pub bytenr: u64,
    pub flags: u64,
    pub magic: u64,
    pub generation: u64,
    pub root: u64,
    pub chunk_root: u64,
    pub log_root: u64,
    pub total_bytes: u64,
    pub bytes_used: u64,
    pub root_dir_objectid: u64,
    pub num_devices: u64,
    pub sectorsize: u32,
    pub nodesize: u32,
    pub stripesize: u32,
    pub sys_chunk_array_size: u32,
    pub chunk_root_generation: u64,
    pub compat_flags: u64,
    pub compat_ro_flags: u64,
    pub incompat_flags: u64,
    pub csum_type: u16,
    pub root_level: u8,
    pub chunk_root_level: u8,
    pub log_root_level: u8,
    pub dev_item: BtrfsDevItem,
    /// Label bytes (256 bytes).
    pub label: Vec<u8>,
    pub cache_generation: u64,
    pub uuid_tree_generation: u64,
    pub metadata_uuid: [u8; 16],
    /// Raw sys_chunk_array bytes (2048 bytes; parsed by the chunk module).
    pub sys_chunk_array: Vec<u8>,
}

} // verus!
