//! CRC32C (Castagnoli) checksum, as used by Btrfs for all on-disk checksums.

use vstd::prelude::*;

verus! {

/// Reflected CRC32C polynomial (bit-reversed 0x1EDC6F41).
pub const CRC32C_POLY: u32 = 0x82F63B78;

/// One bit step of the reflected CRC32C shift register.
pub open spec fn crc_bit(c: u32) -> u32 {
    if c & 1u32 != 0u32 { (c >> 1u32) ^ 0x82F63B78u32 } else { c >> 1u32 }
}

/// Eight bit steps: the contribution of one byte already xored into `c`.
pub open spec fn crc_byte(c: u32) -> u32 {
    crc_bit(crc_bit(crc_bit(crc_bit(crc_bit(crc_bit(crc_bit(crc_bit(c))))))))
}

proof fn lemma_crc_byte_split(x: u32)
    ensures
        crc_byte(x) == crc_byte(x & 0xffu32) ^ (x >> 8u32),
{
    assert(crc_byte(x) == crc_byte(x & 0xffu32) ^ (x >> 8u32)) by (bit_vector);
}

/// CRC32C register after feeding one byte.
pub open spec fn crc_update(crc: u32, byte: u8) -> u32 {
    crc_byte(crc ^ (byte as u32))
}

/// Raw CRC32C accumulator after feeding `data` into a register holding `seed`.
pub open spec fn spec_crc32c(seed: u32, data: Seq<u8>) -> u32
    decreases data.len(),
{
    if data.len() == 0 {
        seed
    } else {
        crc_update(spec_crc32c(seed, data.drop_last()), data.last())
    }
}

/// The value Btrfs stores on disk for `data`: the complement of the raw
/// accumulator started from all ones.
pub open spec fn spec_btrfs_checksum(data: Seq<u8>) -> u32 {
    !spec_crc32c(0xFFFF_FFFFu32, data)
}

fn crc_bit_step(c: u32) -> (r: u32)
    ensures
        r == crc_bit(c),
{
    if c & 1u32 != 0u32 { (c >> 1u32) ^ CRC32C_POLY } else { c >> 1u32 }
}

/// Table entry `i`: the register contribution of byte value `i`.
fn table_entry(i: u32) -> (r: u32)
    ensures
        r == crc_byte(i),
{
    let mut crc = i;
    let mut j: u32 = 0;
    while j < 8
        invariant
            j <= 8,
            j == 0 ==> crc == i,
            j == 1 ==> crc == crc_bit(i),
            j == 2 ==> crc == crc_bit(crc_bit(i)),
            j == 3 ==> crc == crc_bit(crc_bit(crc_bit(i))),
            j == 4 ==> crc == crc_bit(crc_bit(crc_bit(crc_bit(i)))),
            j == 5 ==> crc == crc_bit(crc_bit(crc_bit(crc_bit(crc_bit(i))))),
            j == 6 ==> crc == crc_bit(crc_bit(crc_bit(crc_bit(crc_bit(crc_bit(i)))))),
            j == 7 ==> crc == crc_bit(crc_bit(crc_bit(crc_bit(crc_bit(crc_bit(crc_bit(i))))))),
            j == 8 ==> crc == crc_byte(i),
        decreases 8 - j,
    {
        crc = crc_bit_step(crc);
        j = j + 1;
    }
    crc
}

/// The 256-entry lookup table for the reflected polynomial.
fn crc32c_table() -> (t: Vec<u32>)
    ensures
        t@.len() == 256,
        forall|i: int| 0 <= i < 256 ==> #[trigger] t@[i] == crc_byte(i as u32),
{
    let mut t: Vec<u32> = Vec::new();
    let mut i: u32 = 0;
    while i < 256
        invariant
            i <= 256,
            t@.len() == i,
            forall|k: int| 0 <= k < i ==> #[trigger] t@[k] == crc_byte(k as u32),
        decreases 256 - i,
    {
        t.push(table_entry(i));
        i = i + 1;
    }
    t
}

/// Compute CRC32C over `data`, starting from `seed` (no final complement).
pub fn crc32c(seed: u32, data: &[u8]) -> (crc: u32)
    ensures
        crc == spec_crc32c(seed, data@),
{
    let table = crc32c_table();
    let n = data.len();
    let mut crc = seed;
    let mut i: usize = 0;
    while i < n
        invariant
            n == data@.len(),
            i <= n,
            table@.len() == 256,
            forall|k: int| 0 <= k < 256 ==> #[trigger] table@[k] == crc_byte(k as u32),
            crc == spec_crc32c(seed, data@.subrange(0, i as int)),
        decreases n - i,
    {
        let byte = data[i];
        let x = crc ^ (byte as u32);
        let idx = x & 0xFFu32;
        assert(idx < 256) by (bit_vector)
            requires idx == x & 0xFFu32;
        let next = table[idx as usize] ^ (crc >> 8u32);
        proof {
            lemma_crc_byte_split(x);
            assert(x >> 8u32 == crc >> 8u32) by (bit_vector)
                requires x == crc ^ (byte as u32), byte < 256;
            assert(data@.subrange(0, i + 1).drop_last() =~= data@.subrange(0, i as int));
        }
        crc = next;
        i = i + 1;
    }
    assert(data@.subrange(0, n as int) =~= data@);
    crc
}

/// The Btrfs on-disk checksum of `data`: `!crc32c(!0, data)`.
pub fn btrfs_checksum(data: &[u8]) -> (c: u32)
    ensures
        c == spec_btrfs_checksum(data@),
{
    !crc32c(0xFFFF_FFFFu32, data)
}

/// Feeding `a` then `b` is feeding `a + b`: the accumulator can be carried
/// from one call to the next as the seed.
pub proof fn lemma_crc32c_concat(seed: u32, a: Seq<u8>, b: Seq<u8>)
    ensures
        spec_crc32c(seed, a + b) == spec_crc32c(spec_crc32c(seed, a), b),
    decreases b.len(),
{
    if b.len() == 0 {
        assert(a + b =~= a);
    } else {
        lemma_crc32c_concat(seed, a, b.drop_last());
        assert((a + b).drop_last() =~= a + b.drop_last());
        assert((a + b).last() == b.last());
    }
}

} // verus!
