//! Little-endian field access on byte buffers.

use vstd::prelude::*;
use vstd::bytes::*;
use vstd::slice::slice_subrange;
use vstd::string::StringSliceAdditionalSpecFns;

verus! {

/// `s` with the bytes at `[off, off + src.len())` replaced by `src`.
pub open spec fn spliced(s: Seq<u8>, off: int, src: Seq<u8>) -> Seq<u8> {
    s.subrange(0, off) + src + s.subrange(off + src.len(), s.len() as int)
}

/// Little-endian `u16` stored at `off`.
pub open spec fn le16(s: Seq<u8>, off: int) -> u16 {
    spec_u16_from_le_bytes(s.subrange(off, off + 2))
}

/// Little-endian `u32` stored at `off`.
pub open spec fn le32(s: Seq<u8>, off: int) -> u32 {
    spec_u32_from_le_bytes(s.subrange(off, off + 4))
}

/// Little-endian `u64` stored at `off`.
pub open spec fn le64(s: Seq<u8>, off: int) -> u64 {
    spec_u64_from_le_bytes(s.subrange(off, off + 8))
}

/// Read a little-endian `u16` at byte offset `off`.
pub fn read_u16_le(buf: &[u8], off: usize) -> (v: u16)
    requires
        off + 2 <= buf@.len(),
    ensures
        v == le16(buf@, off as int),
{
    u16_from_le_bytes({ let _len = buf.len(); slice_subrange(buf, off, off + 2) })
}

/// Read a little-endian `u32` at byte offset `off`.
pub fn read_u32_le(buf: &[u8], off: usize) -> (v: u32)
    requires
        off + 4 <= buf@.len(),
    ensures
        v == le32(buf@, off as int),
{
    u32_from_le_bytes({ let _len = buf.len(); slice_subrange(buf, off, off + 4) })
}

/// Read a little-endian `u64` at byte offset `off`.
pub fn read_u64_le(buf: &[u8], off: usize) -> (v: u64)
    requires
        off + 8 <= buf@.len(),
    ensures
        v == le64(buf@, off as int),
{
    u64_from_le_bytes({ let _len = buf.len(); slice_subrange(buf, off, off + 8) })
}

/// Copy `src` into `buf` starting at `off`.
pub fn write_bytes_at(buf: &mut [u8], off: usize, src: &[u8])
    requires
        off + src@.len() <= old(buf)@.len(),
    ensures
        final(buf)@ == spliced(old(buf)@, off as int, src@),
        final(buf)@.len() == old(buf)@.len(),
{
    let n = src.len();
    let blen = buf.len();
    let mut i: usize = 0;
    while i < n
        invariant
            n == src@.len(),
            blen == buf@.len(),
            off + n <= buf@.len(),
            buf@.len() == old(buf)@.len(),
            i <= n,
            forall|k: int| 0 <= k < off ==> buf@[k] == old(buf)@[k],
            forall|k: int| off + n <= k < buf@.len() ==> buf@[k] == old(buf)@[k],
            forall|k: int| 0 <= k < i ==> buf@[off + k] == src@[k],
        decreases n - i,
    {
        buf[off + i] = src[i];
        i = i + 1;
    }
    assert(buf@ =~= spliced(old(buf)@, off as int, src@));
}

/// Append the little-endian encoding of `v` to `out`.
pub fn push_u16_le(out: &mut Vec<u8>, v: u16)
    ensures
        final(out)@ == old(out)@ + spec_u16_to_le_bytes(v),
{
    let mut b = u16_to_le_bytes(v);
    out.append(&mut b);
}

/// Append the little-endian encoding of `v` to `out`.
pub fn push_u32_le(out: &mut Vec<u8>, v: u32)
    ensures
        final(out)@ == old(out)@ + spec_u32_to_le_bytes(v),
{
    let mut b = u32_to_le_bytes(v);
    out.append(&mut b);
}

/// Append the little-endian encoding of `v` to `out`.
pub fn push_u64_le(out: &mut Vec<u8>, v: u64)
    ensures
        final(out)@ == old(out)@ + spec_u64_to_le_bytes(v),
{
    let mut b = u64_to_le_bytes(v);
    out.append(&mut b);
}

/// Append all of `src` to `out`.
pub fn push_slice(out: &mut Vec<u8>, src: &[u8])
    ensures
        final(out)@ == old(out)@ + src@,
{
    let n = src.len();
    let mut i: usize = 0;
    let ghost start = out@;
    while i < n
        invariant
            n == src@.len(),
            i <= n,
            out@ == start + src@.subrange(0, i as int),
        decreases n - i,
    {
        out.push(src[i]);
        i = i + 1;
        assert(out@ =~= start + src@.subrange(0, i as int));
    }
    assert(src@.subrange(0, n as int) =~= src@);
}

/// Copy 32 bytes at `off` into a fixed-size array.
pub fn read_array32(buf: &[u8], off: usize) -> (a: [u8; 32])
    requires
        off + 32 <= buf@.len(),
    ensures
        a@ == buf@.subrange(off as int, off + 32),
{
    let mut a = [0u8; 32];
    let blen = buf.len();
    let mut i: usize = 0;
    while i < 32
        invariant
            blen == buf@.len(),
            off + 32 <= buf@.len(),
            i <= 32,
            a@.len() == 32,
            forall|k: int| 0 <= k < i ==> a@[k] == buf@[off + k],
        decreases 32 - i,
    {
        a[i] = buf[off + i];
        i = i + 1;
    }
    assert(a@ =~= buf@.subrange(off as int, off + 32));
    a
}

/// Copy 16 bytes at `off` into a fixed-size array.
pub fn read_array16(buf: &[u8], off: usize) -> (a: [u8; 16])
    requires
        off + 16 <= buf@.len(),
    ensures
        a@ == buf@.subrange(off as int, off + 16),
{
    let mut a = [0u8; 16];
    let blen = buf.len();
    let mut i: usize = 0;
    while i < 16
        invariant
            blen == buf@.len(),
            off + 16 <= buf@.len(),
            i <= 16,
            a@.len() == 16,
            forall|k: int| 0 <= k < i ==> a@[k] == buf@[off + k],
        decreases 16 - i,
    {
        a[i] = buf[off + i];
        i = i + 1;
    }
    assert(a@ =~= buf@.subrange(off as int, off + 16));
    a
}

/// The encodings of the fixed-width integers have their width and decode back.
pub proof fn lemma_le_codec()
    ensures
        forall|x: u16| #![trigger spec_u16_to_le_bytes(x)]
            spec_u16_to_le_bytes(x).len() == 2 && spec_u16_from_le_bytes(spec_u16_to_le_bytes(x)) == x,
        forall|x: u32| #![trigger spec_u32_to_le_bytes(x)]
            spec_u32_to_le_bytes(x).len() == 4 && spec_u32_from_le_bytes(spec_u32_to_le_bytes(x)) == x,
        forall|x: u64| #![trigger spec_u64_to_le_bytes(x)]
            spec_u64_to_le_bytes(x).len() == 8 && spec_u64_from_le_bytes(spec_u64_to_le_bytes(x)) == x,
{
    lemma_auto_spec_u16_to_from_le_bytes();
    lemma_auto_spec_u32_to_from_le_bytes();
    lemma_auto_spec_u64_to_from_le_bytes();
    assert forall|x: u16| #![trigger spec_u16_to_le_bytes(x)]
        spec_u16_to_le_bytes(x).len() == 2 && spec_u16_from_le_bytes(spec_u16_to_le_bytes(x)) == x by {
        assert(spec_u16_to_le_bytes(x).len() == 2);
    }
    assert forall|x: u32| #![trigger spec_u32_to_le_bytes(x)]
        spec_u32_to_le_bytes(x).len() == 4 && spec_u32_from_le_bytes(spec_u32_to_le_bytes(x)) == x by {
        assert(spec_u32_to_le_bytes(x).len() == 4);
    }
    assert forall|x: u64| #![trigger spec_u64_to_le_bytes(x)]
        spec_u64_to_le_bytes(x).len() == 8 && spec_u64_from_le_bytes(spec_u64_to_le_bytes(x)) == x by {
        assert(spec_u64_to_le_bytes(x).len() == 8);
    }
}

/// Bytes of `arr` from `off` to its end.
pub open spec fn tail(arr: Seq<u8>, off: int) -> Seq<u8> {
    arr.subrange(off, arr.len() as int)
}

/// A vector of `n` zero bytes.
pub fn vec_of_zeros(n: usize) -> (v: Vec<u8>)
    ensures
        v@.len() == n,
        forall|i: int| 0 <= i < n ==> #[trigger] v@[i] == 0,
{
    let mut v: Vec<u8> = Vec::new();
    let mut i: usize = 0;
    while i < n
        invariant
            i <= n,
            v@.len() == i,
            forall|k: int| 0 <= k < i ==> #[trigger] v@[k] == 0,
        decreases n - i,
    {
        v.push(0u8);
        i = i + 1;
    }
    v
}


/// `core::str::from_utf8`.  Its documentation states that it succeeds
/// exactly when the bytes are valid UTF-8, and that the string slice it
/// returns is made of those same bytes; that is all this contract claims.
#[verifier::external_body]
pub(crate) fn str_from_utf8(v: &[u8]) -> (r: Option<&str>)
    ensures
        r is Some <==> vstd::utf8::valid_utf8(v@),
        r matches Some(s) ==> s.spec_bytes() == v@,
{
    core::str::from_utf8(v).ok()
}


/// `a` is a contiguous part of `b`.
pub open spec fn is_infix_of(a: Seq<char>, b: Seq<char>) -> bool {
    exists|i: int, j: int| 0 <= i <= j <= b.len() && a == b.subrange(i, j)
}

/// `c` is whitespace in the sense of `char::is_whitespace`: it has the
/// Unicode White_Space property (tab to carriage return, space, U+0085,
/// U+00A0, U+1680, U+2000 to U+200A, U+2028, U+2029, U+202F, U+205F and
/// U+3000).
pub open spec fn is_white_space(c: char) -> bool {
    let v = c as u32;
    ||| 0x09 <= v <= 0x0D
    ||| v == 0x20 || v == 0x85 || v == 0xA0 || v == 0x1680
    ||| 0x2000 <= v <= 0x200A
    ||| v == 0x2028 || v == 0x2029 || v == 0x202F || v == 0x205F || v == 0x3000
}

/// Number of whitespace characters `s` starts with.
pub open spec fn white_space_prefix(s: Seq<char>) -> nat
    decreases s.len(),
{
    if s.len() > 0 && is_white_space(s[0]) { 1 + white_space_prefix(s.drop_first()) } else { 0 }
}

/// Number of whitespace characters `s` ends with.
pub open spec fn white_space_suffix(s: Seq<char>) -> nat
    decreases s.len(),
{
    if s.len() > 0 && is_white_space(s.last()) { 1 + white_space_suffix(s.drop_last()) } else { 0 }
}

/// `s` without its leading and trailing whitespace.
pub open spec fn str_trimmed(s: Seq<char>) -> Seq<char> {
    let rest = s.subrange(white_space_prefix(s) as int, s.len() as int);
    rest.subrange(0, rest.len() - white_space_suffix(rest))
}

/// `str::trim`.  Its documentation states that it returns the string slice
/// with leading and trailing whitespace removed, whitespace being what
/// `char::is_whitespace` accepts (the Unicode White_Space property).
#[verifier::external_body]
pub(crate) fn str_trim(s: &str) -> (r: &str)
    ensures
        r@ == str_trimmed(s@),
        is_infix_of(r@, s@),
{
    s.trim()
}

/// Decimal digits of `n` (at least one).
pub open spec fn dec_digits(n: nat) -> Seq<u8>
    decreases n,
{
    if n < 10 {
        seq![(48 + n) as u8]
    } else {
        dec_digits(n / 10).push((48 + n % 10) as u8)
    }
}

/// Append the decimal digits of `n`.
pub fn push_dec(out: &mut Vec<u8>, n: u64)
    ensures
        final(out)@ == old(out)@ + dec_digits(n as nat),
    decreases n,
{
    if n < 10 {
        out.push(48 + n as u8);
        assert(final(out)@ =~= old(out)@ + dec_digits(n as nat));
    } else {
        push_dec(out, n / 10);
        out.push(48 + (n % 10) as u8);
        assert(final(out)@ =~= old(out)@ + dec_digits(n as nat));
    }
}

/// Decimal digit counts of small numbers.
pub proof fn lemma_dec_digits_len(n: nat)
    ensures
        1 <= dec_digits(n).len(),
        n < 10 ==> dec_digits(n).len() == 1,
        n < 100 ==> dec_digits(n).len() <= 2,
        n < 1000 ==> dec_digits(n).len() <= 3,
        n < 10000 ==> dec_digits(n).len() <= 4,
    decreases n,
{
    if n >= 10 {
        lemma_dec_digits_len(n / 10);
    }
}

} // verus!
