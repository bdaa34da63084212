//! FAT32 filesystem: on-disk records, names (8.3 and long names),
//! directory scanning, cluster chains and the volume's inode operations.

use vstd::prelude::*;
use vstd::utf8::encode_utf8;
use vstd::slice::slice_subrange;
use vstd::string::StringSliceAdditionalSpecFns;
use vstd::string::StrSliceExecFns;
use crate::bytes::{dec_digits, lemma_dec_digits_len, push_dec, le16, le32, push_slice, read_u16_le, read_u32_le, spliced, vec_of_zeros, write_bytes_at};
use crate::btree::wrapped_add;
use crate::disk::{sectors_of, with_sectors, BlockDevice};
use crate::inode::{alloc_inode_number, DirEntry, FsError, InodeStat, InodeType};

verus! {

/// Directory attribute bit.
pub const ATTR_DIRECTORY: u8 = 0x10;
/// Attribute value of a long-name entry.
pub const ATTR_LONG_NAME: u8 = 0x0F;
/// Attribute bits that identify a long-name entry.
pub const ATTR_LONG_NAME_MASK: u8 = 0x3F;
/// A free cluster.
pub const CLUSTER_FREE: u32 = 0x00000000;
/// Smallest end-of-chain marker.
pub const CLUSTER_EOF_MIN: u32 = 0x0FFFFFF8;
/// First cluster of the data region.
pub const FIRST_DATA_CLUSTER: u32 = 2;
/// First name byte of a free entry (and of every entry after it).
pub const DIR_ENTRY_FREE: u8 = 0x00;
/// First name byte of a deleted entry.
pub const DIR_ENTRY_DELETED: u8 = 0xE5;
/// Order-byte flag of the last (first stored) long-name entry.
pub const LFN_LAST_ENTRY: u8 = 0x40;

/// The cluster value marks the end of a chain.
pub fn is_eof(cluster: u32) -> (b: bool)
    ensures
        b == (cluster >= CLUSTER_EOF_MIN),
{
    cluster >= CLUSTER_EOF_MIN
}

/// The cluster value marks a bad cluster.
pub fn is_bad(cluster: u32) -> (b: bool)
    ensures
        b == (cluster == 0x0FFFFFF7),
{
    cluster == 0x0FFFFFF7
}

/// A 32-byte FAT32 directory entry.
#[derive(Clone, Copy, Debug)]
pub struct Fat32DirEntry {
    pub name: [u8; 11],
    pub attr: u8,
    pub nt_res: u8,
    pub crt_time_tenth: u8,
    pub crt_time: u16,
    pub crt_date: u16,
    pub lst_acc_date: u16,
    pub fst_clus_hi: u16,
    pub wrt_time: u16,
    pub wrt_date: u16,
    pub fst_clus_lo: u16,
    pub file_size: u32,
}

impl Fat32DirEntry {
    /// The entry stored at the start of `b`.
    pub open spec fn parsed_from(self, b: Seq<u8>) -> bool {
        &&& self.name@ == b.subrange(0, 11)
        &&& self.attr == b[11]
        &&& self.nt_res == b[12]
        &&& self.crt_time_tenth == b[13]
        &&& self.crt_time == le16(b, 14)
        &&& self.crt_date == le16(b, 16)
        &&& self.lst_acc_date == le16(b, 18)
        &&& self.fst_clus_hi == le16(b, 20)
        &&& self.wrt_time == le16(b, 22)
        &&& self.wrt_date == le16(b, 24)
        &&& self.fst_clus_lo == le16(b, 26)
        &&& self.file_size == le32(b, 28)
    }

    /// The 32 bytes that store the entry.
    pub open spec fn spec_encode(self) -> Seq<u8> {
        self.name@ + seq![self.attr, self.nt_res, self.crt_time_tenth]
            + vstd::bytes::spec_u16_to_le_bytes(self.crt_time) + vstd::bytes::spec_u16_to_le_bytes(self.crt_date)
            + vstd::bytes::spec_u16_to_le_bytes(self.lst_acc_date) + vstd::bytes::spec_u16_to_le_bytes(self.fst_clus_hi)
            + vstd::bytes::spec_u16_to_le_bytes(self.wrt_time) + vstd::bytes::spec_u16_to_le_bytes(self.wrt_date)
            + vstd::bytes::spec_u16_to_le_bytes(self.fst_clus_lo) + vstd::bytes::spec_u32_to_le_bytes(self.file_size)
    }

    /// An all-zero entry.
    pub fn zeroed() -> (e: Self)
        ensures
            e.name@ == Seq::new(11, |i: int| 0u8),
            e.crt_time_tenth == 0 && e.crt_time == 0 && e.crt_date == 0 && e.lst_acc_date == 0,
            e.wrt_time == 0 && e.wrt_date == 0,
            e.attr == 0 && e.nt_res == 0 && e.fst_clus_hi == 0 && e.fst_clus_lo == 0 && e.file_size == 0,
    {
        let e = Fat32DirEntry {
            name: [0u8; 11],
            attr: 0,
            nt_res: 0,
            crt_time_tenth: 0,
            crt_time: 0,
            crt_date: 0,
            lst_acc_date: 0,
            fst_clus_hi: 0,
            wrt_time: 0,
            wrt_date: 0,
            fst_clus_lo: 0,
            file_size: 0,
        };
        assert(e.name@ =~= Seq::new(11, |i: int| 0u8));
        e
    }

    /// Parse from the first 32 bytes of `buf`.
    pub fn from_bytes(buf: &[u8]) -> (e: Self)
        requires
            buf@.len() >= 32,
        ensures
            e.parsed_from(buf@),
    {
        let mut name = [0u8; 11];
        let mut i: usize = 0;
        while i < 11
            invariant
                i <= 11,
                buf@.len() >= 32,
                forall|k: int| 0 <= k < i ==> name@[k] == buf@[k],
            decreases 11 - i,
        {
            name[i] = buf[i];
            i = i + 1;
        }
        assert(name@ =~= buf@.subrange(0, 11));
        Fat32DirEntry {
            name,
            attr: buf[11],
            nt_res: buf[12],
            crt_time_tenth: buf[13],
            crt_time: read_u16_le(buf, 14),
            crt_date: read_u16_le(buf, 16),
            lst_acc_date: read_u16_le(buf, 18),
            fst_clus_hi: read_u16_le(buf, 20),
            wrt_time: read_u16_le(buf, 22),
            wrt_date: read_u16_le(buf, 24),
            fst_clus_lo: read_u16_le(buf, 26),
            file_size: read_u32_le(buf, 28),
        }
    }

    /// The 32 bytes of the entry.
    pub fn encode(&self) -> (v: Vec<u8>)
        ensures
            v@ == self.spec_encode(),
            v@.len() == 32,
    {
        let mut v: Vec<u8> = Vec::new();
        push_slice(&mut v, self.name.as_slice());
        v.push(self.attr);
        v.push(self.nt_res);
        v.push(self.crt_time_tenth);
        crate::bytes::push_u16_le(&mut v, self.crt_time);
        crate::bytes::push_u16_le(&mut v, self.crt_date);
        crate::bytes::push_u16_le(&mut v, self.lst_acc_date);
        crate::bytes::push_u16_le(&mut v, self.fst_clus_hi);
        crate::bytes::push_u16_le(&mut v, self.wrt_time);
        crate::bytes::push_u16_le(&mut v, self.wrt_date);
        crate::bytes::push_u16_le(&mut v, self.fst_clus_lo);
        crate::bytes::push_u32_le(&mut v, self.file_size);
        proof {
            crate::bytes::lemma_le_codec();
        }
        assert(v@ =~= self.spec_encode());
        v
    }
}

/// First cluster recorded in an entry (high and low halves).
pub open spec fn spec_entry_cluster(e: Fat32DirEntry) -> u32 {
    ((e.fst_clus_hi as u32) << 16u32) | (e.fst_clus_lo as u32)
}

/// First cluster recorded in a directory entry.
pub fn entry_cluster(entry: &Fat32DirEntry) -> (c: u32)
    ensures
        c == spec_entry_cluster(*entry),
{
    let lo = entry.fst_clus_lo as u32;
    let hi = entry.fst_clus_hi as u32;
    (hi << 16u32) | lo
}

/// The entry is a long-name entry.
pub fn is_lfn(entry: &Fat32DirEntry) -> (b: bool)
    ensures
        b == (entry.attr & ATTR_LONG_NAME_MASK == ATTR_LONG_NAME),
{
    entry.attr & ATTR_LONG_NAME_MASK == ATTR_LONG_NAME
}

/// ASCII uppercase letter.
pub open spec fn is_upper(c: u8) -> bool {
    65 <= c <= 90
}

/// ASCII lowercase letter.
pub open spec fn is_lower(c: u8) -> bool {
    97 <= c <= 122
}

/// ASCII uppercase of a byte.
pub open spec fn upper(c: u8) -> u8 {
    if is_lower(c) { (c - 32) as u8 } else { c }
}

/// ASCII lowercase of a byte.
pub open spec fn lower(c: u8) -> u8 {
    if is_upper(c) { (c + 32) as u8 } else { c }
}

/// Index of the first space in `name[from..to]`, or `to`.
pub open spec fn space_stop(name: Seq<u8>, from: int, to: int) -> int
    decreases to - from,
{
    if from >= to {
        to
    } else if name[from] == 32 {
        from
    } else {
        space_stop(name, from + 1, to)
    }
}

/// `bytes` as characters (each byte its own code point), lowercased when
/// `to_lower` is set.
pub open spec fn bytes_as_chars(bytes: Seq<u8>, to_lower: bool) -> Seq<char> {
    Seq::new(bytes.len(), |i: int| (if to_lower { lower(bytes[i]) } else { bytes[i] }) as char)
}

/// The display name of an 8.3 name: the base up to its first space, then,
/// when the extension is not blank, a dot and the extension up to its first
/// space; bits 3 and 4 of `nt_res` lowercase the base and the extension.
pub open spec fn short_name_chars(name: Seq<u8>, nt_res: u8) -> Seq<char> {
    let base = bytes_as_chars(name.subrange(0, space_stop(name, 0, 8)), nt_res & 0x08 != 0);
    if name[8] != 32 {
        base + seq!['.'] + bytes_as_chars(name.subrange(8, space_stop(name, 8, 11)), nt_res & 0x10 != 0)
    } else {
        base
    }
}

/// Append the bytes of `name[from..to]` up to the first space, as
/// characters, lowercased when `to_lower` is set.
fn push_name_part(out: &mut Vec<char>, name: &[u8; 11], from: usize, to: usize, to_lower: bool)
    requires
        from <= to <= 11,
    ensures
        final(out)@ == old(out)@ + bytes_as_chars(name@.subrange(from as int, space_stop(name@, from as int, to as int)), to_lower),
{
    let mut i = from;
    while i < to && name[i] != 32
        invariant
            from <= i <= to <= 11,
            space_stop(name@, i as int, to as int) == space_stop(name@, from as int, to as int),
            out@ == old(out)@ + bytes_as_chars(name@.subrange(from as int, i as int), to_lower),
        decreases to - i,
    {
        let c = name[i];
        let c2 = if to_lower && c >= 65 && c <= 90 { c + 32 } else { c };
        out.push(c2 as char);
        i = i + 1;
        assert(out@ =~= old(out)@ + bytes_as_chars(name@.subrange(from as int, i as int), to_lower));
    }
}

/// The display name of an 8.3 name (see `short_name_chars`).
pub fn short_name_to_str(name: &[u8; 11], nt_res: u8) -> (s: String)
    ensures
        s@ == short_name_chars(name@, nt_res),
{
    let base_lower = (nt_res & 0x08) != 0;
    let ext_lower = (nt_res & 0x10) != 0;
    let mut chars: Vec<char> = Vec::new();
    push_name_part(&mut chars, name, 0, 8, base_lower);
    if name[8] != 32 {
        chars.push('.');
        push_name_part(&mut chars, name, 8, 11, ext_lower);
    }
    assert(chars@ =~= short_name_chars(name@, nt_res));
    string_from_chars(chars.as_slice())
}

/// `String::from_iter` over characters.  Its documentation states that the
/// string holds the characters in order; that is what this contract claims.
#[verifier::external_body]
pub(crate) fn string_from_chars(chars: &[char]) -> (s: String)
    ensures
        s@ == chars@,
{
    chars.iter().collect()
}

/// Index of the first byte `b` in `s`, if any.
pub open spec fn first_index_of(s: Seq<u8>, b: u8) -> Option<int> {
    if exists|i: int| 0 <= i < s.len() && s[i] == b {
        Some(choose|i: int| 0 <= i < s.len() && s[i] == b && forall|k: int| 0 <= k < i ==> s[k] != b)
    } else {
        None
    }
}

/// Index of the last byte `b` in `s`, if any.
pub open spec fn last_index_of(s: Seq<u8>, b: u8) -> Option<int> {
    if exists|i: int| 0 <= i < s.len() && s[i] == b {
        Some(choose|i: int| 0 <= i < s.len() && s[i] == b && forall|k: int| i < k < s.len() ==> s[k] != b)
    } else {
        None
    }
}

/// `s` split at the dot at `dot` (base before, extension after), or all
/// base when there is none.
pub open spec fn split_at_dot(s: Seq<u8>, dot: Option<int>) -> (Seq<u8>, Seq<u8>) {
    match dot {
        Some(p) => (s.subrange(0, p), s.subrange(p + 1, s.len() as int)),
        None => (s, Seq::empty()),
    }
}

/// Some byte of `s` is an ASCII uppercase letter.
pub open spec fn has_upper(s: Seq<u8>) -> bool {
    exists|i: int| 0 <= i < s.len() && is_upper(s[i])
}

/// Some byte of `s` is an ASCII lowercase letter.
pub open spec fn has_lower(s: Seq<u8>) -> bool {
    exists|i: int| 0 <= i < s.len() && is_lower(s[i])
}

/// The stored 8.3 name of `s` (split at its first dot): base and extension
/// uppercased, cut to 8 and 3 bytes, padded with spaces.
pub open spec fn short_name_of(s: Seq<u8>) -> Seq<u8> {
    let (base, ext) = split_at_dot(s, first_index_of(s, 46));
    Seq::new(11, |i: int| if i < 8 {
        if i < base.len() { upper(base[i]) } else { 32u8 }
    } else {
        if i - 8 < ext.len() { upper(ext[i - 8]) } else { 32u8 }
    })
}

/// The NTRes case bits of `s`: bit 3 when the base has lowercase letters
/// and no uppercase ones, bit 4 likewise for the extension.
pub open spec fn nt_res_of(s: Seq<u8>) -> u8 {
    let (base, ext) = split_at_dot(s, first_index_of(s, 46));
    let b: u8 = if !has_upper(base) && has_lower(base) { 0x08 } else { 0 };
    let e: u8 = if !has_upper(ext) && has_lower(ext) { 0x10 } else { 0 };
    b | e
}

/// Position of the first `b` in `s`.
fn find_byte(s: &[u8], b: u8) -> (r: Option<usize>)
    ensures
        match r {
            Some(i) => first_index_of(s@, b) == Some(i as int) && i < s@.len(),
            None => first_index_of(s@, b) is None,
        },
{
    let n = s.len();
    let mut i: usize = 0;
    while i < n
        invariant
            n == s@.len(),
            i <= n,
            forall|k: int| 0 <= k < i ==> s@[k] != b,
        decreases n - i,
    {
        if s[i] == b {
            proof {
                let c = choose|j: int| 0 <= j < s@.len() && s@[j] == b && forall|k: int| 0 <= k < j ==> s@[k] != b;
                if c < i { } else if c > i { assert(s@[i as int] != b); }
            }
            return Some(i);
        }
        i = i + 1;
    }
    None
}

/// Position of the last `b` in `s`.
fn rfind_byte(s: &[u8], b: u8) -> (r: Option<usize>)
    ensures
        match r {
            Some(i) => last_index_of(s@, b) == Some(i as int) && i < s@.len(),
            None => last_index_of(s@, b) is None,
        },
{
    let n = s.len();
    let mut i: usize = n;
    while i > 0
        invariant
            n == s@.len(),
            i <= n,
            forall|k: int| i <= k < n ==> s@[k] != b,
        decreases i,
    {
        if s[i - 1] == b {
            proof {
                let c = choose|j: int| 0 <= j < s@.len() && s@[j] == b && forall|k: int| j < k < s@.len() ==> s@[k] != b;
                if c < i - 1 { assert(s@[i - 1] != b); } else if c > i - 1 { }
            }
            return Some(i - 1);
        }
        i = i - 1;
    }
    None
}

/// Does `s` hold an ASCII letter in the range `lo..=hi`?
fn any_in_range(s: &[u8], lo: u8, hi: u8) -> (b: bool)
    ensures
        b == any_in_range_spec(s@, lo, hi),
{
    let n = s.len();
    let mut i: usize = 0;
    while i < n
        invariant
            n == s@.len(),
            i <= n,
            forall|k: int| 0 <= k < i ==> !(lo <= #[trigger] s@[k] <= hi),
        decreases n - i,
    {
        if s[i] >= lo && s[i] <= hi {
            return true;
        }
        i = i + 1;
    }
    false
}

/// Split `s` at `dot` into base and extension.
fn split_dot<'a>(s: &'a [u8], dot: Option<usize>) -> (r: (&'a [u8], &'a [u8]))
    requires
        dot matches Some(p) ==> p < s@.len(),
    ensures
        (r.0@, r.1@) == split_at_dot(s@, match dot { Some(p) => Some(p as int), None => None }),
{
    let n = s.len();
    match dot {
        Some(p) => (slice_subrange(s, 0, p), slice_subrange(s, p + 1, n)),
        None => (s, slice_subrange(s, 0, 0)),
    }
}

/// `name` fits an 8.3 entry as it is: no spaces, a base of one to eight
/// bytes before its first dot, an extension of one to three bytes with no
/// further dot (or no dot at all), and neither part in mixed case.
pub open spec fn fits_short_name(name: Seq<u8>) -> bool {
    let (base, ext) = split_at_dot(name, first_index_of(name, 46));
    &&& forall|i: int| 0 <= i < name.len() ==> name[i] != 32
    &&& 1 <= base.len() <= 8
    &&& ext.len() <= 3
    &&& (first_index_of(name, 46) is Some ==> ext.len() >= 1)
    &&& forall|i: int| 0 <= i < ext.len() ==> ext[i] != 46
    &&& !(has_upper(base) && has_lower(base))
    &&& !(has_upper(ext) && has_lower(ext))
}

/// When `b` occurs in `s` from `from` on, there is a first occurrence.
proof fn lemma_first_occurrence(s: Seq<u8>, b: u8, from: int)
    requires
        0 <= from <= s.len(),
        forall|k: int| 0 <= k < from ==> s[k] != b,
        exists|i: int| from <= i < s.len() && s[i] == b,
    ensures
        exists|i: int| 0 <= i < s.len() && s[i] == b && forall|k: int| 0 <= k < i ==> s[k] != b,
    decreases s.len() - from,
{
    if s[from] == b {
        assert(forall|k: int| 0 <= k < from ==> s[k] != b);
    } else {
        lemma_first_occurrence(s, b, from + 1);
    }
}

/// The first space of `name[from..to]` is at `stop` when the bytes before
/// it are not spaces and it is a space or the end.
proof fn lemma_space_stop_at(name: Seq<u8>, from: int, to: int, stop: int)
    requires
        from <= stop <= to,
        forall|k: int| from <= k < stop ==> name[k] != 32,
        stop < to ==> name[stop] == 32,
    ensures
        space_stop(name, from, to) == stop,
    decreases stop - from,
{
    if from < stop {
        lemma_space_stop_at(name, from + 1, to, stop);
    }
}

/// Upper-casing a part that is not in mixed case, then lower-casing it
/// again exactly when it has lowercase letters, gives the part back.
proof fn lemma_case_restored(part: Seq<u8>, stored: Seq<u8>, to_lower: bool)
    requires
        !(has_upper(part) && has_lower(part)),
        to_lower == (!has_upper(part) && has_lower(part)),
        stored.len() == part.len(),
        forall|i: int| 0 <= i < part.len() ==> stored[i] == upper(part[i]),
    ensures
        bytes_as_chars(stored, to_lower) == bytes_as_chars(part, false),
{
    assert forall|i: int| 0 <= i < part.len() implies
        (if to_lower { lower(stored[i]) } else { stored[i] }) == part[i] by {
        if is_lower(part[i]) {
            assert(has_lower(part));
        }
        if is_upper(part[i]) {
            assert(has_upper(part));
        }
    }
    assert(bytes_as_chars(stored, to_lower) =~= bytes_as_chars(part, false));
}

/// A name that fits an 8.3 entry is shown again exactly as it was given:
/// the NTRes case bits of `name_to_short` restore the case that the stored
/// (uppercase) form loses.
pub proof fn lemma_short_name_round_trip(name: Seq<u8>)
    requires
        fits_short_name(name),
    ensures
        short_name_chars(short_name_of(name), nt_res_of(name)) == bytes_as_chars(name, false),
{
    let dot = first_index_of(name, 46);
    let (base, ext) = split_at_dot(name, dot);
    let sn = short_name_of(name);
    let b: u8 = if !has_upper(base) && has_lower(base) { 0x08 } else { 0 };
    let e: u8 = if !has_upper(ext) && has_lower(ext) { 0x10 } else { 0 };
    assert(nt_res_of(name) == b | e);
    assert((b | e) & 0x08u8 != 0 <==> b == 0x08) by (bit_vector)
        requires b == 0 || b == 8, e == 0 || e == 16;
    assert((b | e) & 0x10u8 != 0 <==> e == 0x10) by (bit_vector)
        requires b == 0 || b == 8, e == 0 || e == 16;
    if exists|i: int| 0 <= i < name.len() && name[i] == 46 {
        lemma_first_occurrence(name, 46, 0);
    }
    match dot {
        Some(p) => {
            assert(0 <= p < name.len() && name[p] == 46);
            assert(base == name.subrange(0, p));
            assert(ext == name.subrange(p + 1, name.len() as int));
        },
        None => {},
    }
    assert forall|k: int| 0 <= k < base.len() implies base[k] != 32 by {
        assert(base[k] == name[k]);
    }
    assert forall|k: int| 0 <= k < ext.len() implies ext[k] != 32 by {
        assert(ext[k] == name[dot->Some_0 + 1 + k]);
    }
    lemma_space_stop_at(sn, 0, 8, base.len() as int);
    lemma_space_stop_at(sn, 8, 11, 8 + ext.len() as int);
    lemma_case_restored(base, sn.subrange(0, base.len() as int), b == 0x08);
    lemma_case_restored(ext, sn.subrange(8, 8 + ext.len() as int), e == 0x10);
    if ext.len() > 0 {
        assert(sn[8] == upper(ext[0]));
        assert(sn[8] != 32);
        let p = dot->Some_0;
        assert(name =~= base + seq![46u8] + ext);
        assert(bytes_as_chars(name, false) =~= bytes_as_chars(base, false) + seq!['.'] + bytes_as_chars(ext, false));
    } else {
        assert(sn[8] == 32);
        assert(dot is None);
        assert(base =~= name);
    }
}

/// Convert `name` to its stored 8.3 form in `out` and return the NTRes case
/// bits that let the original case be shown again.
pub fn name_to_short(name: &str, out: &mut [u8; 11]) -> (nt_res: u8)
    ensures
        final(out)@ == short_name_of(name.spec_bytes()),
        nt_res == nt_res_of(name.spec_bytes()),
{
    let bytes = name.as_bytes();
    let dot = find_byte(bytes, 46);
    let (base, ext) = split_dot(bytes, dot);
    let base_has_upper = any_in_range(base, 65, 90);
    let base_has_lower = !base_has_upper && any_in_range(base, 97, 122);
    let ext_has_upper = any_in_range(ext, 65, 90);
    let ext_has_lower = !ext_has_upper && any_in_range(ext, 97, 122);
    let mut i: usize = 0;
    while i < 11
        invariant
            i <= 11,
            forall|k: int| 0 <= k < i ==> #[trigger] out@[k] == short_name_of(name.spec_bytes())[k],
            (base@, ext@) == split_at_dot(name.spec_bytes(), first_index_of(name.spec_bytes(), 46)),
        decreases 11 - i,
    {
        let c: u8 = if i < 8 {
            if i < base.len() { base[i] } else { 32 }
        } else {
            if i - 8 < ext.len() { ext[i - 8] } else { 32 }
        };
        out[i] = if c >= 97 && c <= 122 { c - 32 } else { c };
        i = i + 1;
    }
    assert(out@ =~= short_name_of(name.spec_bytes()));
    let mut nt: u8 = 0;
    if base_has_lower {
        nt = nt | 0x08;
    }
    if ext_has_lower {
        nt = nt | 0x10;
    }
    proof {
        assert(has_upper(base@) == base_has_upper);
        assert(has_lower(base@) == any_in_range_spec(base@, 97, 122));
        assert(0u8 | 0x08u8 == 0x08u8) by (bit_vector);
        assert(0u8 | 0x10u8 == 0x10u8) by (bit_vector);
        assert(0x08u8 | 0x10u8 == 0x18u8) by (bit_vector);
        assert(0u8 | 0u8 == 0u8) by (bit_vector);
        assert(0x08u8 | 0u8 == 0x08u8) by (bit_vector);
    }
    nt
}

/// Some byte of `s` is in `lo..=hi`.
pub open spec fn any_in_range_spec(s: Seq<u8>, lo: u8, hi: u8) -> bool {
    exists|i: int| 0 <= i < s.len() && lo <= #[trigger] s[i] <= hi
}

/// The VFAT checksum of an 8.3 name after its first `n` bytes.
pub open spec fn vfat_sum(name: Seq<u8>, n: int) -> u8
    decreases n,
{
    if n <= 0 {
        0
    } else {
        let s = vfat_sum(name, n - 1);
        ((((s & 1) << 7u8) as int + (s >> 1u8) as int + name[n - 1] as int) % 256) as u8
    }
}

/// The checksum long-name entries carry for their 8.3 name.
pub fn vfat_checksum(name: &[u8; 11]) -> (sum: u8)
    ensures
        sum == vfat_sum(name@, 11),
{
    let mut sum: u8 = 0;
    let mut i: usize = 0;
    while i < 11
        invariant
            i <= 11,
            sum == vfat_sum(name@, i as int),
        decreases 11 - i,
    {
        sum = ((sum & 1) << 7u8).wrapping_add(sum >> 1u8).wrapping_add(name[i]);
        i = i + 1;
    }
    sum
}

/// `a` and `b` are equal up to ASCII case.
pub open spec fn eq_ignore_ascii_case(a: Seq<u8>, b: Seq<u8>) -> bool {
    a.len() == b.len() && forall|i: int| 0 <= i < a.len() ==> lower(a[i]) == lower(b[i])
}

/// Compare two names byte by byte, ignoring ASCII case.
pub fn names_match_case_insensitive(a: &str, b: &str) -> (m: bool)
    ensures
        m == eq_ignore_ascii_case(a.spec_bytes(), b.spec_bytes()),
{
    let x = a.as_bytes();
    let y = b.as_bytes();
    if x.len() != y.len() {
        return false;
    }
    let n = x.len();
    let mut i: usize = 0;
    while i < n
        invariant
            n == x@.len(),
            n == y@.len(),
            x@ == a.spec_bytes(),
            y@ == b.spec_bytes(),
            i <= n,
            forall|k: int| 0 <= k < i ==> lower(x@[k]) == lower(y@[k]),
        decreases n - i,
    {
        let p = x[i];
        let q = y[i];
        let p2 = if p >= 65 && p <= 90 { p + 32 } else { p };
        let q2 = if q >= 65 && q <= 90 { q + 32 } else { q };
        if p2 != q2 {
            assert(lower(x@[i as int]) != lower(y@[i as int]));
            return false;
        }
        i = i + 1;
    }
    true
}

/// `char::from_u32`.  Its documentation states that it returns the
/// character with that code point exactly when the value is a Unicode
/// scalar value (at most 0x10FFFF and not a surrogate); that is what this
/// contract claims.
#[verifier::external_body]
pub(crate) fn char_from_u32(v: u32) -> (r: Option<char>)
    ensures
        r is Some <==> (v < 0xD800 || (0xE000 <= v <= 0x10FFFF)),
        r matches Some(c) ==> c as u32 == v,
{
    char::from_u32(v)
}

/// The character a UTF-16 code unit of a long name stands for: itself, or
/// U+FFFD for a surrogate.
pub open spec fn lfn_char(ch: u16) -> u32 {
    if 0xD800 <= ch < 0xE000 { 0xFFFD } else { ch as u32 }
}

/// Convert a UTF-16 code unit of a long-name entry to a character.
pub fn lfn_char_to_utf8(ch: u16) -> (c: char)
    ensures
        c as u32 == lfn_char(ch),
{
    if ch < 0x80 {
        return (ch as u8) as char;
    }
    match char_from_u32(ch as u32) {
        Some(c) => c,
        None => '\u{FFFD}',
    }
}

/// The name needs long-name entries: base over 8 or extension over 3 bytes
/// (split at the last dot), a byte that 8.3 names cannot hold, or mixed case
/// in the base or the extension.
pub open spec fn spec_needs_lfn(s: Seq<u8>) -> bool {
    let (base, ext) = split_at_dot(s, last_index_of(s, 46));
    ||| base.len() > 8
    ||| ext.len() > 3
    ||| exists|i: int| 0 <= i < s.len() && is_illegal_83(s[i])
    ||| has_upper(base) && has_lower(base)
    ||| has_upper(ext) && has_lower(ext)
}

/// Without a dot, a name needs long-name entries exactly when it is over
/// eight bytes, holds a byte that 8.3 names cannot (space, `+`, `,`, `;`,
/// `=`, `[`, `]`), or mixes upper- and lowercase letters: "README" and
/// "readme" fit in 8.3, "ReadMe" and "my file" do not.
pub proof fn lemma_needs_lfn_without_dot(s: Seq<u8>)
    requires
        forall|i: int| 0 <= i < s.len() ==> s[i] != 46,
    ensures
        spec_needs_lfn(s) <==> (s.len() > 8
            || (exists|i: int| 0 <= i < s.len() && (#[trigger] s[i] == 32 || s[i] == 43 || s[i] == 44 || s[i] == 59
                || s[i] == 61 || s[i] == 91 || s[i] == 93))
            || ((exists|i: int| 0 <= i < s.len() && 65 <= #[trigger] s[i] <= 90) && (exists|i: int| 0 <= i < s.len() && 97 <= #[trigger] s[i] <= 122))),
{
    assert(last_index_of(s, 46) is None);
    assert(split_at_dot(s, None) == (s, Seq::<u8>::empty()));
    assert(!has_upper(Seq::<u8>::empty()));
}

/// A byte that 8.3 names cannot hold: space, `+`, `,`, `;`, `=`, `[`, `]`.
pub open spec fn is_illegal_83(c: u8) -> bool {
    c == 32 || c == 43 || c == 44 || c == 59 || c == 61 || c == 91 || c == 93
}

fn illegal_83(c: u8) -> (b: bool)
    ensures
        b == is_illegal_83(c),
{
    c == 32 || c == 43 || c == 44 || c == 59 || c == 61 || c == 91 || c == 93
}

/// Does `name` need long-name entries (see `spec_needs_lfn`)?
pub fn needs_lfn(name: &str) -> (b: bool)
    ensures
        b == spec_needs_lfn(name.spec_bytes()),
{
    let bytes = name.as_bytes();
    let dot = rfind_byte(bytes, 46);
    let (base, ext) = split_dot(bytes, dot);
    if base.len() > 8 || ext.len() > 3 {
        return true;
    }
    let n = bytes.len();
    let mut i: usize = 0;
    while i < n
        invariant
            n == bytes@.len(),
            bytes@ == name.spec_bytes(),
            i <= n,
            forall|k: int| 0 <= k < i ==> !is_illegal_83(bytes@[k]),
        decreases n - i,
    {
        if illegal_83(bytes[i]) {
            assert(is_illegal_83(bytes@[i as int]));
            return true;
        }
        i = i + 1;
    }
    let base_up = any_in_range(base, 65, 90);
    let base_lo = any_in_range(base, 97, 122);
    if base_up && base_lo {
        return true;
    }
    let ext_up = any_in_range(ext, 65, 90);
    let ext_lo = any_in_range(ext, 97, 122);
    ext_up && ext_lo
}

/// Number of long-name entries for `name`: one per 13 bytes, rounded up.
pub fn lfn_entry_count(name: &str) -> (n: usize)
    requires
        name.spec_bytes().len() + 12 <= usize::MAX,
    ensures
        n == (name.spec_bytes().len() + 12) / 13,
{
    (name.as_bytes().len() + 12) / 13
}

/// UTF-16 code unit `j` (0..13) of a long-name entry: five in bytes 1–10,
/// six in bytes 14–25, two in bytes 28–31.
pub open spec fn lfn_unit(raw: Seq<u8>, j: int) -> u16 {
    if j < 5 {
        le16(raw, 1 + 2 * j)
    } else if j < 11 {
        le16(raw, 14 + 2 * (j - 5))
    } else {
        le16(raw, 28 + 2 * (j - 11))
    }
}

/// Number of name units of a long-name entry from `j` on, before the first
/// 0x0000 or 0xFFFF.
pub open spec fn lfn_seg_len(raw: Seq<u8>, j: int) -> int
    decreases 13 - j,
{
    if j >= 13 || lfn_unit(raw, j) == 0 || lfn_unit(raw, j) == 0xFFFF {
        j
    } else {
        lfn_seg_len(raw, j + 1)
    }
}

/// The code points of the name part a long-name entry holds.
pub open spec fn lfn_segment(raw: Seq<u8>) -> Seq<u32> {
    Seq::new(lfn_seg_len(raw, 0) as nat, |j: int| lfn_char(lfn_unit(raw, j)))
}

/// Code points of a character sequence.
pub open spec fn codes(s: Seq<char>) -> Seq<u32> {
    s.map_values(|c: char| c as u32)
}

/// Read name unit `j` of a long-name entry.
fn read_lfn_unit(raw: &[u8], j: usize) -> (u: u16)
    requires
        raw@.len() >= 32,
        j < 13,
    ensures
        u == lfn_unit(raw@, j as int),
{
    if j < 5 {
        read_u16_le(raw, 1 + 2 * j)
    } else if j < 11 {
        read_u16_le(raw, 14 + 2 * (j - 5))
    } else {
        read_u16_le(raw, 28 + 2 * (j - 11))
    }
}

/// The name part held by a long-name entry, as characters.
fn lfn_segment_chars(raw: &[u8]) -> (seg: Vec<char>)
    requires
        raw@.len() >= 32,
    ensures
        codes(seg@) == lfn_segment(raw@),
{
    let mut seg: Vec<char> = Vec::new();
    let mut j: usize = 0;
    proof {
        lemma_seg_len_bounds(raw@, 0);
    }
    loop
        invariant
            raw@.len() >= 32,
            j <= 13,
            lfn_seg_len(raw@, j as int) == lfn_seg_len(raw@, 0),
            j <= lfn_seg_len(raw@, 0) <= 13,
            seg@.len() == j,
            forall|k: int| 0 <= k < j ==> #[trigger] codes(seg@)[k] == lfn_char(lfn_unit(raw@, k)),
        ensures
            j == lfn_seg_len(raw@, 0),
            seg@.len() == j,
            forall|k: int| 0 <= k < j ==> #[trigger] codes(seg@)[k] == lfn_char(lfn_unit(raw@, k)),
        decreases 13 - j,
    {
        if j >= 13 {
            break;
        }
        let u = read_lfn_unit(raw, j);
        if u == 0 || u == 0xFFFF {
            break;
        }
        let c = lfn_char_to_utf8(u);
        let ghost before = seg@;
        seg.push(c);
        proof {
            assert(codes(seg@) =~= codes(before).push(c as u32));
            lemma_seg_len_bounds(raw@, j + 1);
        }
        j = j + 1;
    }
    assert(codes(seg@) =~= lfn_segment(raw@));
    seg
}

proof fn lemma_seg_len_bounds(raw: Seq<u8>, j: int)
    requires
        0 <= j <= 13,
    ensures
        j <= lfn_seg_len(raw, j) <= 13,
    decreases 13 - j,
{
    if !(j >= 13 || lfn_unit(raw, j) == 0 || lfn_unit(raw, j) == 0xFFFF) {
        lemma_seg_len_bounds(raw, j + 1);
    }
}

/// Long-name assembly state while scanning a directory.
pub struct ScanView {
    /// Code points of the long name collected so far.
    pub name: Seq<u32>,
    /// Order number of the next expected long-name entry.
    pub expected_ord: int,
    /// Where the long-name entries of the current name start.
    pub start_cluster: u32,
    pub start_index: u32,
    /// How many long-name entries the current name has.
    pub count: u32,
}

/// The scan state with no long name in progress.
pub open spec fn scan_reset() -> ScanView {
    ScanView { name: Seq::empty(), expected_ord: 0, start_cluster: 0, start_index: 0, count: 0 }
}

/// The scan state after the long-name entry `raw` at (`cluster`, `index`):
/// an entry flagged last starts a new name; an entry with the expected
/// order number prepends its part.
pub open spec fn scan_lfn(s: ScanView, raw: Seq<u8>, cluster: u32, index: u32) -> ScanView {
    let ord = (raw[0] & 0x1F) as int;
    let s1 = if raw[0] & 0x40 != 0 {
        ScanView { name: Seq::empty(), expected_ord: ord, start_cluster: cluster, start_index: index, count: ord as u32 }
    } else {
        s
    };
    if ord == s1.expected_ord {
        ScanView { name: lfn_segment(raw) + s1.name, expected_ord: s1.expected_ord - 1, ..s1 }
    } else {
        s1
    }
}

/// Long-name assembly state.
pub struct LfnScan {
    name: Vec<char>,
    expected_ord: i32,
    start_cluster: u32,
    start_index: u32,
    count: u32,
}

impl View for LfnScan {
    type V = ScanView;

    closed spec fn view(&self) -> ScanView {
        ScanView {
            name: codes(self.name@),
            expected_ord: self.expected_ord as int,
            start_cluster: self.start_cluster,
            start_index: self.start_index,
            count: self.count,
        }
    }
}

impl LfnScan {
    /// The expected order number stays in `-1..=31`.
    pub closed spec fn wf(&self) -> bool {
        -1 <= self.expected_ord <= 31
    }

    /// The characters of the long name collected so far.
    pub closed spec fn chars(&self) -> Seq<char> {
        self.name@
    }

    /// A scan with no long name in progress.
    pub fn new() -> (s: Self)
        ensures
            s@ == scan_reset(),
            s.wf(),
    {
        let s = LfnScan { name: Vec::new(), expected_ord: 0, start_cluster: 0, start_index: 0, count: 0 };
        assert(codes(s.name@) =~= Seq::<u32>::empty());
        s
    }

    /// Forget the long name in progress.
    pub fn reset(&mut self)
        ensures
            final(self)@ == scan_reset(),
            final(self).wf(),
    {
        self.name = Vec::new();
        self.expected_ord = 0;
        self.start_cluster = 0;
        self.start_index = 0;
        self.count = 0;
        assert(codes(self.name@) =~= Seq::<u32>::empty());
    }

    /// Feed the long-name entry `raw` found at (`cluster`, `index`).
    pub fn feed_lfn(&mut self, raw: &[u8], cluster: u32, index: u32)
        requires
            old(self).wf(),
            raw@.len() >= 32,
        ensures
            final(self).wf(),
            final(self)@ == scan_lfn(old(self)@, raw@, cluster, index),
    {
        let ord_byte = raw[0];
        let ord: i32 = (ord_byte & 0x1F) as i32;
        assert((ord_byte & 0x1F) <= 31) by (bit_vector);
        if ord_byte & 0x40 != 0 {
            self.expected_ord = ord;
            self.name = Vec::new();
            self.start_cluster = cluster;
            self.start_index = index;
            self.count = ord as u32;
            assert(codes(self.name@) =~= Seq::<u32>::empty());
        }
        if ord == self.expected_ord {
            let mut seg = lfn_segment_chars(raw);
            let ghost old_name = self.name@;
            let ghost segc = seg@;
            seg.append(&mut self.name);
            self.name = seg;
            assert(codes(self.name@) =~= codes(segc) + codes(old_name));
            self.expected_ord = self.expected_ord - 1;
        }
    }

    /// Whether a long name has been collected.
    pub fn has_name(&self) -> (b: bool)
        ensures
            b == (self@.name.len() > 0),
    {
        self.name.len() > 0
    }

    /// The collected long name as a string.
    pub fn name_string(&self) -> (s: String)
        ensures
            s@ == self.chars(),
            codes(s@) == self@.name,
    {
        string_from_chars(self.name.as_slice())
    }

    /// The first cluster, first slot and number of the long-name entries.
    pub fn start(&self) -> (r: (u32, u32, u32))
        ensures
            r == (self@.start_cluster, self@.start_index, self@.count),
    {
        (self.start_cluster, self.start_index, self.count)
    }
}

/// Bit `i` of a bitmap (bit `i % 8` of byte `i / 8`).
pub open spec fn bit_set(bitmap: Seq<u8>, i: int) -> bool {
    bitmap[i / 8] & (1u8 << ((i % 8) as u8)) != 0
}

/// The FAT entry value stored at `off` of a FAT sector (top four bits
/// masked off).
pub open spec fn fat_value(buf: Seq<u8>, off: int) -> u32 {
    le32(buf, off) & 0x0FFF_FFFF
}

/// The data region starts with cluster 2, and each cluster's sectors
/// follow the previous cluster's: cluster `c` starts `(c - 2)` clusters of
/// `sectors_per_cluster` sectors into the data region.
pub proof fn lemma_cluster_layout<D: BlockDevice>(data_start_lba: u64, sectors_per_cluster: u32, c: u32)
    requires
        2 <= c < u32::MAX,
    ensures
        Fat32Volume::<D>::spec_cluster_lba(data_start_lba, sectors_per_cluster, 2) == data_start_lba,
        Fat32Volume::<D>::spec_cluster_lba(data_start_lba, sectors_per_cluster, (c + 1) as u32)
            == Fat32Volume::<D>::spec_cluster_lba(data_start_lba, sectors_per_cluster, c) + sectors_per_cluster,
{
    assert((c + 1 - 2) * sectors_per_cluster == (c - 2) * sectors_per_cluster + sectors_per_cluster) by (nonlinear_arith);
}

/// Patching a FAT entry as `patch_fat_entry` does stores the value's low
/// 28 bits, which then read back as the entry; the top four bits stay as
/// they were, and every byte outside the entry is kept.
pub proof fn lemma_fat_patch_reads_back(buf: Seq<u8>, off: int, value: u32)
    requires
        0 <= off,
        off + 4 <= buf.len(),
    ensures
        ({
            let x = le32(buf, off);
            let p = spliced(buf, off, vstd::bytes::spec_u32_to_le_bytes((value & 0x0FFF_FFFF) | (x & 0xF000_0000)));
            &&& p.len() == buf.len()
            &&& fat_value(p, off) == value & 0x0FFF_FFFF
            &&& le32(p, off) & 0xF000_0000 == x & 0xF000_0000
            &&& forall|i: int| 0 <= i < buf.len() && !(off <= i < off + 4) ==> #[trigger] p[i] == buf[i]
        }),
{
    let x = le32(buf, off);
    let nv = (value & 0x0FFF_FFFF) | (x & 0xF000_0000);
    crate::bytes::lemma_le_codec();
    let b = vstd::bytes::spec_u32_to_le_bytes(nv);
    let p = spliced(buf, off, b);
    assert(p.subrange(off, off + 4) =~= b);
    assert(le32(p, off) == nv);
    assert(nv & 0x0FFF_FFFF == value & 0x0FFF_FFFF && nv & 0xF000_0000 == x & 0xF000_0000) by (bit_vector)
        requires nv == (value & 0x0FFF_FFFF) | (x & 0xF000_0000);
    assert forall|i: int| 0 <= i < buf.len() && !(off <= i < off + 4) implies #[trigger] p[i] == buf[i] by {
        if i < off {
            assert(p[i] == buf.subrange(0, off)[i]);
        } else {
            assert(p[i] == buf.subrange(off + 4, buf.len() as int)[i - off - 4]);
        }
    }
}

/// Set the FAT entry at `off` of a FAT sector to `value`, keeping the top
/// four bits already stored there.
pub fn patch_fat_entry(buf: &mut [u8], off: usize, value: u32)
    requires
        off + 4 <= old(buf)@.len(),
    ensures
        final(buf)@ == spliced(old(buf)@, off as int,
            vstd::bytes::spec_u32_to_le_bytes((value & 0x0FFF_FFFF) | (le32(old(buf)@, off as int) & 0xF000_0000))),
        final(buf)@.len() == old(buf)@.len(),
{
    let existing = read_u32_le(buf, off);
    let new_value = (value & 0x0FFF_FFFF) | (existing & 0xF000_0000);
    let bytes = vstd::bytes::u32_to_le_bytes(new_value);
    proof {
        crate::bytes::lemma_le_codec();
    }
    write_bytes_at(buf, off, bytes.as_slice());
}

/// All state of one FAT32 volume.
pub struct Fat32Volume<D: BlockDevice> {
    disk: D,
    partition_start_lba: u64,
    bytes_per_sector: u32,
    sectors_per_cluster: u32,
    bytes_per_cluster: u32,
    fat_start_lba: u64,
    fat_sectors: u32,
    num_fats: u32,
    data_start_lba: u64,
    root_cluster: u32,
    total_clusters: u32,
    fsinfo_sector: u64,
    free_clusters: u32,
    fat_bitmap: Vec<u8>,
    cluster_buf: Vec<u8>,
    fat_cache_sector: u64,
    fat_cache_buf: Vec<u8>,
    volume_label: [u8; 11],
    volume_id: u32,
    ready: bool,
}

impl<D: BlockDevice> Fat32Volume<D> {
    /// Buffers have their sizes, the bitmap has a bit per cluster, and the
    /// geometry leaves room for sector arithmetic.
    pub closed spec fn wf(&self) -> bool {
        &&& self.shape_wf()
        &&& self.cache_coherent()
    }

    /// The buffer sizes and geometry bounds of `wf`.
    pub closed spec fn shape_wf(&self) -> bool {
        &&& self.cluster_buf@.len() == self.bytes_per_cluster
        &&& self.fat_cache_buf@.len() == 512
        &&& self.fat_bitmap@.len() == (self.total_clusters as int + 7) / 8
        &&& self.total_clusters <= u32::MAX - 9
        &&& self.sectors_per_cluster <= 255
        &&& self.fat_start_lba <= 0xFFFF
        &&& self.data_start_lba <= 0x1_0000_0000_0000
        &&& self.num_fats <= 255
    }

    /// The disk sector the FAT cache holds (when it holds one).
    pub closed spec fn cache_abs_sector(&self) -> int {
        wrapped_add(self.partition_start_lba, self.fat_cache_sector)
    }

    /// The cached FAT sector, when there is one, holds what the device
    /// holds there.
    pub closed spec fn cache_coherent(&self) -> bool {
        self.fat_cache_sector != NO_CACHED_SECTOR ==> {
            &&& (self.cache_abs_sector() + 1) * 512 <= self.disk.spec_contents().len()
            &&& self.fat_cache_buf@ == sectors_of(self.disk.spec_contents(), self.cache_abs_sector(), 1)
        }
    }

    /// The cache is coherent but perhaps for a cached sector among the
    /// `count` sectors from `abs` on.
    pub closed spec fn coherent_outside(&self, abs: int, count: int) -> bool {
        self.fat_cache_sector != NO_CACHED_SECTOR && abs <= self.cache_abs_sector() < abs + count
            || self.cache_coherent()
    }

    /// The bytes the device holds.
    pub closed spec fn spec_disk_contents(&self) -> Seq<u8> {
        self.disk.spec_contents()
    }

    /// The FAT entry of `cluster` as the device holds it in the first FAT
    /// (top four bits masked off).
    pub closed spec fn spec_fat_entry(&self, cluster: u32) -> u32 {
        fat_entry_on_disk(self.disk.spec_contents(), self.partition_start_lba, self.fat_start_lba, cluster)
    }

    /// Drop the cached FAT sector when it lies among the `count` sectors
    /// from `abs` on (which have just been written).
    fn forget_cached_in(&mut self, abs: u64, count: u32)
        requires
            old(self).shape_wf(),
            old(self).coherent_outside(abs as int, count as int),
        ensures
            final(self).wf(),
            final(self).unchanged_except_buffers(old(self)),
            final(self).disk == old(self).disk,
            final(self).cluster_buf@ == old(self).cluster_buf@,
            final(self).fat_cache_buf@ == old(self).fat_cache_buf@,
    {
        if self.fat_cache_sector != NO_CACHED_SECTOR {
            let cached = self.partition_start_lba.wrapping_add(self.fat_cache_sector);
            if cached >= abs && cached - abs < count as u64 {
                self.fat_cache_sector = NO_CACHED_SECTOR;
            }
        }
    }

    /// The volume was initialised from a valid boot sector.
    pub closed spec fn is_ready(&self) -> bool {
        self.ready
    }

    /// Number of data clusters.
    pub closed spec fn spec_total_clusters(&self) -> u32 {
        self.total_clusters
    }

    /// Directory slots per cluster.
    pub closed spec fn spec_slots_per_cluster(&self) -> int {
        (self.bytes_per_cluster / 32) as int
    }

    /// The cluster bitmap.
    pub closed spec fn spec_bitmap(&self) -> Seq<u8> {
        self.fat_bitmap@
    }

    /// An uninitialised volume on `disk` starting at `start_lba`.
    pub fn new(disk: D, start_lba: u64) -> (v: Self)
        ensures
            v.wf(),
            !v.is_ready(),
            v.spec_partition_start() == start_lba,
            v.spec_disk_contents() == disk.spec_contents(),
    {
        Fat32Volume {
            disk,
            partition_start_lba: start_lba,
            bytes_per_sector: 0,
            sectors_per_cluster: 0,
            bytes_per_cluster: 0,
            fat_start_lba: 0,
            fat_sectors: 0,
            num_fats: 0,
            data_start_lba: 0,
            root_cluster: 0,
            total_clusters: 0,
            fsinfo_sector: 0,
            free_clusters: 0,
            fat_bitmap: Vec::new(),
            cluster_buf: Vec::new(),
            fat_cache_sector: NO_CACHED_SECTOR,
            fat_cache_buf: vec_of_zeros(512),
            volume_label: [32u8; 11],
            volume_id: 0,
            ready: false,
        }
    }

    /// Read sectors at `lba` relative to the partition start (the device
    /// sector number wraps at 2^64).
    fn read_sectors_into(&self, lba: u64, count: u32, buf: &mut [u8]) -> (ok: bool)
        ensures
            final(buf)@.len() == old(buf)@.len(),
            ok ==> count * 512 <= old(buf)@.len() && final(buf)@.subrange(0, count * 512)
                == sectors_of(self.disk.spec_contents(), wrapped_add(self.partition_start_lba, lba), count as int)
                && (wrapped_add(self.partition_start_lba, lba) + count) * 512 <= self.disk.spec_contents().len(),
    {
        self.disk.read_sectors(self.partition_start_lba.wrapping_add(lba), count, buf)
    }

    /// Write sectors at `lba` relative to the partition start.
    fn write_sectors_from(&mut self, lba: u64, count: u32, buf: &[u8]) -> (ok: bool)
        requires
            old(self).wf(),
        ensures
            final(self).wf(),
            final(self).same_but_disk(old(self)),
    {
        let abs = self.partition_start_lba.wrapping_add(lba);
        let ghost before = *self;
        let ok = self.disk.write_sectors(abs, count, buf);
        proof {
            lemma_write_keeps_outside(before.disk.spec_contents(), self.disk.spec_contents(), abs as int, count as int,
                buf@, ok);
            if before.fat_cache_sector != NO_CACHED_SECTOR && !(abs <= before.cache_abs_sector() < abs + count) {
                lemma_sector_kept(before.disk.spec_contents(), self.disk.spec_contents(), abs as int, count as int,
                    before.cache_abs_sector());
            }
        }
        self.forget_cached_in(abs, count);
        ok
    }

    /// Everything but the device is as in `other`.
    pub closed spec fn same_but_disk(&self, other: &Self) -> bool {
        &&& self.partition_start_lba == other.partition_start_lba
        &&& self.spec_geometry() == other.spec_geometry()
        &&& self.free_clusters == other.free_clusters
        &&& self.fat_bitmap@ == other.fat_bitmap@
        &&& self.cluster_buf@ == other.cluster_buf@
        &&& self.fat_cache_buf@ == other.fat_cache_buf@
        &&& self.ready == other.ready
        &&& self.volume_label == other.volume_label
        &&& self.volume_id == other.volume_id
    }

    /// First sector (relative to the partition) of data cluster `cluster`.
    pub open spec fn spec_cluster_lba(data_start_lba: u64, sectors_per_cluster: u32, cluster: u32) -> int {
        data_start_lba + (cluster - 2) * sectors_per_cluster
    }

    /// First sector (relative to the partition) of data cluster `cluster`.
    fn cluster_lba(&self, cluster: u32) -> (lba: u64)
        requires
            self.wf(),
            cluster >= 2,
        ensures
            lba == Self::spec_cluster_lba(self.data_start_lba, self.sectors_per_cluster, cluster),
    {
        proof {
            vstd::arithmetic::mul::lemma_mul_upper_bound((cluster - 2) as int, 0xFFFF_FFFF, self.sectors_per_cluster as int, 255);
        }
        self.data_start_lba + (cluster - 2) as u64 * self.sectors_per_cluster as u64
    }

    /// Read data cluster `cluster` into the scratch buffer.  `false` for a
    /// cluster number below the data region or a failed read.
    fn read_cluster(&mut self, cluster: u32) -> (ok: bool)
        requires
            old(self).wf(),
        ensures
            final(self).wf(),
            final(self).unchanged_except_buffers(old(self)),
            final(self).disk == old(self).disk,
            final(self).fat_cache_buf@ == old(self).fat_cache_buf@,
            final(self).fat_cache_sector == old(self).fat_cache_sector,
            cluster < 2 ==> !ok,
            ok ==> old(self).cluster_read(cluster, final(self).cluster_buf@),
    {
        if cluster < 2 {
            return false;
        }
        let lba = self.cluster_lba(cluster);
        let sectors = self.sectors_per_cluster;
        let abs = self.partition_start_lba.wrapping_add(lba);
        self.disk.read_sectors(abs, sectors, self.cluster_buf.as_mut_slice())
    }

    /// `data` is what a read of cluster `cluster` leaves in the cluster
    /// buffer: its sectors as the device holds them, from the cluster's
    /// first sector on (a cluster's bytes past its sectors, when sectors
    /// are larger than 512 bytes, are what the buffer held).
    pub closed spec fn cluster_read(&self, cluster: u32, data: Seq<u8>) -> bool {
        &&& cluster >= 2
        &&& data.len() == self.bytes_per_cluster
        &&& self.sectors_per_cluster * 512 <= data.len()
        &&& data.subrange(0, self.sectors_per_cluster * 512) == sectors_of(self.disk.spec_contents(),
            wrapped_add(self.partition_start_lba, Self::spec_cluster_lba(self.data_start_lba, self.sectors_per_cluster, cluster) as u64),
            self.sectors_per_cluster as int)
    }

    /// `cs` are the clusters of the chain starting at `first`, as read in
    /// order: cluster `ids[k]` read into `cs[k]`, each next cluster the FAT
    /// entry of the one before it as the device holds it.
    pub closed spec fn chain_read(&self, first: u32, cs: Seq<Seq<u8>>, ids: Seq<u32>) -> bool {
        &&& cs.len() == ids.len()
        &&& (ids.len() > 0 ==> ids[0] == first)
        &&& forall|k: int| 0 <= k < ids.len() ==> #[trigger] self.cluster_read(ids[k], cs[k])
        &&& forall|k: int| 0 <= k < ids.len() - 1 ==> #[trigger] ids[k + 1] == self.spec_fat_entry(ids[k])
    }

    /// Write the scratch buffer to data cluster `cluster`.
    fn write_cluster(&mut self, cluster: u32) -> (ok: bool)
        requires
            old(self).wf(),
        ensures
            final(self).wf(),
            final(self).same_but_disk(old(self)),
            cluster < 2 ==> !ok,
            ok ==> final(self).cluster_on_disk(cluster, final(self).cluster_buf@),
    {
        if cluster < 2 {
            return false;
        }
        let lba = self.cluster_lba(cluster);
        let sectors = self.sectors_per_cluster;
        let abs = self.partition_start_lba.wrapping_add(lba);
        let ghost before = *self;
        let ok = self.disk.write_sectors(abs, sectors, self.cluster_buf.as_slice());
        proof {
            lemma_write_keeps_outside(before.disk.spec_contents(), self.disk.spec_contents(), abs as int, sectors as int,
                self.cluster_buf@, ok);
            if before.fat_cache_sector != NO_CACHED_SECTOR && !(abs <= before.cache_abs_sector() < abs + sectors) {
                lemma_sector_kept(before.disk.spec_contents(), self.disk.spec_contents(), abs as int, sectors as int,
                    before.cache_abs_sector());
            }
        }
        self.forget_cached_in(abs, sectors);
        proof {
            if ok {
                lemma_sectors_after_write(before.disk.spec_contents(), abs as int, sectors as int, self.cluster_buf@.subrange(0, sectors * 512));
            }
        }
        ok
    }

    /// The device holds `data` in the sectors of cluster `cluster` (as
    /// many bytes of it as the cluster's sectors take).
    pub closed spec fn cluster_on_disk(&self, cluster: u32, data: Seq<u8>) -> bool {
        &&& self.sectors_per_cluster * 512 <= data.len()
        &&& sectors_of(self.disk.spec_contents(),
            wrapped_add(self.partition_start_lba, Self::spec_cluster_lba(self.data_start_lba, self.sectors_per_cluster, cluster) as u64),
            self.sectors_per_cluster as int) == data.subrange(0, self.sectors_per_cluster * 512)
    }

    /// Slot `i` of data cluster `cluster` holds `e` on the device, as far
    /// as the slot lies in the sectors a cluster write covers.
    pub closed spec fn dir_slot_on_disk(&self, cluster: u32, i: int, e: Fat32DirEntry) -> bool {
        32 * i + 32 <= self.sectors_per_cluster * 512 ==> slot_bytes(sectors_of(self.disk.spec_contents(),
            wrapped_add(self.partition_start_lba, Self::spec_cluster_lba(self.data_start_lba, self.sectors_per_cluster, cluster) as u64),
            self.sectors_per_cluster as int), i) == e.spec_encode()
    }

    /// Slot `i` of cluster `cluster` holds, on the device, an 8.3 entry
    /// with attributes `attr`, first cluster `first` and size `size`.
    pub open spec fn dir_entry_written(&self, cluster: u32, i: int, attr: u8, first: u32, size: u32) -> bool {
        exists|e: Fat32DirEntry| #[trigger] self.dir_slot_on_disk(cluster, i, e) && e.attr == attr
            && spec_entry_cluster(e) == first && e.file_size == size
    }

    /// On the device, slot `i` of data cluster `cluster` starts with the
    /// deleted mark, as far as the slot lies in the sectors a cluster write
    /// covers.
    pub closed spec fn slot_deleted_on_disk(&self, cluster: u32, i: int) -> bool {
        32 * i + 32 <= self.sectors_per_cluster * 512 ==> sectors_of(self.disk.spec_contents(),
            wrapped_add(self.partition_start_lba, Self::spec_cluster_lba(self.data_start_lba, self.sectors_per_cluster, cluster) as u64),
            self.sectors_per_cluster as int)[32 * i] == DIR_ENTRY_DELETED
    }

    /// Some directory slot holds, on the device, an 8.3 entry with
    /// attributes `attr`, first cluster `first` and size `size`.
    pub open spec fn holds_dir_entry(&self, attr: u8, first: u32, size: u32) -> bool {
        exists|c: u32, i: int| #[trigger] self.dir_entry_written(c, i, attr, first, size)
    }

    /// A cluster written from `data` holds slot `i` of `data`.
    proof fn lemma_slot_written(&self, cluster: u32, data: Seq<u8>, i: int)
        requires
            self.cluster_on_disk(cluster, data),
            0 <= i,
            32 * i + 32 <= data.len(),
        ensures
            forall|e: Fat32DirEntry| slot_bytes(data, i) == e.spec_encode() ==> #[trigger] self.dir_slot_on_disk(cluster, i, e),
    {
        assert forall|e: Fat32DirEntry| slot_bytes(data, i) == e.spec_encode() implies #[trigger] self.dir_slot_on_disk(cluster, i, e) by {
            if 32 * i + 32 <= self.sectors_per_cluster * 512 {
                let sec = sectors_of(self.disk.spec_contents(),
                    wrapped_add(self.partition_start_lba, Self::spec_cluster_lba(self.data_start_lba, self.sectors_per_cluster, cluster) as u64),
                    self.sectors_per_cluster as int);
                assert(sec == data.subrange(0, self.sectors_per_cluster * 512));
                assert(slot_bytes(sec, i) =~= slot_bytes(data, i));
            }
        }
    }

    /// The geometry the volume was set up with.
    pub closed spec fn spec_geometry(&self) -> Fat32Geometry {
        Fat32Geometry {
            bytes_per_sector: self.bytes_per_sector,
            sectors_per_cluster: self.sectors_per_cluster,
            bytes_per_cluster: self.bytes_per_cluster,
            fat_start_lba: self.fat_start_lba,
            fat_sectors: self.fat_sectors,
            num_fats: self.num_fats,
            data_start_lba: self.data_start_lba,
            root_cluster: self.root_cluster,
            total_clusters: self.total_clusters,
            fsinfo_sector: self.fsinfo_sector,
            volume_label: self.volume_label,
            volume_id: self.volume_id,
        }
    }

    /// The first sector of the partition on the disk.
    pub closed spec fn spec_partition_start(&self) -> u64 {
        self.partition_start_lba
    }

    /// The cluster buffer: the directory or data cluster last read or
    /// prepared for writing.
    pub closed spec fn spec_cluster_buf(&self) -> Seq<u8> {
        self.cluster_buf@
    }

    /// Everything but the scratch and FAT cache buffers is as in `other`.
    pub closed spec fn unchanged_except_buffers(&self, other: &Self) -> bool {
        &&& self.partition_start_lba == other.partition_start_lba
        &&& self.bytes_per_sector == other.bytes_per_sector
        &&& self.sectors_per_cluster == other.sectors_per_cluster
        &&& self.bytes_per_cluster == other.bytes_per_cluster
        &&& self.fat_start_lba == other.fat_start_lba
        &&& self.fat_sectors == other.fat_sectors
        &&& self.num_fats == other.num_fats
        &&& self.data_start_lba == other.data_start_lba
        &&& self.root_cluster == other.root_cluster
        &&& self.total_clusters == other.total_clusters
        &&& self.fsinfo_sector == other.fsinfo_sector
        &&& self.free_clusters == other.free_clusters
        &&& self.fat_bitmap@ == other.fat_bitmap@
        &&& self.volume_label == other.volume_label
        &&& self.volume_id == other.volume_id
        &&& self.ready == other.ready
    }

    /// Read the FAT entry of `cluster` (through the one-sector cache).
    /// The value has its top four bits masked off.
    fn read_fat_entry(&mut self, cluster: u32) -> (r: Option<u32>)
        requires
            old(self).wf(),
        ensures
            final(self).wf(),
            final(self).unchanged_except_buffers(old(self)),
            final(self).disk == old(self).disk,
            final(self).cluster_buf@ == old(self).cluster_buf@,
            r matches Some(v) ==> v <= 0x0FFF_FFFF && v == old(self).spec_fat_entry(cluster),
    {
        let fat_offset = cluster as u64 * 4;
        let fat_sector = fat_offset / 512;
        let entry_offset = (fat_offset % 512) as usize;
        assert(fat_sector <= 0x1_0000_0000 && entry_offset + 4 <= 512) by (bit_vector)
            requires
                fat_offset == (cluster as u64) * 4,
                fat_sector == fat_offset / 512,
                entry_offset == fat_offset % 512,
                cluster <= 0xFFFF_FFFFu32;
        let abs_sector = self.fat_start_lba + fat_sector;
        if self.fat_cache_sector != abs_sector {
            self.fat_cache_sector = NO_CACHED_SECTOR;
            let lba = self.partition_start_lba.wrapping_add(abs_sector);
            if !self.disk.read_sectors(lba, 1, self.fat_cache_buf.as_mut_slice()) {
                return None;
            }
            assert(self.fat_cache_buf@.subrange(0, 512) =~= self.fat_cache_buf@);
            self.fat_cache_sector = abs_sector;
        }
        let raw = read_u32_le(self.fat_cache_buf.as_slice(), entry_offset);
        let v = raw & 0x0FFF_FFFF;
        assert(v <= 0x0FFF_FFFF) by (bit_vector)
            requires v == raw & 0x0FFF_FFFFu32;
        assert(abs_sector == (self.fat_start_lba + cluster * 4 / 512) as u64);
        Some(v)
    }

    /// Set the FAT entry of `cluster` to `value` in every FAT copy, keeping
    /// the reserved top bits; drops the cached FAT sector when it was
    /// touched.  `false` when a read or write fails.
    #[verifier::rlimit(40)]
    fn write_fat_entry(&mut self, cluster: u32, value: u32) -> (ok: bool)
        requires
            old(self).wf(),
        ensures
            final(self).wf(),
            final(self).unchanged_except_buffers(old(self)),
            ok && old(self).num_fats > 0 ==> final(self).spec_fat_entry(cluster) == value & 0x0FFF_FFFF,
    {
        let fat_offset = cluster as u64 * 4;
        let fat_sector = fat_offset / 512;
        let entry_offset = (fat_offset % 512) as usize;
        assert(fat_sector <= 0x1_0000_0000 && entry_offset + 4 <= 512) by (bit_vector)
            requires
                fat_offset == (cluster as u64) * 4,
                fat_sector == fat_offset / 512,
                entry_offset == fat_offset % 512,
                cluster <= 0xFFFF_FFFFu32;
        let ghost s0: int = wrapped_add(self.partition_start_lba, (self.fat_start_lba + fat_sector) as u64);
        assert(s0 == wrapped_add(self.partition_start_lba, (self.fat_start_lba + cluster * 4 / 512) as u64));
        assert(entry_offset as int == (cluster * 4) % 512);
        let n = self.num_fats;
        let mut fat: u32 = 0;
        while fat < n
            invariant
                self.wf(),
                self.unchanged_except_buffers(old(self)),
                n == self.num_fats,
                fat <= n,
                entry_offset + 4 <= 512,
                entry_offset as int == (cluster * 4) % 512,
                fat_sector <= 0x1_0000_0000,
                fat_sector == cluster as u64 * 4 / 512,
                s0 == wrapped_add(self.partition_start_lba, (self.fat_start_lba + fat_sector) as u64),
                fat > 0 ==> (s0 + 1) * 512 <= self.disk.spec_contents().len()
                    && self.spec_fat_entry(cluster) == value & 0x0FFF_FFFF,
            decreases n - fat,
        {
            proof {
                vstd::arithmetic::mul::lemma_mul_upper_bound(fat as int, 255, self.fat_sectors as int, 0xFFFF_FFFF);
            }
            let rel = self.fat_start_lba + fat_sector + fat as u64 * self.fat_sectors as u64;
            let abs_sector = self.partition_start_lba.wrapping_add(rel);
            proof {
                if fat == 0 {
                    assert(fat as u64 * self.fat_sectors as u64 == 0);
                    assert(rel == self.fat_start_lba + fat_sector);
                    assert(abs_sector as int == s0);
                }
            }
            let mut buf = vec_of_zeros(512);
            if !self.disk.read_sectors(abs_sector, 1, buf.as_mut_slice()) {
                return false;
            }
            let ghost read = buf@;
            patch_fat_entry(buf.as_mut_slice(), entry_offset, value);
            let ghost before = *self;
            let written = self.disk.write_sectors(abs_sector, 1, buf.as_slice());
            proof {
                if written {
                    let a = abs_sector as int;
                    let off = entry_offset as int;
                    let x = le32(read, off);
                    let nv = (value & 0x0FFF_FFFF) | (x & 0xF000_0000);
                    assert(nv & 0x0FFF_FFFF == value & 0x0FFF_FFFF) by (bit_vector)
                        requires nv == (value & 0x0FFF_FFFF) | (x & 0xF000_0000);
                    crate::bytes::lemma_le_codec();
                    let after = self.disk.spec_contents();
                    assert(fat == 0 ==> a == s0);
                    if a == s0 {
                        assert(buf@.subrange(0, 512) =~= buf@);
                        lemma_sectors_after_write(before.disk.spec_contents(), a, 1, buf@);
                        assert(sectors_of(after, s0, 1) == buf@);
                        assert(buf@.subrange(off, off + 4) =~= vstd::bytes::spec_u32_to_le_bytes(nv));
                        assert(le32(buf@, off) == nv);
                        assert(fat_entry_on_disk(after, self.partition_start_lba, self.fat_start_lba, cluster) == nv & 0x0FFF_FFFF);
                        assert(self.spec_fat_entry(cluster) == value & 0x0FFF_FFFF);
                    } else {
                        lemma_write_keeps_outside(before.disk.spec_contents(), after, a, 1, buf@, written);
                        if fat > 0 {
                            lemma_sector_kept(before.disk.spec_contents(), after, a, 1, s0);
                            assert(fat_entry_on_disk(after, self.partition_start_lba, self.fat_start_lba, cluster)
                                == fat_entry_on_disk(before.disk.spec_contents(), self.partition_start_lba, self.fat_start_lba, cluster));
                            assert(before.spec_fat_entry(cluster) == value & 0x0FFF_FFFF);
                        }
                    }
                    assert(self.spec_fat_entry(cluster) == value & 0x0FFF_FFFF);
                }
            }
            proof {
                lemma_write_keeps_outside(before.disk.spec_contents(), self.disk.spec_contents(), abs_sector as int, 1,
                    buf@, written);
                if before.fat_cache_sector != NO_CACHED_SECTOR && !(abs_sector <= before.cache_abs_sector() < abs_sector + 1) {
                    lemma_sector_kept(before.disk.spec_contents(), self.disk.spec_contents(), abs_sector as int, 1,
                        before.cache_abs_sector());
                }
            }
            let ghost pre_forget = self.disk.spec_contents();
            self.forget_cached_in(abs_sector, 1);
            if !written {
                return false;
            }
            assert(self.disk.spec_contents() == pre_forget);
            fat = fat + 1;
        }
        true
    }
}

/// The FAT cache holds no sector.
pub const NO_CACHED_SECTOR: u64 = 0xFFFF_FFFF_FFFF_FFFF;

/// The FAT entry of `cluster`, top four bits masked off, as the device
/// holding `contents` has it in the FAT starting at sector `fat_start` of
/// the partition at `partition_start`.
pub open spec fn fat_entry_on_disk(contents: Seq<u8>, partition_start: u64, fat_start: u64, cluster: u32) -> u32 {
    let sector = wrapped_add(partition_start, (fat_start + cluster * 4 / 512) as u64);
    le32(sectors_of(contents, sector, 1), (cluster * 4) % 512) & 0x0FFF_FFFFu32
}

/// After a write of `count` sectors from `lba` (which succeeded when `ok`),
/// the device holds what it held outside those sectors.
proof fn lemma_write_keeps_outside(before: Seq<u8>, after: Seq<u8>, lba: int, count: int, data: Seq<u8>, ok: bool)
    requires
        after.len() == before.len(),
        ok ==> count * 512 <= data.len() && (lba + count) * 512 <= before.len()
            && after == with_sectors(before, lba, count, data.subrange(0, count * 512)),
        !ok ==> forall|i: int| 0 <= i < before.len() && !(lba * 512 <= i < (lba + count) * 512)
            ==> #[trigger] after[i] == before[i],
        lba >= 0,
        count >= 0,
    ensures
        forall|i: int| 0 <= i < before.len() && !(lba * 512 <= i < (lba + count) * 512) ==> #[trigger] after[i] == before[i],
{
    if ok {
        assert forall|i: int| 0 <= i < before.len() && !(lba * 512 <= i < (lba + count) * 512) implies #[trigger] after[i] == before[i] by {
            if i < lba * 512 {
                assert(after[i] == before.subrange(0, lba * 512)[i]);
            } else {
                let k = i - (lba + count) * 512;
                assert(after[i] == before.subrange((lba + count) * 512, before.len() as int)[k]);
            }
        }
    }
}

/// The sectors just written hold what was written.
proof fn lemma_sectors_after_write(before: Seq<u8>, lba: int, count: int, data: Seq<u8>)
    requires
        0 <= lba,
        0 <= count,
        data.len() == count * 512,
        (lba + count) * 512 <= before.len(),
    ensures
        sectors_of(with_sectors(before, lba, count, data), lba, count) == data,
{
    let w = with_sectors(before, lba, count, data);
    assert(sectors_of(w, lba, count) =~= data);
}

/// A sector outside those written keeps its bytes.
proof fn lemma_sector_kept(before: Seq<u8>, after: Seq<u8>, lba: int, count: int, at: int)
    requires
        after.len() == before.len(),
        forall|i: int| 0 <= i < before.len() && !(lba * 512 <= i < (lba + count) * 512) ==> #[trigger] after[i] == before[i],
        0 <= at,
        (at + 1) * 512 <= before.len(),
        !(lba <= at < lba + count),
        count >= 0,
    ensures
        sectors_of(after, at, 1) == sectors_of(before, at, 1),
{
    assert forall|i: int| 0 <= i < 512 implies #[trigger] sectors_of(after, at, 1)[i] == sectors_of(before, at, 1)[i] by {
        let j = at * 512 + i;
        if at < lba {
            assert(j < lba * 512);
        } else {
            assert(j >= (lba + count) * 512);
        }
        assert(after[j] == before[j]);
    }
    assert(sectors_of(after, at, 1) =~= sectors_of(before, at, 1));
}

/// Setting bit `k` of a byte sets that bit and no other; clearing it clears
/// that bit and no other.
pub proof fn lemma_bit_ops(b: u8, k: u8, j: u8)
    requires
        k < 8,
        j < 8,
    ensures
        (b | (1u8 << k)) & (1u8 << k) != 0,
        (b & !(1u8 << k)) & (1u8 << k) == 0,
        j != k ==> ((b | (1u8 << k)) & (1u8 << j) != 0) == (b & (1u8 << j) != 0),
        j != k ==> ((b & !(1u8 << k)) & (1u8 << j) != 0) == (b & (1u8 << j) != 0),
{
    assert((b | (1u8 << k)) & (1u8 << k) != 0) by (bit_vector) requires k < 8u8;
    assert((b & !(1u8 << k)) & (1u8 << k) == 0) by (bit_vector) requires k < 8u8;
    assert(j != k ==> ((b | (1u8 << k)) & (1u8 << j) != 0) == (b & (1u8 << j) != 0)) by (bit_vector)
        requires k < 8u8, j < 8u8;
    assert(j != k ==> ((b & !(1u8 << k)) & (1u8 << j) != 0) == (b & (1u8 << j) != 0)) by (bit_vector)
        requires k < 8u8, j < 8u8;
}

/// Bits of the bitmap other than `bit` are as in `old`.
pub open spec fn other_bits_same(new: Seq<u8>, old: Seq<u8>, bit: int) -> bool {
    new.len() == old.len() && forall|j: int| 0 <= j < 8 * old.len() && j != bit ==> bit_set(new, j) == bit_set(old, j)
}

proof fn lemma_update_bit(old: Seq<u8>, new: Seq<u8>, bit: int, set: bool)
    requires
        0 <= bit < 8 * old.len(),
        new == old.update(bit / 8, if set { old[bit / 8] | (1u8 << ((bit % 8) as u8)) } else { old[bit / 8] & !(1u8 << ((bit % 8) as u8)) }),
    ensures
        bit_set(new, bit) == set,
        other_bits_same(new, old, bit),
{
    lemma_bit_ops(old[bit / 8], (bit % 8) as u8, 0);
    assert forall|j: int| 0 <= j < 8 * old.len() && j != bit implies bit_set(new, j) == bit_set(old, j) by {
        if j / 8 == bit / 8 {
            lemma_bit_ops(old[bit / 8], (bit % 8) as u8, (j % 8) as u8);
        }
    }
}

impl<D: BlockDevice> Fat32Volume<D> {
    /// Mark `cluster` used in the bitmap (clusters outside the data region
    /// are ignored).
    fn bitmap_set(&mut self, cluster: u32)
        requires
            old(self).wf(),
        ensures
            final(self).wf(),
            2 <= cluster < old(self).total_clusters as int + 2 ==> bit_set(final(self).fat_bitmap@, cluster - 2)
                && other_bits_same(final(self).fat_bitmap@, old(self).fat_bitmap@, cluster - 2),
            !(2 <= cluster < old(self).total_clusters as int + 2) ==> final(self).fat_bitmap@ == old(self).fat_bitmap@,
            final(self).same_but_bitmap(old(self)),
            final(self).disk == old(self).disk,
    {
        if cluster < 2 || cluster >= self.total_clusters + 2 {
            return;
        }
        let bit = (cluster - 2) as usize;
        if bit / 8 < self.fat_bitmap.len() {
            let k = (bit % 8) as u8;
            let b = self.fat_bitmap[bit / 8] | (1u8 << k);
            self.fat_bitmap.set(bit / 8, b);
            proof {
                lemma_update_bit(old(self).fat_bitmap@, self.fat_bitmap@, bit as int, true);
            }
        }
    }

    /// Mark `cluster` free in the bitmap (clusters outside the data region
    /// are ignored).
    fn bitmap_clear(&mut self, cluster: u32)
        requires
            old(self).wf(),
        ensures
            final(self).wf(),
            2 <= cluster < old(self).total_clusters as int + 2 ==> !bit_set(final(self).fat_bitmap@, cluster - 2)
                && other_bits_same(final(self).fat_bitmap@, old(self).fat_bitmap@, cluster - 2),
            !(2 <= cluster < old(self).total_clusters as int + 2) ==> final(self).fat_bitmap@ == old(self).fat_bitmap@,
            final(self).same_but_bitmap(old(self)),
            final(self).disk == old(self).disk,
    {
        if cluster < 2 || cluster >= self.total_clusters + 2 {
            return;
        }
        let bit = (cluster - 2) as usize;
        if bit / 8 < self.fat_bitmap.len() {
            let k = (bit % 8) as u8;
            let b = self.fat_bitmap[bit / 8] & !(1u8 << k);
            self.fat_bitmap.set(bit / 8, b);
            proof {
                lemma_update_bit(old(self).fat_bitmap@, self.fat_bitmap@, bit as int, false);
            }
        }
    }

    /// Everything but the bitmap is as in `other`.
    pub closed spec fn same_but_bitmap(&self, other: &Self) -> bool {
        &&& self.partition_start_lba == other.partition_start_lba
        &&& self.spec_geometry() == other.spec_geometry()
        &&& self.bytes_per_cluster == other.bytes_per_cluster
        &&& self.sectors_per_cluster == other.sectors_per_cluster
        &&& self.total_clusters == other.total_clusters
        &&& self.free_clusters == other.free_clusters
        &&& self.cluster_buf@ == other.cluster_buf@
        &&& self.root_cluster == other.root_cluster
        &&& self.ready == other.ready
        &&& self.fsinfo_sector == other.fsinfo_sector
        &&& self.volume_label == other.volume_label
        &&& self.volume_id == other.volume_id
    }

    /// The first cluster whose bitmap bit is clear.
    fn bitmap_find_free(&self) -> (r: Option<u32>)
        requires
            self.wf(),
        ensures
            r is None <==> forall|i: int| 0 <= i < self.total_clusters ==> bit_set(self.fat_bitmap@, i),
            r matches Some(c) ==> 2 <= c < self.total_clusters as int + 2 && !bit_set(self.fat_bitmap@, c - 2)
                && forall|i: int| 0 <= i < c - 2 ==> bit_set(self.fat_bitmap@, i),
    {
        let n = self.total_clusters as usize;
        let mut i: usize = 0;
        while i < n
            invariant
                self.wf(),
                n == self.total_clusters,
                i <= n,
                forall|k: int| 0 <= k < i ==> bit_set(self.fat_bitmap@, k),
            decreases n - i,
        {
            let k = (i % 8) as u8;
            if self.fat_bitmap[i / 8] & (1u8 << k) == 0 {
                assert(!bit_set(self.fat_bitmap@, i as int));
                return Some(2 + i as u32);
            }
            i = i + 1;
        }
        None
    }

    /// Build the bitmap from the FAT: a cluster is used when its entry is
    /// not zero.  `false` when a FAT read fails.
    fn build_fat_bitmap(&mut self) -> (ok: bool)
        requires
            old(self).wf(),
        ensures
            final(self).wf(),
            final(self).total_clusters == old(self).total_clusters,
            final(self).ready == old(self).ready,
            final(self).root_cluster == old(self).root_cluster,
            final(self).spec_geometry() == old(self).spec_geometry(),
            final(self).partition_start_lba == old(self).partition_start_lba,
            final(self).disk == old(self).disk,
    {
        let n: u32 = self.total_clusters + 2;
        let mut i: u32 = 0;
        while i < n
            invariant
                self.wf(),
                n == self.total_clusters + 2,
                self.total_clusters == old(self).total_clusters,
                self.ready == old(self).ready,
                self.root_cluster == old(self).root_cluster,
                self.spec_geometry() == old(self).spec_geometry(),
                self.partition_start_lba == old(self).partition_start_lba,
                self.disk == old(self).disk,
                i <= n,
            decreases n - i,
        {
            let entry = match self.read_fat_entry(i) {
                Some(e) => e,
                None => return false,
            };
            if entry != CLUSTER_FREE {
                self.bitmap_set(i);
            }
            i = i + 1;
        }
        true
    }

    /// Cluster number `k` of the chain starting at `first`, following the
    /// FAT entries the device holds; `None` once an end-of-chain or bad
    /// cluster has been passed.
    pub closed spec fn chain_nth(&self, first: u32, k: nat) -> Option<u32>
        decreases k,
    {
        if k == 0 {
            Some(first)
        } else {
            match self.chain_nth(first, (k - 1) as nat) {
                Some(c) => if c >= CLUSTER_EOF_MIN || c == 0x0FFF_FFF7 { None } else { Some(self.spec_fat_entry(c)) },
                None => None,
            }
        }
    }

    /// Cluster number `index` of the chain starting at `first_cluster`.
    /// `None` when the chain ends (or hits a bad cluster) before, or a FAT
    /// read fails.
    fn cluster_at_index(&mut self, first_cluster: u32, index: u32) -> (r: Option<u32>)
        requires
            old(self).wf(),
        ensures
            final(self).wf(),
            final(self).unchanged_except_buffers(old(self)),
            final(self).disk == old(self).disk,
            final(self).cluster_buf@ == old(self).cluster_buf@,
            index == 0 ==> r == Some(first_cluster),
            r matches Some(c) ==> old(self).chain_nth(first_cluster, index as nat) == Some(c),
    {
        let mut cluster = first_cluster;
        let mut k: u32 = 0;
        while k < index
            invariant
                self.wf(),
                self.unchanged_except_buffers(old(self)),
                self.disk == old(self).disk,
                self.cluster_buf@ == old(self).cluster_buf@,
                k <= index,
                k == 0 ==> cluster == first_cluster,
                old(self).chain_nth(first_cluster, k as nat) == Some(cluster),
            decreases index - k,
        {
            if is_eof(cluster) || is_bad(cluster) {
                return None;
            }
            cluster = match self.read_fat_entry(cluster) {
                Some(c) => c,
                None => return None,
            };
            k = k + 1;
        }
        Some(cluster)
    }

    /// Last cluster of the chain starting at `first_cluster`: the first one
    /// whose FAT entry ends the chain (end, bad, or below the data region).
    /// `None` for a start below the data region, a failed FAT read, or a
    /// chain longer than the volume has clusters.
    fn get_last_cluster(&mut self, first_cluster: u32) -> (r: Option<u32>)
        requires
            old(self).wf(),
        ensures
            final(self).wf(),
            final(self).unchanged_except_buffers(old(self)),
            r matches Some(c) ==> c >= 2,
    {
        if first_cluster < 2 {
            return None;
        }
        let mut cluster = first_cluster;
        let limit: u32 = self.total_clusters + 2;
        let mut steps: u32 = 0;
        while steps < limit
            invariant
                self.wf(),
                self.unchanged_except_buffers(old(self)),
                cluster >= 2,
                limit == self.total_clusters + 2,
                steps <= limit,
            decreases limit - steps,
        {
            let next = match self.read_fat_entry(cluster) {
                Some(n) => n,
                None => return None,
            };
            if is_eof(next) || is_bad(next) || next < 2 {
                return Some(cluster);
            }
            cluster = next;
            steps = steps + 1;
        }
        None
    }

    /// Allocate the first free cluster, mark it end-of-chain and append it
    /// to the chain starting at `first_cluster` (or start a chain when that
    /// is 0).  Returns the new cluster and the chain's first cluster.
    fn alloc_cluster(&mut self, first_cluster: u32) -> (r: Option<(u32, u32)>)
        requires
            old(self).wf(),
        ensures
            final(self).wf(),
            final(self).total_clusters == old(self).total_clusters,
            final(self).ready == old(self).ready,
            final(self).root_cluster == old(self).root_cluster,
            final(self).bytes_per_cluster == old(self).bytes_per_cluster,
            r matches Some(p) ==> 2 <= p.0 < old(self).total_clusters as int + 2
                && (first_cluster == 0 ==> p.1 == p.0) && (first_cluster != 0 ==> p.1 == first_cluster),
            (forall|i: int| 0 <= i < old(self).total_clusters ==> bit_set(old(self).fat_bitmap@, i)) ==> r is None
                && final(self).fat_bitmap@ == old(self).fat_bitmap@,
            r matches Some(p) ==> !bit_set(old(self).fat_bitmap@, p.0 - 2)
                && (forall|i: int| 0 <= i < p.0 - 2 ==> bit_set(old(self).fat_bitmap@, i))
                && bit_set(final(self).fat_bitmap@, p.0 - 2)
                && other_bits_same(final(self).fat_bitmap@, old(self).fat_bitmap@, p.0 - 2)
                && final(self).free_clusters == (if old(self).free_clusters > 0 { old(self).free_clusters - 1 } else { 0int }),
    {
        let new_cluster = match self.bitmap_find_free() {
            Some(c) => c,
            None => return None,
        };
        self.bitmap_set(new_cluster);
        if !self.write_fat_entry(new_cluster, 0x0FFF_FFFF) {
            self.bitmap_clear(new_cluster);
            return None;
        }
        let new_first = if first_cluster == 0 {
            new_cluster
        } else {
            let last = match self.get_last_cluster(first_cluster) {
                Some(l) => l,
                None => return None,
            };
            if !self.write_fat_entry(last, new_cluster) {
                self.bitmap_clear(new_cluster);
                return None;
            }
            first_cluster
        };
        if self.free_clusters > 0 {
            self.free_clusters = self.free_clusters - 1;
        }
        Some((new_cluster, new_first))
    }

    /// Free one cluster: clear its bitmap bit, zero its FAT entry and count
    /// it free (saturating).
    fn free_one(&mut self, cluster: u32)
        requires
            old(self).wf(),
        ensures
            final(self).wf(),
            final(self).total_clusters == old(self).total_clusters,
            final(self).ready == old(self).ready,
            final(self).root_cluster == old(self).root_cluster,
            final(self).bytes_per_cluster == old(self).bytes_per_cluster,
            2 <= cluster < old(self).total_clusters as int + 2 ==> !bit_set(final(self).fat_bitmap@, cluster - 2)
                && other_bits_same(final(self).fat_bitmap@, old(self).fat_bitmap@, cluster - 2),
            !(2 <= cluster < old(self).total_clusters as int + 2) ==> final(self).fat_bitmap@ == old(self).fat_bitmap@,
            final(self).free_clusters == (if old(self).free_clusters < 0xFFFF_FFFF { old(self).free_clusters + 1 } else { old(self).free_clusters as int }),
    {
        self.bitmap_clear(cluster);
        let _ok = self.write_fat_entry(cluster, CLUSTER_FREE);
        if self.free_clusters < 0xFFFF_FFFF {
            self.free_clusters = self.free_clusters + 1;
        }
    }

    /// Free the chain starting at `cluster`, following it while its links
    /// are data clusters (and for at most as many links as the volume has
    /// clusters), then free the value it ended on when that is not below
    /// the data region.
    fn free_chain(&mut self, cluster: u32)
        requires
            old(self).wf(),
        ensures
            final(self).wf(),
            final(self).total_clusters == old(self).total_clusters,
            final(self).ready == old(self).ready,
            final(self).root_cluster == old(self).root_cluster,
            final(self).bytes_per_cluster == old(self).bytes_per_cluster,
            2 <= cluster < old(self).total_clusters as int + 2 ==> !bit_set(final(self).fat_bitmap@, cluster - 2),
            forall|i: int| 0 <= i < 8 * old(self).fat_bitmap@.len() && !bit_set(old(self).fat_bitmap@, i)
                ==> !bit_set(final(self).fat_bitmap@, i),
            final(self).fat_bitmap@.len() == old(self).fat_bitmap@.len(),
            final(self).free_clusters >= old(self).free_clusters,
    {
        let start = cluster;
        let mut cluster = cluster;
        let limit: u32 = self.total_clusters + 2;
        let mut steps: u32 = 0;
        while cluster >= 2 && !is_eof(cluster) && !is_bad(cluster) && steps < limit
            invariant
                self.wf(),
                self.total_clusters == old(self).total_clusters,
                self.ready == old(self).ready,
                self.root_cluster == old(self).root_cluster,
                self.bytes_per_cluster == old(self).bytes_per_cluster,
                limit == self.total_clusters + 2,
                steps <= limit,
                steps == 0 ==> cluster == start,
                steps > 0 && 2 <= start < old(self).total_clusters as int + 2 ==> !bit_set(self.fat_bitmap@, start - 2),
                self.fat_bitmap@.len() == old(self).fat_bitmap@.len(),
                forall|i: int| 0 <= i < 8 * old(self).fat_bitmap@.len() && !bit_set(old(self).fat_bitmap@, i)
                    ==> !bit_set(self.fat_bitmap@, i),
                self.free_clusters >= old(self).free_clusters,
            decreases limit - steps,
        {
            let next = match self.read_fat_entry(cluster) {
                Some(n) => n,
                None => break,
            };
            self.free_one(cluster);
            cluster = next;
            steps = steps + 1;
        }
        if cluster >= 2 {
            self.free_one(cluster);
        }
    }
}

/// A directory entry found by name, with where its long-name entries are.
pub struct FoundEntry {
    pub entry: Fat32DirEntry,
    /// The long name, empty when the entry has none.
    pub lfn_name: String,
    /// Slot of the 8.3 entry within its cluster.
    pub entry_index: u32,
    /// Cluster holding the 8.3 entry.
    pub cluster: u32,
    /// Number of long-name entries (0 when there are none).
    pub lfn_count: u32,
    /// Cluster and slot of the first long-name entry.
    pub lfn_start_cluster: u32,
    pub lfn_start_index: u32,
}

/// The name of a found entry (its long name, or else its 8.3 name) matches
/// `component` up to ASCII case.
pub open spec fn found_name_matches(entry: Fat32DirEntry, lfn_name: Seq<char>, component: Seq<u8>) -> bool {
    if lfn_name.len() > 0 {
        eq_ignore_ascii_case(vstd::utf8::encode_utf8(lfn_name), component)
    } else {
        eq_ignore_ascii_case(vstd::utf8::encode_utf8(short_name_chars(entry.name@, entry.nt_res)), component)
    }
}

/// The 32 bytes of directory slot `i` of a cluster.
pub open spec fn slot_bytes(data: Seq<u8>, i: int) -> Seq<u8> {
    data.subrange(32 * i, 32 * i + 32)
}

/// Outcome of scanning one directory cluster for a name.
pub enum LookupStep {
    /// No match in this cluster; go on with the next one.
    Continue,
    /// A free entry ended the directory.
    End,
    /// The entry was found.
    Found(FoundEntry),
}

/// Characters with the same code points have the same UTF-8 encoding.
proof fn lemma_codes_same_encoding(a: Seq<char>, b: Seq<char>)
    requires
        codes(a) == codes(b),
    ensures
        vstd::utf8::encode_utf8(a) == vstd::utf8::encode_utf8(b),
    decreases a.len(),
{
    assert(a.len() == codes(a).len() && b.len() == codes(b).len());
    if a.len() > 0 {
        assert(codes(a)[0] == codes(b)[0]);
        assert(codes(a.drop_first()) =~= codes(a).drop_first());
        assert(codes(b.drop_first()) =~= codes(b).drop_first());
        lemma_codes_same_encoding(a.drop_first(), b.drop_first());
        assert(codes(a)[0] == a[0] as u32 && codes(b)[0] == b[0] as u32);
        assert(vstd::utf8::encode_utf8(a) == vstd::utf8::encode_scalar(a[0] as u32) + vstd::utf8::encode_utf8(a.drop_first()));
        assert(vstd::utf8::encode_utf8(b) == vstd::utf8::encode_scalar(b[0] as u32) + vstd::utf8::encode_utf8(b.drop_first()));
    } else {
        assert(vstd::utf8::encode_utf8(a) == vstd::utf8::encode_utf8(b));
    }
}

/// The slot `raw`, seen after scan state `s`, names `comp` up to ASCII
/// case: its long name when one was collected, else its 8.3 name.
pub open spec fn slot_name_matches(s: ScanView, raw: Seq<u8>, comp: Seq<u8>) -> bool {
    if s.name.len() > 0 {
        exists|c: Seq<char>| codes(c) == s.name && #[trigger] eq_ignore_ascii_case(vstd::utf8::encode_utf8(c), comp)
    } else {
        eq_ignore_ascii_case(vstd::utf8::encode_utf8(short_name_chars(raw.subrange(0, 11), raw[12])), comp)
    }
}

/// Where a name search through directory slots stands.
pub enum LookupView {
    /// No match yet.
    Continue,
    /// A free slot ended the directory.
    End,
    /// Slot `index` matched, with the long-name state `scan` it had.
    Found { index: int, scan: ScanView },
}

/// Searching slots `i..count` of a cluster for `comp` from scan state `s`:
/// a free slot ends the directory, deleted slots reset the long name,
/// long-name slots feed it, and any other slot either matches or resets it.
pub open spec fn lookup_slots(data: Seq<u8>, count: int, cluster: u32, s: ScanView, i: int, comp: Seq<u8>) -> (LookupView, ScanView)
    decreases count - i,
{
    if i < 0 || i >= count {
        (LookupView::Continue, s)
    } else {
        let raw = slot_bytes(data, i);
        if raw[0] == DIR_ENTRY_FREE {
            (LookupView::End, s)
        } else if raw[0] == DIR_ENTRY_DELETED {
            lookup_slots(data, count, cluster, scan_reset(), i + 1, comp)
        } else if raw[11] & ATTR_LONG_NAME_MASK == ATTR_LONG_NAME {
            lookup_slots(data, count, cluster, scan_lfn(s, raw, cluster, i as u32), i + 1, comp)
        } else if slot_name_matches(s, raw, comp) {
            (LookupView::Found { index: i, scan: s }, s)
        } else {
            lookup_slots(data, count, cluster, scan_reset(), i + 1, comp)
        }
    }
}

/// Searching a directory whose clusters (in chain order, numbered `ids`)
/// hold `cs`, carrying the long-name state from one cluster to the next:
/// the outcome, the cluster it stopped in, and the state after.
pub open spec fn lookup_clusters(cs: Seq<Seq<u8>>, ids: Seq<u32>, count: int, comp: Seq<u8>) -> (LookupView, ScanView)
    decreases cs.len(),
{
    if cs.len() == 0 || ids.len() != cs.len() {
        (LookupView::Continue, scan_reset())
    } else {
        let prev = lookup_clusters(cs.drop_last(), ids.drop_last(), count, comp);
        if prev.0 is Continue {
            lookup_slots(cs.last(), count, ids.last(), prev.1, 0, comp)
        } else {
            prev
        }
    }
}

/// Scan the `entry_count` slots of one directory cluster for `component`,
/// assembling long names in `scan`.
fn scan_cluster_lookup(data: &[u8], entry_count: usize, cluster: u32, scan: &mut LfnScan, component: &str) -> (r: LookupStep)
    requires
        entry_count * 32 <= data@.len(),
        entry_count <= 0x0800_0000,
        old(scan).wf(),
    ensures
        final(scan).wf(),
        r matches LookupStep::Found(f) ==> f.cluster == cluster && f.entry_index < entry_count
            && f.entry.parsed_from(slot_bytes(data@, f.entry_index as int))
            && found_name_matches(f.entry, f.lfn_name@, component.spec_bytes()),
        r matches LookupStep::End ==> exists|i: int| 0 <= i < entry_count && #[trigger] slot_bytes(data@, i)[0] == DIR_ENTRY_FREE,
        match lookup_slots(data@, entry_count as int, cluster, old(scan)@, 0, component.spec_bytes()).0 {
            LookupView::Continue => r is Continue
                && final(scan)@ == lookup_slots(data@, entry_count as int, cluster, old(scan)@, 0, component.spec_bytes()).1,
            LookupView::End => r is End,
            LookupView::Found { index, scan: sv } => r matches LookupStep::Found(f) && f.entry_index == index
                && codes(f.lfn_name@) == sv.name
                && (f.lfn_start_cluster, f.lfn_start_index, f.lfn_count) == (sv.start_cluster, sv.start_index, sv.count),
        },
{
    let ghost goal = lookup_slots(data@, entry_count as int, cluster, old(scan)@, 0, component.spec_bytes());
    let _dlen = data.len();
    let mut i: usize = 0;
    while i < entry_count
        invariant
            entry_count * 32 <= data@.len(),
            _dlen == data@.len(),
            entry_count <= 0x0800_0000,
            i <= entry_count,
            scan.wf(),
            goal == lookup_slots(data@, entry_count as int, cluster, old(scan)@, 0, component.spec_bytes()),
            goal == lookup_slots(data@, entry_count as int, cluster, scan@, i as int, component.spec_bytes()),
        decreases entry_count - i,
    {
        let raw = slice_subrange(data, 32 * i, 32 * i + 32);
        assert(raw@ == slot_bytes(data@, i as int));
        let entry = Fat32DirEntry::from_bytes(raw);
        assert(entry.name@[0] == raw@[0] && entry.attr == raw@[11] && entry.nt_res == raw@[12]);
        assert(entry.name@ == raw@.subrange(0, 11));
        if entry.name[0] == DIR_ENTRY_FREE {
            assert(slot_bytes(data@, i as int)[0] == DIR_ENTRY_FREE);
            return LookupStep::End;
        }
        if entry.name[0] == DIR_ENTRY_DELETED {
            scan.reset();
        } else if is_lfn(&entry) {
            scan.feed_lfn(raw, cluster, i as u32);
        } else {
            let matched = if scan.has_name() {
                let n = scan.name_string();
                let m = names_match_case_insensitive(n.as_str(), component);
                proof {
                    if m {
                        assert(codes(n@) == scan@.name);
                        assert(eq_ignore_ascii_case(vstd::utf8::encode_utf8(n@), component.spec_bytes()));
                    } else {
                        assert forall|c: Seq<char>| codes(c) == scan@.name implies
                            !#[trigger] eq_ignore_ascii_case(vstd::utf8::encode_utf8(c), component.spec_bytes()) by {
                            lemma_codes_same_encoding(c, n@);
                        }
                    }
                }
                m
            } else {
                let sn = short_name_to_str(&entry.name, entry.nt_res);
                names_match_case_insensitive(sn.as_str(), component)
            };
            assert(matched == slot_name_matches(scan@, raw@, component.spec_bytes()));
            if matched {
                let (lfn_start_cluster, lfn_start_index, lfn_count) = scan.start();
                let lfn_name = scan.name_string();
                return LookupStep::Found(FoundEntry {
                    entry,
                    lfn_name,
                    entry_index: i as u32,
                    cluster,
                    lfn_count,
                    lfn_start_cluster,
                    lfn_start_index,
                });
            }
            scan.reset();
        }
        i = i + 1;
    }
    LookupStep::Continue
}

/// One listed directory entry: name, whether it is a directory, file size
/// and first cluster.
pub type ListedEntry = (String, bool, u32, u32);

/// The slot holds "." or "..": a dot followed only by spaces and dots.
pub open spec fn is_dot_entry(name: Seq<u8>) -> bool {
    name[0] == 46 && forall|k: int| 1 <= k < 11 ==> name[k] == 32 || name[k] == 46
}

fn dot_entry(name: &[u8; 11]) -> (b: bool)
    ensures
        b == is_dot_entry(name@),
{
    if name[0] != 46 {
        return false;
    }
    let mut k: usize = 1;
    while k < 11
        invariant
            1 <= k <= 11,
            forall|j: int| 1 <= j < k ==> name@[j] == 32 || name@[j] == 46,
        decreases 11 - k,
    {
        if name[k] != 32 && name[k] != 46 {
            return false;
        }
        k = k + 1;
    }
    true
}

/// A listed entry by value: the name's code points, whether it is a
/// directory, its size and its first cluster.
pub type ListedView = (Seq<u32>, bool, u32, u32);

/// The value of a listed entry.
pub open spec fn listed_view(x: ListedEntry) -> ListedView {
    (codes(x.0@), x.1, x.2, x.3)
}

/// The values of listed entries.
pub open spec fn listed_views(v: Seq<ListedEntry>) -> Seq<ListedView> {
    v.map_values(|x: ListedEntry| listed_view(x))
}

/// The entry a directory slot `raw` lists after the scan state `s`: its
/// long name when one was collected, else its 8.3 name; its directory
/// flag, size and first cluster.
pub open spec fn listed_of_slot(s: ScanView, raw: Seq<u8>) -> ListedView {
    (
        if s.name.len() > 0 { s.name } else { codes(short_name_chars(raw.subrange(0, 11), raw[12])) },
        raw[11] & ATTR_DIRECTORY != 0,
        le32(raw, 28),
        ((le16(raw, 20) as u32) << 16u32) | (le16(raw, 26) as u32),
    )
}

/// Listing the slots `i..count` of a directory cluster from scan state `s`:
/// the entries listed (a free slot ends the directory; deleted slots and
/// volume labels reset the long name; long-name slots feed it; other slots
/// are listed unless they are "." or ".."), the scan state after them,
/// and whether the directory ended.
pub open spec fn list_slots(data: Seq<u8>, count: int, cluster: u32, s: ScanView, i: int) -> (Seq<ListedView>, ScanView, bool)
    decreases count - i,
{
    if i < 0 || i >= count {
        (Seq::empty(), s, false)
    } else {
        let raw = slot_bytes(data, i);
        if raw[0] == DIR_ENTRY_FREE {
            (Seq::empty(), s, true)
        } else if raw[0] == DIR_ENTRY_DELETED || raw[11] == 0x08 {
            list_slots(data, count, cluster, scan_reset(), i + 1)
        } else if raw[11] & ATTR_LONG_NAME_MASK == ATTR_LONG_NAME {
            list_slots(data, count, cluster, scan_lfn(s, raw, cluster, i as u32), i + 1)
        } else {
            let rest = list_slots(data, count, cluster, scan_reset(), i + 1);
            if is_dot_entry(raw.subrange(0, 11)) {
                rest
            } else {
                (seq![listed_of_slot(s, raw)] + rest.0, rest.1, rest.2)
            }
        }
    }
}

/// Scan the `entry_count` slots of one directory cluster, appending the
/// entries it lists (not long-name entries, volume labels, "." or "..") to
/// `results` (see `list_slots`).  Returns `true` when a free entry ended
/// the directory.
fn scan_cluster_list(data: &[u8], entry_count: usize, cluster: u32, scan: &mut LfnScan, results: &mut Vec<ListedEntry>) -> (ended: bool)
    requires
        entry_count * 32 <= data@.len(),
        entry_count <= 0x0800_0000,
        old(scan).wf(),
    ensures
        final(scan).wf(),
        listed_views(final(results)@)
            == listed_views(old(results)@) + list_slots(data@, entry_count as int, cluster, old(scan)@, 0).0,
        final(scan)@ == list_slots(data@, entry_count as int, cluster, old(scan)@, 0).1,
        ended == list_slots(data@, entry_count as int, cluster, old(scan)@, 0).2,
{
    let _dlen = data.len();
    let ghost goal = list_slots(data@, entry_count as int, cluster, old(scan)@, 0);
    let ghost mut acc: Seq<ListedView> = Seq::empty();
    let mut i: usize = 0;
    while i < entry_count
        invariant
            entry_count * 32 <= data@.len(),
            _dlen == data@.len(),
            entry_count <= 0x0800_0000,
            i <= entry_count,
            scan.wf(),
            listed_views(results@) == listed_views(old(results)@) + acc,
            goal == list_slots(data@, entry_count as int, cluster, old(scan)@, 0),
            goal == (acc + list_slots(data@, entry_count as int, cluster, scan@, i as int).0,
                list_slots(data@, entry_count as int, cluster, scan@, i as int).1,
                list_slots(data@, entry_count as int, cluster, scan@, i as int).2),
        decreases entry_count - i,
    {
        let raw = slice_subrange(data, 32 * i, 32 * i + 32);
        assert(raw@ == slot_bytes(data@, i as int));
        let entry = Fat32DirEntry::from_bytes(raw);
        let ghost s0 = scan@;
        if entry.name[0] == DIR_ENTRY_FREE {
            assert(entry.name@[0] == raw@.subrange(0, 11)[0]);
            assert(slot_bytes(data@, i as int)[0] == DIR_ENTRY_FREE);
            assert(acc + Seq::<ListedView>::empty() =~= acc);
            return true;
        }
        if entry.name[0] == DIR_ENTRY_DELETED || entry.attr == 0x08 {
            scan.reset();
        } else if is_lfn(&entry) {
            scan.feed_lfn(raw, cluster, i as u32);
        } else {
            if !dot_entry(&entry.name) {
                let name = if scan.has_name() {
                    scan.name_string()
                } else {
                    short_name_to_str(&entry.name, entry.nt_res)
                };
                let is_dir = entry.attr & ATTR_DIRECTORY != 0;
                let ghost before = results@;
                results.push((name, is_dir, entry.file_size, entry_cluster(&entry)));
                proof {
                    assert(listed_view(results@.last()) == listed_of_slot(s0, raw@));
                    assert(listed_views(results@) =~= listed_views(before).push(listed_of_slot(s0, raw@)));
                    acc = acc.push(listed_of_slot(s0, raw@));
                    assert(listed_views(results@) =~= listed_views(old(results)@) + acc);
                    let rest = list_slots(data@, entry_count as int, cluster, scan_reset(), i + 1);
                    assert(acc.drop_last() + (seq![listed_of_slot(s0, raw@)] + rest.0) =~= acc + rest.0);
                }
            }
            scan.reset();
        }
        i = i + 1;
    }
    assert(acc + Seq::<ListedView>::empty() =~= acc);
    false
}

impl<D: BlockDevice> Fat32Volume<D> {
    /// Look up `component` (ignoring ASCII case) in the directory whose
    /// chain starts at `dir_cluster`.  `None` when it is not there, a read
    /// fails, or the chain is longer than the volume has clusters.
    fn lookup_in_dir(&mut self, dir_cluster: u32, component: &str) -> (r: Option<FoundEntry>)
        requires
            old(self).wf(),
        ensures
            final(self).wf(),
            final(self).unchanged_except_buffers(old(self)),
            final(self).disk == old(self).disk,
            r matches Some(f) ==> found_name_matches(f.entry, f.lfn_name@, component.spec_bytes()),
            exists|cs: Seq<Seq<u8>>, ids: Seq<u32>| {
                let lv = (#[trigger] lookup_clusters(cs, ids, old(self).spec_slots_per_cluster(), component.spec_bytes())).0;
                &&& old(self).chain_read(dir_cluster, cs, ids)
                &&& cs.len() == ids.len()
                &&& (ids.len() > 0 ==> ids[0] == dir_cluster)
                &&& r matches Some(f) ==> (ids.len() > 0 && f.cluster == ids.last() && (lv matches LookupView::Found { index, scan }
                    && f.entry_index == index && codes(f.lfn_name@) == scan.name
                    && f.entry.parsed_from(slot_bytes(cs.last(), index))))
                &&& r is None ==> !(lv is Found)
            },
    {
        let entry_count = (self.bytes_per_cluster / 32) as usize;
        let mut cluster = dir_cluster;
        let mut scan = LfnScan::new();
        let limit: u32 = self.total_clusters + 2;
        let mut steps: u32 = 0;
        let ghost comp = component.spec_bytes();
        let ghost mut cs: Seq<Seq<u8>> = Seq::empty();
        let ghost mut ids: Seq<u32> = Seq::empty();
        assert(old(self).spec_slots_per_cluster() == entry_count as int);
        while !is_eof(cluster) && !is_bad(cluster) && steps < limit
            invariant
                self.wf(),
                self.unchanged_except_buffers(old(self)),
                entry_count == self.bytes_per_cluster / 32,
                old(self).spec_slots_per_cluster() == entry_count as int,
                comp == component.spec_bytes(),
                scan.wf(),
                limit == self.total_clusters + 2,
                steps <= limit,
                cs.len() == ids.len(),
                ids.len() > 0 ==> ids[0] == dir_cluster,
                ids.len() == 0 ==> cluster == dir_cluster,
                ids.len() > 0 ==> cluster == old(self).spec_fat_entry(ids.last()),
                self.disk == old(self).disk,
                old(self).chain_read(dir_cluster, cs, ids),
                lookup_clusters(cs, ids, entry_count as int, comp) == (LookupView::Continue, scan@),
            decreases limit - steps,
        {
            if !self.read_cluster(cluster) {
                return None;
            }
            let ghost data = self.cluster_buf@;
            assert(old(self).cluster_read(cluster, data));
            let step = scan_cluster_lookup(self.cluster_buf.as_slice(), entry_count, cluster, &mut scan, component);
            proof {
                let cs2 = cs.push(data);
                let ids2 = ids.push(cluster);
                assert(cs2.drop_last() =~= cs);
                assert(ids2.drop_last() =~= ids);
                cs = cs2;
                ids = ids2;
            }
            match step {
                LookupStep::End => return None,
                LookupStep::Found(f) => {
                    proof {
                        assert(cs.last() == data && ids.last() == cluster);
                        let lv = lookup_clusters(cs, ids, old(self).spec_slots_per_cluster(), component.spec_bytes()).0;
                        assert(lv matches LookupView::Found { index, scan } && f.entry_index == index);
                        assert(f.entry.parsed_from(slot_bytes(cs.last(), f.entry_index as int)));
                    }
                    return Some(f);
                },
                LookupStep::Continue => {},
            }
            cluster = match self.read_fat_entry(cluster) {
                Some(c) => c,
                None => return None,
            };
            steps = steps + 1;
        }
        None
    }

    /// List the entries of the directory whose chain starts at
    /// `dir_cluster`, stopping at the end of the directory, a failed read,
    /// or after as many clusters as the volume has.  The entries are what
    /// `list_clusters` gives for the clusters read, first `dir_cluster`.
    fn list_dir(&mut self, dir_cluster: u32) -> (v: Vec<ListedEntry>)
        requires
            old(self).wf(),
        ensures
            final(self).wf(),
            final(self).unchanged_except_buffers(old(self)),
            final(self).disk == old(self).disk,
            exists|cs: Seq<Seq<u8>>, ids: Seq<u32>| {
                &&& old(self).chain_read(dir_cluster, cs, ids)
                &&& cs.len() == ids.len()
                &&& (ids.len() > 0 ==> ids[0] == dir_cluster)
                &&& listed_views(v@) == list_clusters(cs, ids, old(self).spec_slots_per_cluster(), scan_reset()).0
            },
    {
        let entry_count = (self.bytes_per_cluster / 32) as usize;
        let mut cluster = dir_cluster;
        let mut scan = LfnScan::new();
        let mut results: Vec<ListedEntry> = Vec::new();
        let limit: u32 = self.total_clusters + 2;
        let mut steps: u32 = 0;
        let ghost mut cs: Seq<Seq<u8>> = Seq::empty();
        let ghost mut ids: Seq<u32> = Seq::empty();
        proof {
            assert(listed_views(results@) =~= Seq::<ListedView>::empty());
        }
        while !is_eof(cluster) && !is_bad(cluster) && steps < limit
            invariant_except_break
                ids.len() > 0 ==> cluster == old(self).spec_fat_entry(ids.last()),
            invariant
                self.wf(),
                self.unchanged_except_buffers(old(self)),
                entry_count == self.bytes_per_cluster / 32,
                entry_count == old(self).bytes_per_cluster / 32,
                scan.wf(),
                limit == self.total_clusters + 2,
                steps <= limit,
                cs.len() == ids.len(),
                ids.len() > 0 ==> ids[0] == dir_cluster,
                ids.len() == 0 ==> cluster == dir_cluster,
                self.disk == old(self).disk,
                old(self).chain_read(dir_cluster, cs, ids),
                listed_views(results@) == list_clusters(cs, ids, entry_count as int, scan_reset()).0,
                scan@ == list_clusters(cs, ids, entry_count as int, scan_reset()).1,
                !list_clusters(cs, ids, entry_count as int, scan_reset()).2,
            decreases limit - steps,
        {
            if !self.read_cluster(cluster) {
                break;
            }
            let ghost data = self.cluster_buf@;
            assert(old(self).cluster_read(cluster, data));
            let ended = scan_cluster_list(self.cluster_buf.as_slice(), entry_count, cluster, &mut scan, &mut results);
            proof {
                let cs2 = cs.push(data);
                let ids2 = ids.push(cluster);
                assert(cs2.drop_last() =~= cs);
                assert(ids2.drop_last() =~= ids);
                cs = cs2;
                ids = ids2;
            }
            if ended {
                assert(old(self).spec_slots_per_cluster() == entry_count as int);
                assert(listed_views(results@) == list_clusters(cs, ids, old(self).spec_slots_per_cluster(), scan_reset()).0);
                assert(old(self).chain_read(dir_cluster, cs, ids));
                return results;
            }
            cluster = match self.read_fat_entry(cluster) {
                Some(c) => c,
                None => break,
            };
            steps = steps + 1;
        }
        assert(old(self).spec_slots_per_cluster() == entry_count as int);
        assert(listed_views(results@) == list_clusters(cs, ids, old(self).spec_slots_per_cluster(), scan_reset()).0);
        results
    }
}

/// Listing a directory whose clusters (in chain order, numbered `ids`)
/// hold `cs`: each cluster's slots are listed as `list_slots` says,
/// carrying the long-name state from one cluster to the next, until a free
/// slot ends the directory.  Also the state after them and whether the
/// directory ended.
pub open spec fn list_clusters(cs: Seq<Seq<u8>>, ids: Seq<u32>, count: int, s: ScanView) -> (Seq<ListedView>, ScanView, bool)
    decreases cs.len(),
{
    if cs.len() == 0 || ids.len() != cs.len() {
        (Seq::empty(), s, false)
    } else {
        let prev = list_clusters(cs.drop_last(), ids.drop_last(), count, s);
        if prev.2 {
            prev
        } else {
            let here = list_slots(cs.last(), count, ids.last(), prev.1, 0);
            (prev.0 + here.0, here.1, here.2)
        }
    }
}

/// Volume geometry read from a FAT32 boot sector.
#[derive(Clone, Copy, Debug)]
pub struct Fat32Geometry {
    pub bytes_per_sector: u32,
    pub sectors_per_cluster: u32,
    pub bytes_per_cluster: u32,
    pub fat_start_lba: u64,
    pub fat_sectors: u32,
    pub num_fats: u32,
    pub data_start_lba: u64,
    pub root_cluster: u32,
    pub total_clusters: u32,
    pub fsinfo_sector: u64,
    pub volume_label: [u8; 11],
    pub volume_id: u32,
}

/// Total sectors of the volume: the 16-bit count when set, else the
/// 32-bit one.
pub open spec fn boot_total_sectors(boot: Seq<u8>) -> int {
    if le16(boot, 19) != 0 { le16(boot, 19) as int } else { le32(boot, 32) as int }
}

/// First data sector: reserved sectors plus all FAT copies.
pub open spec fn boot_data_start(boot: Seq<u8>) -> int {
    le16(boot, 14) + boot[16] * le32(boot, 36)
}

/// Number of data clusters (truncated to 32 bits).
pub open spec fn boot_total_clusters(boot: Seq<u8>) -> u32 {
    ((sat_sub_int(boot_total_sectors(boot), boot_data_start(boot)) / boot[13] as int) % 0x1_0000_0000) as u32
}

/// `a - b`, or 0.
pub open spec fn sat_sub_int(a: int, b: int) -> int {
    if a > b { a - b } else { 0 }
}

/// The boot sector is a usable FAT32 boot sector: signature 0x55AA, "FAT32"
/// at offset 82, a non-zero cluster size and a cluster count whose bitmap
/// size can be computed.
pub open spec fn boot_ok(boot: Seq<u8>) -> bool {
    &&& boot[510] == 0x55 && boot[511] == 0xAA
    &&& boot.subrange(82, 87) == seq![70u8, 65u8, 84u8, 51u8, 50u8]
    &&& boot[13] != 0
    &&& boot_total_clusters(boot) <= u32::MAX - 9
}

/// `g` holds the geometry the boot sector describes.
pub open spec fn geometry_of(boot: Seq<u8>, g: Fat32Geometry) -> bool {
    &&& g.bytes_per_sector == le16(boot, 11)
    &&& g.sectors_per_cluster == boot[13]
    &&& g.bytes_per_cluster == le16(boot, 11) * boot[13]
    &&& g.fat_start_lba == le16(boot, 14)
    &&& g.fat_sectors == le32(boot, 36)
    &&& g.num_fats == boot[16]
    &&& g.data_start_lba == boot_data_start(boot)
    &&& g.root_cluster == le32(boot, 44)
    &&& g.fsinfo_sector == le16(boot, 48)
    &&& g.volume_id == le32(boot, 67)
    &&& g.volume_label@ == boot.subrange(71, 82)
    &&& g.total_clusters == boot_total_clusters(boot)
}

/// Parse the boot sector of a FAT32 volume.
pub fn parse_boot_sector(boot: &[u8]) -> (r: Option<Fat32Geometry>)
    requires
        boot@.len() >= 512,
    ensures
        r is Some <==> boot_ok(boot@),
        r matches Some(g) ==> geometry_of(boot@, g) && g.data_start_lba <= 0x1_0000_0000_0000
            && g.sectors_per_cluster <= 255 && g.num_fats <= 255 && g.fat_start_lba <= 0xFFFF,
{
    if boot[510] != 0x55 || boot[511] != 0xAA {
        return None;
    }
    if boot[82] != 70 || boot[83] != 65 || boot[84] != 84 || boot[85] != 51 || boot[86] != 50 {
        proof {
            if boot@.subrange(82, 87) == seq![70u8, 65u8, 84u8, 51u8, 50u8] {
                assert(boot@.subrange(82, 87)[0] == boot@[82]);
                assert(boot@.subrange(82, 87)[1] == boot@[83]);
                assert(boot@.subrange(82, 87)[2] == boot@[84]);
                assert(boot@.subrange(82, 87)[3] == boot@[85]);
                assert(boot@.subrange(82, 87)[4] == boot@[86]);
            }
        }
        return None;
    }
    assert(boot@.subrange(82, 87) =~= seq![70u8, 65u8, 84u8, 51u8, 50u8]);
    let bytes_per_sector = read_u16_le(boot, 11) as u32;
    let sectors_per_cluster = boot[13] as u32;
    if sectors_per_cluster == 0 {
        return None;
    }
    let fat_start_lba = read_u16_le(boot, 14) as u64;
    let fat_sectors = read_u32_le(boot, 36);
    let num_fats = boot[16] as u32;
    proof {
        vstd::arithmetic::mul::lemma_mul_upper_bound(num_fats as int, 255, fat_sectors as int, 0xFFFF_FFFF);
        vstd::arithmetic::mul::lemma_mul_upper_bound(bytes_per_sector as int, 0xFFFF, sectors_per_cluster as int, 255);
    }
    let data_start_lba = fat_start_lba + num_fats as u64 * fat_sectors as u64;
    let tot16 = read_u16_le(boot, 19);
    let total_sectors: u64 = if tot16 != 0 { tot16 as u64 } else { read_u32_le(boot, 32) as u64 };
    let data_sectors = total_sectors.saturating_sub(data_start_lba);
    let total_clusters = (data_sectors / sectors_per_cluster as u64) as u32;
    if total_clusters > u32::MAX - 9 {
        return None;
    }
    let mut volume_label = [32u8; 11];
    let mut k: usize = 0;
    while k < 11
        invariant
            k <= 11,
            boot@.len() >= 512,
            forall|j: int| 0 <= j < k ==> volume_label@[j] == boot@[71 + j],
        decreases 11 - k,
    {
        volume_label[k] = boot[71 + k];
        k = k + 1;
    }
    assert(volume_label@ =~= boot@.subrange(71, 82));
    Some(Fat32Geometry {
        bytes_per_sector,
        sectors_per_cluster,
        bytes_per_cluster: bytes_per_sector * sectors_per_cluster,
        fat_start_lba,
        fat_sectors,
        num_fats,
        data_start_lba,
        root_cluster: read_u32_le(boot, 44),
        total_clusters,
        fsinfo_sector: read_u16_le(boot, 48) as u64,
        volume_label,
        volume_id: read_u32_le(boot, 67),
    })
}

/// The free cluster count an FSInfo sector records, when both of its
/// signatures are present.
pub open spec fn fsinfo_free(buf: Seq<u8>) -> Option<u32> {
    if le32(buf, 0) == 0x41615252 && le32(buf, 484) == 0x61417272 { Some(le32(buf, 488)) } else { None }
}

/// The free cluster count an FSInfo sector records, if it is valid.
pub fn parse_fsinfo(buf: &[u8]) -> (r: Option<u32>)
    requires
        buf@.len() >= 512,
    ensures
        r == fsinfo_free(buf@),
{
    let sig1 = read_u32_le(buf, 0);
    let sig2 = read_u32_le(buf, 484);
    if sig1 == 0x41615252 && sig2 == 0x61417272 {
        Some(read_u32_le(buf, 488))
    } else {
        None
    }
}

/// An FSInfo sector recording `free` clusters: lead, structure and trail
/// signatures, and "unknown" as the next-free hint.
pub open spec fn fsinfo_sector_bytes(free: u32) -> Seq<u8> {
    vstd::bytes::spec_u32_to_le_bytes(0x41615252) + Seq::new(480, |i: int| 0u8)
        + vstd::bytes::spec_u32_to_le_bytes(0x61417272) + vstd::bytes::spec_u32_to_le_bytes(free)
        + vstd::bytes::spec_u32_to_le_bytes(0xFFFF_FFFF) + Seq::new(12, |i: int| 0u8)
        + vstd::bytes::spec_u32_to_le_bytes(0xAA55_0000)
}

/// Build an FSInfo sector recording `free` clusters.
pub fn build_fsinfo(free: u32) -> (v: Vec<u8>)
    ensures
        v@ == fsinfo_sector_bytes(free),
{
    let mut v: Vec<u8> = Vec::new();
    crate::bytes::push_u32_le(&mut v, 0x41615252);
    let z = vec_of_zeros(480);
    push_slice(&mut v, z.as_slice());
    crate::bytes::push_u32_le(&mut v, 0x61417272);
    crate::bytes::push_u32_le(&mut v, free);
    crate::bytes::push_u32_le(&mut v, 0xFFFF_FFFF);
    let z2 = vec_of_zeros(12);
    push_slice(&mut v, z2.as_slice());
    crate::bytes::push_u32_le(&mut v, 0xAA55_0000);
    assert(z@ =~= Seq::new(480, |i: int| 0u8));
    assert(z2@ =~= Seq::new(12, |i: int| 0u8));
    assert(v@ =~= fsinfo_sector_bytes(free));
    v
}

impl<D: BlockDevice> Fat32Volume<D> {
    /// Initialise the volume from its boot sector: geometry, cluster
    /// buffer, the cluster bitmap built from the FAT, and the free count
    /// from FSInfo (all clusters when FSInfo is unreadable or invalid).
    /// `false` when the boot sector cannot be read or is not usable, or the
    /// bitmap cannot be built.
    fn init_inner(&mut self) -> (ok: bool)
        requires
            old(self).wf(),
        ensures
            final(self).wf(),
            final(self).spec_partition_start() == old(self).spec_partition_start(),
            ok ==> final(self).is_ready(),
            final(self).disk == old(self).disk,
            ok ==> (old(self).spec_partition_start() + 1) * 512 <= old(self).spec_disk_contents().len(),
            ok ==> boot_ok(sectors_of(old(self).spec_disk_contents(), old(self).spec_partition_start() as int, 1))
                && geometry_of(sectors_of(old(self).spec_disk_contents(), old(self).spec_partition_start() as int, 1), final(self).spec_geometry()),
    {
        let mut boot = vec_of_zeros(512);
        if !self.read_sectors_into(0, 1, boot.as_mut_slice()) {
            return false;
        }
        assert(boot@.subrange(0, 512) =~= boot@);
        assert(wrapped_add(self.partition_start_lba, 0) == self.partition_start_lba);
        let g = match parse_boot_sector(boot.as_slice()) {
            Some(g) => g,
            None => return false,
        };
        self.bytes_per_sector = g.bytes_per_sector;
        self.sectors_per_cluster = g.sectors_per_cluster;
        self.bytes_per_cluster = g.bytes_per_cluster;
        self.fat_start_lba = g.fat_start_lba;
        self.fat_sectors = g.fat_sectors;
        self.num_fats = g.num_fats;
        self.data_start_lba = g.data_start_lba;
        self.root_cluster = g.root_cluster;
        self.fsinfo_sector = g.fsinfo_sector;
        self.volume_label = g.volume_label;
        self.volume_id = g.volume_id;
        self.total_clusters = g.total_clusters;
        self.cluster_buf = vec_of_zeros(g.bytes_per_cluster as usize);
        self.fat_bitmap = vec_of_zeros(((g.total_clusters + 7) / 8) as usize);
        assert(self.spec_geometry() == g);
        if !self.build_fat_bitmap() {
            return false;
        }
        let mut fsinfo_buf = vec_of_zeros(512);
        let fsinfo_sector = self.fsinfo_sector;
        if self.read_sectors_into(fsinfo_sector, 1, fsinfo_buf.as_mut_slice()) {
            match parse_fsinfo(fsinfo_buf.as_slice()) {
                Some(free) => self.free_clusters = free,
                None => self.free_clusters = self.total_clusters,
            }
        } else {
            self.free_clusters = self.total_clusters;
        }
        self.ready = true;
        true
    }
}

/// Initialise a FAT32 volume on the partition of `disk` that starts at
/// `start_lba`.  `None` when it is not a valid FAT32 volume or cannot be
/// read.
pub fn fat32_init_partition<D: BlockDevice>(disk: D, start_lba: u64) -> (r: Option<Fat32Volume<D>>)
    ensures
        r matches Some(v) ==> v.wf() && v.is_ready() && v.spec_partition_start() == start_lba
            && v.spec_disk_contents() == disk.spec_contents()
            && (start_lba + 1) * 512 <= disk.spec_contents().len()
            && boot_ok(sectors_of(disk.spec_contents(), start_lba as int, 1))
            && geometry_of(sectors_of(disk.spec_contents(), start_lba as int, 1), v.spec_geometry()),
{
    let mut vol = Fat32Volume::new(disk, start_lba);
    if vol.init_inner() {
        Some(vol)
    } else {
        None
    }
}

/// Where a file's directory entry is, and the values to record in it.
pub struct Fat32File {
    pub dir_cluster: u32,
    pub dir_entry_index: u32,
    pub first_cluster: u32,
    pub file_size: u32,
    pub position: u64,
}

/// A directory cluster with the entry at `off` recording `first_cluster`
/// (high half at +20, low half at +26) and `file_size` (at +28).
pub open spec fn patched_dir_entry(buf: Seq<u8>, off: int, first_cluster: u32, file_size: u32) -> Seq<u8> {
    let b1 = spliced(buf, off + 28, vstd::bytes::spec_u32_to_le_bytes(file_size));
    let b2 = spliced(b1, off + 26, vstd::bytes::spec_u16_to_le_bytes((first_cluster & 0xFFFF) as u16));
    spliced(b2, off + 20, vstd::bytes::spec_u16_to_le_bytes((first_cluster >> 16u32) as u16))
}

/// Record `first_cluster` and `file_size` in the directory entry at `off`.
pub fn patch_dir_entry(buf: &mut [u8], off: usize, first_cluster: u32, file_size: u32)
    requires
        off + 32 <= old(buf)@.len(),
    ensures
        final(buf)@ == patched_dir_entry(old(buf)@, off as int, first_cluster, file_size),
        final(buf)@.len() == old(buf)@.len(),
{
    proof {
        crate::bytes::lemma_le_codec();
    }
    let _l = buf.len();
    let size_bytes = vstd::bytes::u32_to_le_bytes(file_size);
    write_bytes_at(buf, off + 28, size_bytes.as_slice());
    let lo = vstd::bytes::u16_to_le_bytes((first_cluster & 0xFFFF) as u16);
    write_bytes_at(buf, off + 26, lo.as_slice());
    let hi = vstd::bytes::u16_to_le_bytes((first_cluster >> 16u32) as u16);
    write_bytes_at(buf, off + 20, hi.as_slice());
}

/// First slot among `0..entry_count` whose first byte marks it free or
/// deleted.
pub open spec fn first_free_slot_from(data: Seq<u8>, i: int, n: int) -> Option<int>
    decreases n - i,
{
    if i >= n {
        None
    } else if data[32 * i] == DIR_ENTRY_FREE || data[32 * i] == DIR_ENTRY_DELETED {
        Some(i)
    } else {
        first_free_slot_from(data, i + 1, n)
    }
}

/// First free or deleted slot of a directory cluster.
pub fn first_free_slot(data: &[u8], entry_count: usize) -> (r: Option<usize>)
    requires
        entry_count * 32 <= data@.len(),
    ensures
        match r {
            Some(i) => first_free_slot_from(data@, 0, entry_count as int) == Some(i as int) && i < entry_count,
            None => first_free_slot_from(data@, 0, entry_count as int) is None,
        },
{
    let _dlen = data.len();
    let mut i: usize = 0;
    while i < entry_count
        invariant
            entry_count * 32 <= data@.len(),
            _dlen == data@.len(),
            i <= entry_count,
            first_free_slot_from(data@, i as int, entry_count as int) == first_free_slot_from(data@, 0, entry_count as int),
        decreases entry_count - i,
    {
        let b = data[32 * i];
        if b == DIR_ENTRY_FREE || b == DIR_ENTRY_DELETED {
            return Some(i);
        }
        i = i + 1;
    }
    None
}

/// Start of the first run of `count` free or deleted slots in a directory
/// cluster, scanning slots in order; a free (0x00) slot, after which all
/// slots are free, ends the scan: it succeeds there when the rest of the
/// cluster from the run's start is long enough.
pub open spec fn free_run_from(data: Seq<u8>, n: int, count: int, i: int, run_start: int, run_len: int) -> Option<int>
    decreases n - i,
{
    if i >= n {
        None
    } else {
        let fb = data[32 * i];
        if fb == DIR_ENTRY_FREE || fb == DIR_ENTRY_DELETED {
            let start = if run_len == 0 { i } else { run_start };
            if run_len + 1 >= count {
                Some(start)
            } else if fb == DIR_ENTRY_FREE {
                if n - start >= count { Some(start) } else { None }
            } else {
                free_run_from(data, n, count, i + 1, start, run_len + 1)
            }
        } else {
            free_run_from(data, n, count, i + 1, 0, 0)
        }
    }
}

/// Find a run of `count` free slots in a directory cluster (see
/// `free_run_from`).
pub fn free_run_in_cluster(data: &[u8], entry_count: usize, count: usize) -> (r: Option<usize>)
    requires
        entry_count * 32 <= data@.len(),
    ensures
        match r {
            Some(i) => free_run_from(data@, entry_count as int, count as int, 0, 0, 0) == Some(i as int) && i < entry_count,
            None => free_run_from(data@, entry_count as int, count as int, 0, 0, 0) is None,
        },
{
    let _dlen = data.len();
    let mut run_start: usize = 0;
    let mut run_len: usize = 0;
    let mut i: usize = 0;
    while i < entry_count
        invariant
            entry_count * 32 <= data@.len(),
            _dlen == data@.len(),
            i <= entry_count,
            run_len <= i,
            run_start <= i,
            run_len > 0 ==> run_start < i,
            free_run_from(data@, entry_count as int, count as int, i as int, run_start as int, run_len as int)
                == free_run_from(data@, entry_count as int, count as int, 0, 0, 0),
        decreases entry_count - i,
    {
        let fb = data[32 * i];
        if fb == DIR_ENTRY_FREE || fb == DIR_ENTRY_DELETED {
            if run_len == 0 {
                run_start = i;
            }
            run_len = run_len + 1;
            if run_len >= count {
                return Some(run_start);
            }
            if fb == DIR_ENTRY_FREE {
                if entry_count - run_start >= count {
                    return Some(run_start);
                }
                return None;
            }
        } else {
            run_len = 0;
            run_start = 0;
        }
        i = i + 1;
    }
    None
}

/// The characters kept for an alias base: bytes other than those 8.3 names
/// cannot hold and dots, uppercased, at most six.
pub open spec fn alias_base(base: Seq<u8>) -> Seq<u8>
    decreases base.len(),
{
    if base.len() == 0 {
        Seq::empty()
    } else {
        let prev = alias_base(base.drop_last());
        let c = base.last();
        if prev.len() >= 6 || is_illegal_83(c) || c == 46 { prev } else { prev.push(upper(c)) }
    }
}

/// The alias candidate with number `n`: the base cut so that it and "~n"
/// take at most seven bytes ("MiCarpeta" gives "MICAR~1"), "~n", space
/// padding, and the extension.
pub open spec fn alias_candidate(base: Seq<u8>, ext: Seq<u8>, n: nat) -> Seq<u8> {
    let suffix = seq![126u8] + dec_digits(n);
    let base_use = if base.len() < 7 - suffix.len() { base.len() as int } else { 7 - suffix.len() };
    let head = base.subrange(0, base_use) + suffix;
    Seq::new(11, |i: int| if i < 8 {
        if i < head.len() { head[i] } else { 32u8 }
    } else {
        if i - 8 < ext.len() { ext[i - 8] } else { 32u8 }
    })
}

/// For numbers 1 to 9 an alias is the first (up to five) bytes of the
/// base, '~', the digit, spaces up to byte 8, then the extension padded
/// with spaces to three bytes (the cleaned base "MICARP" with 1 gives
/// "MICAR~1").
pub proof fn lemma_alias_single_digit(base: Seq<u8>, ext: Seq<u8>, n: nat)
    requires
        1 <= n <= 9,
        ext.len() <= 3,
    ensures
        ({
            let c = alias_candidate(base, ext, n);
            let k: int = if base.len() < 5 { base.len() as int } else { 5 };
            &&& c.len() == 11
            &&& forall|i: int| 0 <= i < k ==> #[trigger] c[i] == base[i]
            &&& c[k] == 126u8 && c[k + 1] == (48 + n) as u8
            &&& forall|i: int| k + 2 <= i < 8 ==> #[trigger] c[i] == 32u8
            &&& forall|i: int| 8 <= i < 11 ==> #[trigger] c[i] == (if i - 8 < ext.len() { ext[i - 8] } else { 32u8 })
        }),
{
    let suffix = seq![126u8] + dec_digits(n);
    assert(dec_digits(n) == seq![(48 + n) as u8]);
    assert(suffix =~= seq![126u8, (48 + n) as u8]);
}

/// Build the alias candidate with number `n` (see `alias_candidate`).
fn build_alias(base: &[u8], ext: &[u8], n: u32) -> (short: [u8; 11])
    requires
        base@.len() <= 6,
        ext@.len() <= 3,
        1 <= n <= 9999,
    ensures
        short@ == alias_candidate(base@, ext@, n as nat),
{
    let mut suffix: Vec<u8> = Vec::new();
    suffix.push(126u8);
    push_dec(&mut suffix, n as u64);
    proof {
        lemma_dec_digits_len(n as nat);
    }
    let base_use = if base.len() < 7 - suffix.len() { base.len() } else { 7 - suffix.len() };
    let mut head: Vec<u8> = Vec::new();
    push_slice(&mut head, slice_subrange(base, 0, base_use));
    push_slice(&mut head, suffix.as_slice());
    let mut short = [32u8; 11];
    let mut i: usize = 0;
    assert(suffix@ =~= seq![126u8] + dec_digits(n as nat));
    while i < 11
        invariant
            i <= 11,
            suffix@ == seq![126u8] + dec_digits(n as nat),
            suffix@.len() <= 5,
            base_use == (if base@.len() < 7 - suffix@.len() { base@.len() as int } else { 7 - suffix@.len() }),
            base_use <= base@.len(),
            head@ == base@.subrange(0, base_use as int) + suffix@,
            head@.len() <= 8,
            ext@.len() <= 3,
            forall|k: int| 0 <= k < i ==> #[trigger] short@[k] == alias_candidate(base@, ext@, n as nat)[k],
        decreases 11 - i,
    {
        let c: u8 = if i < 8 {
            if i < head.len() { head[i] } else { 32 }
        } else {
            if i - 8 < ext.len() { ext[i - 8] } else { 32 }
        };
        short[i] = c;
        i = i + 1;
    }
    assert(short@ =~= alias_candidate(base@, ext@, n as nat));
    short
}

/// Collect the alias base of `base` (see `alias_base`).
fn collect_alias_base(base: &[u8]) -> (v: Vec<u8>)
    ensures
        v@ == alias_base(base@),
        v@.len() <= 6,
{
    let mut v: Vec<u8> = Vec::new();
    let n = base.len();
    let mut i: usize = 0;
    while i < n
        invariant
            n == base@.len(),
            i <= n,
            v@ == alias_base(base@.subrange(0, i as int)),
            v@.len() <= 6,
        decreases n - i,
    {
        proof {
            assert(base@.subrange(0, i + 1).drop_last() =~= base@.subrange(0, i as int));
        }
        let c = base[i];
        if v.len() < 6 && !illegal_83(c) && c != 46 {
            v.push(if c >= 97 && c <= 122 { c - 32 } else { c });
        }
        i = i + 1;
    }
    assert(base@.subrange(0, n as int) =~= base@);
    v
}

/// The extension used by aliases: its first three bytes, uppercased.
pub open spec fn alias_ext(ext: Seq<u8>) -> Seq<u8> {
    Seq::new(if ext.len() < 3 { ext.len() } else { 3 }, |i: int| upper(ext[i]))
}

fn collect_alias_ext(ext: &[u8]) -> (v: Vec<u8>)
    ensures
        v@ == alias_ext(ext@),
        v@.len() <= 3,
{
    let mut v: Vec<u8> = Vec::new();
    let n = if ext.len() < 3 { ext.len() } else { 3 };
    let mut i: usize = 0;
    while i < n
        invariant
            n <= ext@.len(),
            n <= 3,
            n == (if ext@.len() < 3 { ext@.len() } else { 3 }),
            i <= n,
            v@.len() == i,
            forall|k: int| 0 <= k < i ==> #[trigger] v@[k] == upper(ext@[k]),
        decreases n - i,
    {
        let c = ext[i];
        v.push(if c >= 97 && c <= 122 { c - 32 } else { c });
        i = i + 1;
    }
    assert(v@ =~= alias_ext(ext@));
    v
}

/// UCS-2 code unit stored for each character of a long name: the character
/// itself when ASCII, else '?'.
pub open spec fn ucs2_units(name: Seq<char>) -> Seq<u16> {
    Seq::new(name.len(), |i: int| if (name[i] as u32) < 0x80 { (name[i] as u32) as u16 } else { 63u16 })
}

/// Unit `j` of long-name entry `lfn_num` (1-based): the name's unit, a
/// terminating zero right after the name, 0xFFFF padding after that.
pub open spec fn lfn_entry_unit(units: Seq<u16>, lfn_num: int, j: int) -> u16 {
    let idx = (lfn_num - 1) * 13 + j;
    if idx < units.len() { units[idx] } else if idx == units.len() { 0 } else { 0xFFFF }
}

/// The 32 bytes of a long-name entry: order byte, 13 units in three groups
/// (bytes 1–10, 14–25, 28–31), attribute 0x0F, type 0, checksum, and a zero
/// cluster field.
pub open spec fn lfn_entry_bytes(ord: u8, u: Seq<u16>, checksum: u8) -> Seq<u8> {
    let b = |k: int| vstd::bytes::spec_u16_to_le_bytes(u[k]);
    seq![ord] + b(0) + b(1) + b(2) + b(3) + b(4) + seq![ATTR_LONG_NAME, 0u8, checksum]
        + b(5) + b(6) + b(7) + b(8) + b(9) + b(10) + seq![0u8, 0u8] + b(11) + b(12)
}

/// The long-name slot number `k` of a name whose UCS-2 units are `units`
/// and which takes `top` long-name slots: order `k` (marked last for
/// `k == top`), its thirteen units, and the checksum of the 8.3 name.
pub open spec fn lfn_slot(units: Seq<u16>, checksum: u8, k: int, top: u8) -> Seq<u8> {
    lfn_entry_bytes(
        if k == top { (k as u8) | LFN_LAST_ENTRY } else { k as u8 },
        Seq::new(13, |j: int| lfn_entry_unit(units, k, j)),
        checksum,
    )
}

/// The first cluster of a new directory of `len` bytes at `cluster` whose
/// parent directory starts at `parent`: "." pointing at `cluster`, ".."
/// pointing at `parent`, every other byte zero.
pub open spec fn new_dir_cluster(len: int, cluster: u32, parent: u32) -> Seq<u8> {
    let dot = new_short_entry([46u8, 32, 32, 32, 32, 32, 32, 32, 32, 32, 32], ATTR_DIRECTORY, cluster, 0).spec_encode();
    let dotdot = new_short_entry([46u8, 46, 32, 32, 32, 32, 32, 32, 32, 32, 32], ATTR_DIRECTORY, parent, 0).spec_encode();
    dot + dotdot + Seq::new((len - 64) as nat, |i: int| 0u8)
}

/// Build the first cluster of a new directory (see `new_dir_cluster`).
pub fn new_dir_cluster_bytes(len: usize, cluster: u32, parent: u32) -> (v: Vec<u8>)
    requires
        len >= 64,
    ensures
        v@ == new_dir_cluster(len as int, cluster, parent),
        v@.len() == len,
{
    let mut dot = Fat32DirEntry::zeroed();
    dot.name = [46u8, 32, 32, 32, 32, 32, 32, 32, 32, 32, 32];
    dot.attr = ATTR_DIRECTORY;
    dot.fst_clus_lo = (cluster & 0xFFFF) as u16;
    dot.fst_clus_hi = ((cluster >> 16u32) & 0xFFFF) as u16;
    let mut dotdot = Fat32DirEntry::zeroed();
    dotdot.name = [46u8, 46, 32, 32, 32, 32, 32, 32, 32, 32, 32];
    dotdot.attr = ATTR_DIRECTORY;
    dotdot.fst_clus_lo = (parent & 0xFFFF) as u16;
    dotdot.fst_clus_hi = ((parent >> 16u32) & 0xFFFF) as u16;
    assert(dot.name@ =~= seq![46u8, 32, 32, 32, 32, 32, 32, 32, 32, 32, 32]);
    assert(dotdot.name@ =~= seq![46u8, 46, 32, 32, 32, 32, 32, 32, 32, 32, 32]);
    assert(dot == new_short_entry([46u8, 32, 32, 32, 32, 32, 32, 32, 32, 32, 32], ATTR_DIRECTORY, cluster, 0));
    assert(dotdot == new_short_entry([46u8, 46, 32, 32, 32, 32, 32, 32, 32, 32, 32], ATTR_DIRECTORY, parent, 0));
    let mut v = dot.encode();
    let dd = dotdot.encode();
    push_slice(&mut v, dd.as_slice());
    let zeros = vec_of_zeros(len - 64);
    push_slice(&mut v, zeros.as_slice());
    assert(zeros@ =~= Seq::new((len - 64) as nat, |i: int| 0u8));
    v
}

/// The `m` slots before slot `i` of `buf` hold long-name slots 1 to `m`,
/// counting back from `i`.
pub open spec fn lfn_run(buf: Seq<u8>, i: int, m: int, units: Seq<u16>, checksum: u8, top: u8) -> bool {
    forall|j: int| 1 <= j <= m ==> #[trigger] slot_bytes(buf, i - j) == lfn_slot(units, checksum, j, top)
}

/// The slots before slot `i` hold the `top` long-name slots counting back
/// from `i`, or, when the run starts in an earlier cluster, as many of them
/// as there are slots before `i`.
pub open spec fn lfn_run_before(buf: Seq<u8>, i: int, units: Seq<u16>, checksum: u8, top: u8) -> bool {
    exists|m: int| 0 <= m <= top && (m == top || m == i) && #[trigger] lfn_run(buf, i, m, units, checksum, top)
}

/// The 8.3 entry written for a new object: its name, attributes, first
/// cluster and size, every time and date zero.
pub open spec fn new_short_entry(name: [u8; 11], attr: u8, cluster: u32, size: u32) -> Fat32DirEntry {
    Fat32DirEntry {
        name,
        attr,
        nt_res: 0,
        crt_time_tenth: 0,
        crt_time: 0,
        crt_date: 0,
        lst_acc_date: 0,
        fst_clus_hi: ((cluster >> 16u32) & 0xFFFF) as u16,
        wrt_time: 0,
        wrt_date: 0,
        fst_clus_lo: (cluster & 0xFFFF) as u16,
        file_size: size,
    }
}

/// An entry made by `new_short_entry` records the cluster it was given.
proof fn lemma_new_short_entry_cluster(name: [u8; 11], attr: u8, cluster: u32, size: u32)
    ensures
        spec_entry_cluster(new_short_entry(name, attr, cluster, size)) == cluster,
{
    let e = new_short_entry(name, attr, cluster, size);
    let hi: u16 = ((cluster >> 16u32) & 0xFFFF) as u16;
    let lo: u16 = (cluster & 0xFFFF) as u16;
    assert(e.fst_clus_hi == hi && e.fst_clus_lo == lo);
    assert((((hi as u32) << 16u32) | (lo as u32)) == cluster) by (bit_vector)
        requires hi == ((cluster >> 16u32) & 0xFFFF) as u16, lo == (cluster & 0xFFFF) as u16;
}

/// Writing 32 bytes at slot `idx` sets that slot and leaves the others.
proof fn lemma_slot_after_write(buf: Seq<u8>, idx: int, bytes: Seq<u8>, s: int)
    requires
        0 <= idx,
        bytes.len() == 32,
        32 * idx + 32 <= buf.len(),
        0 <= s,
        32 * s + 32 <= buf.len(),
    ensures
        slot_bytes(spliced(buf, 32 * idx, bytes), s) == (if s == idx { bytes } else { slot_bytes(buf, s) }),
{
    let t = spliced(buf, 32 * idx, bytes);
    if s == idx {
        assert(slot_bytes(t, s) =~= bytes);
    } else {
        assert(slot_bytes(t, s) =~= slot_bytes(buf, s));
    }
}

/// Build a long-name entry (see `lfn_entry_bytes`).
fn make_lfn_entry(ord: u8, units: &[u16; 13], checksum: u8) -> (v: Vec<u8>)
    ensures
        v@ == lfn_entry_bytes(ord, units@, checksum),
        v@.len() == 32,
{
    let mut v: Vec<u8> = Vec::new();
    v.push(ord);
    crate::bytes::push_u16_le(&mut v, units[0]);
    crate::bytes::push_u16_le(&mut v, units[1]);
    crate::bytes::push_u16_le(&mut v, units[2]);
    crate::bytes::push_u16_le(&mut v, units[3]);
    crate::bytes::push_u16_le(&mut v, units[4]);
    v.push(ATTR_LONG_NAME);
    v.push(0u8);
    v.push(checksum);
    crate::bytes::push_u16_le(&mut v, units[5]);
    crate::bytes::push_u16_le(&mut v, units[6]);
    crate::bytes::push_u16_le(&mut v, units[7]);
    crate::bytes::push_u16_le(&mut v, units[8]);
    crate::bytes::push_u16_le(&mut v, units[9]);
    crate::bytes::push_u16_le(&mut v, units[10]);
    v.push(0u8);
    v.push(0u8);
    crate::bytes::push_u16_le(&mut v, units[11]);
    crate::bytes::push_u16_le(&mut v, units[12]);
    proof {
        crate::bytes::lemma_le_codec();
    }
    assert(v@ =~= lfn_entry_bytes(ord, units@, checksum));
    v
}

/// The UCS-2 units of a name (non-ASCII characters become '?').
fn name_units(name: &str) -> (v: Vec<u16>)
    ensures
        v@ == ucs2_units(name@),
{
    let n = name.unicode_len();
    let mut v: Vec<u16> = Vec::new();
    let mut i: usize = 0;
    while i < n
        invariant
            n == name@.len(),
            i <= n,
            v@.len() == i,
            forall|k: int| 0 <= k < i ==> #[trigger] v@[k] == ucs2_units(name@)[k],
        decreases n - i,
    {
        let c = name.get_char(i);
        let u: u16 = if (c as u32) < 0x80 { (c as u32) as u16 } else { 63u16 };
        v.push(u);
        i = i + 1;
    }
    assert(v@ =~= ucs2_units(name@));
    v
}

/// The units of long-name entry `lfn_num`.
fn lfn_units_for(units: &[u16], lfn_num: usize) -> (out: [u16; 13])
    requires
        1 <= lfn_num,
        lfn_num * 13 <= usize::MAX,
    ensures
        forall|j: int| 0 <= j < 13 ==> #[trigger] out@[j] == lfn_entry_unit(units@, lfn_num as int, j),
{
    let seg_start = (lfn_num - 1) * 13;
    let mut out = [0xFFFFu16; 13];
    let mut j: usize = 0;
    while j < 13
        invariant
            j <= 13,
            seg_start == (lfn_num - 1) * 13,
            lfn_num * 13 <= usize::MAX,
            forall|k: int| 0 <= k < j ==> #[trigger] out@[k] == lfn_entry_unit(units@, lfn_num as int, k),
        decreases 13 - j,
    {
        let idx = seg_start + j;
        out[j] = if idx < units.len() { units[idx] } else if idx == units.len() { 0 } else { 0xFFFF };
        j = j + 1;
    }
    out
}

/// Facts a directory operation keeps.
pub open spec fn keeps_volume<D: BlockDevice>(new: &Fat32Volume<D>, old: &Fat32Volume<D>) -> bool {
    &&& new.wf()
    &&& new.is_ready() == old.is_ready()
    &&& new.spec_total_clusters() == old.spec_total_clusters()
}

impl<D: BlockDevice> Fat32Volume<D> {
    /// Record a file's first cluster and size in its directory entry
    /// (nothing happens when the directory cluster cannot be read or the
    /// entry lies outside it).
    fn update_dir_entry_size(&mut self, file: &Fat32File)
        requires
            old(self).wf(),
        ensures
            keeps_volume(final(self), old(self)),
            final(self).bytes_per_cluster == old(self).bytes_per_cluster,
            final(self).root_cluster == old(self).root_cluster,
    {
        if !self.read_cluster(file.dir_cluster) {
            return;
        }
        let entry_offset64 = file.dir_entry_index as u64 * 32;
        if entry_offset64 + 32 > self.cluster_buf.len() as u64 {
            return;
        }
        let entry_offset = entry_offset64 as usize;
        patch_dir_entry(self.cluster_buf.as_mut_slice(), entry_offset, file.first_cluster, file.file_size);
        let _ok = self.write_cluster(file.dir_cluster);
    }

    /// First free or deleted slot of a directory, extending the directory
    /// by a zeroed cluster when it has none.  Returns (cluster, slot).
    fn find_free_dir_slot(&mut self, dir_cluster: u32) -> (r: Option<(u32, u32)>)
        requires
            old(self).wf(),
        ensures
            keeps_volume(final(self), old(self)),
            final(self).bytes_per_cluster == old(self).bytes_per_cluster,
            final(self).root_cluster == old(self).root_cluster,
    {
        let entry_count = (self.bytes_per_cluster / 32) as usize;
        let mut cluster = dir_cluster;
        let limit: u32 = self.total_clusters + 2;
        let mut steps: u32 = 0;
        while !is_eof(cluster) && !is_bad(cluster) && steps < limit
            invariant
                keeps_volume(self, old(self)),
                self.bytes_per_cluster == old(self).bytes_per_cluster,
                self.root_cluster == old(self).root_cluster,
                entry_count == self.bytes_per_cluster / 32,
                limit == self.total_clusters + 2,
                steps <= limit,
            decreases limit - steps,
        {
            if !self.read_cluster(cluster) {
                return None;
            }
            match first_free_slot(self.cluster_buf.as_slice(), entry_count) {
                Some(i) => return Some((cluster, i as u32)),
                None => {},
            }
            cluster = match self.read_fat_entry(cluster) {
                Some(c) => c,
                None => return None,
            };
            steps = steps + 1;
        }
        let (new_cluster, _) = match self.alloc_cluster(dir_cluster) {
            Some(p) => p,
            None => return None,
        };
        self.zero_cluster_buf();
        let _ok = self.write_cluster(new_cluster);
        Some((new_cluster, 0))
    }

    /// Fill the cluster buffer with the first cluster of a new directory
    /// (see `new_dir_cluster`).
    fn prepare_new_dir_cluster(&mut self, cluster: u32, parent: u32) -> (ok: bool)
        requires
            old(self).wf(),
        ensures
            keeps_volume(final(self), old(self)),
            final(self).unchanged_except_buffers(old(self)),
            ok == (old(self).spec_cluster_buf().len() >= 64),
            ok ==> final(self).spec_cluster_buf() == new_dir_cluster(old(self).spec_cluster_buf().len() as int, cluster, parent),
    {
        let n = self.cluster_buf.len();
        if n < 64 {
            return false;
        }
        self.cluster_buf = new_dir_cluster_bytes(n, cluster, parent);
        true
    }

    /// Zero the scratch cluster buffer.
    fn zero_cluster_buf(&mut self)
        requires
            old(self).wf(),
        ensures
            keeps_volume(final(self), old(self)),
            final(self).unchanged_except_buffers(old(self)),
            final(self).cluster_buf@ == Seq::new(old(self).cluster_buf@.len(), |i: int| 0u8),
    {
        let n = self.cluster_buf.len();
        let mut i: usize = 0;
        while i < n
            invariant
                n == self.cluster_buf@.len(),
                i <= n,
                self.wf(),
                self.unchanged_except_buffers(old(self)),
                self.cluster_buf@.len() == old(self).cluster_buf@.len(),
                forall|k: int| 0 <= k < i ==> self.cluster_buf@[k] == 0,
            decreases n - i,
        {
            self.cluster_buf.set(i, 0);
            i = i + 1;
        }
        assert(self.cluster_buf@ =~= Seq::new(old(self).cluster_buf@.len(), |i: int| 0u8));
    }

    /// A unique 8.3 alias for a long name in a directory: the first
    /// `alias_candidate` (numbers 1 to 9999) no entry of the directory is
    /// already called.
    fn generate_short_alias(&mut self, dir_cluster: u32, name: &str) -> (r: Option<[u8; 11]>)
        requires
            old(self).wf(),
        ensures
            keeps_volume(final(self), old(self)),
            final(self).unchanged_except_buffers(old(self)),
            final(self).disk == old(self).disk,
            r matches Some(a) ==> exists|n: nat| 1 <= n <= 9999 && a@ == #[trigger] alias_candidate(
                alias_base(split_at_dot(name.spec_bytes(), last_index_of(name.spec_bytes(), 46)).0),
                alias_ext(split_at_dot(name.spec_bytes(), last_index_of(name.spec_bytes(), 46)).1), n)
                && forall|m: nat| 1 <= m < n ==> old(self).name_found(dir_cluster, encode_utf8(short_name_chars(#[trigger] alias_candidate(
                    alias_base(split_at_dot(name.spec_bytes(), last_index_of(name.spec_bytes(), 46)).0),
                    alias_ext(split_at_dot(name.spec_bytes(), last_index_of(name.spec_bytes(), 46)).1), m), 0))),
            r is None ==> forall|m: nat| 1 <= m <= 9999 ==> old(self).name_found(dir_cluster, encode_utf8(short_name_chars(#[trigger] alias_candidate(
                alias_base(split_at_dot(name.spec_bytes(), last_index_of(name.spec_bytes(), 46)).0),
                alias_ext(split_at_dot(name.spec_bytes(), last_index_of(name.spec_bytes(), 46)).1), m), 0))),
    {
        let bytes = name.as_bytes();
        let dot = rfind_byte(bytes, 46);
        let (base_part, ext_part) = split_dot(bytes, dot);
        let base = collect_alias_base(base_part);
        let ext = collect_alias_ext(ext_part);
        let mut n: u32 = 1;
        while n <= 9999
            invariant
                1 <= n <= 10000,
                self.wf(),
                keeps_volume(self, old(self)),
                self.unchanged_except_buffers(old(self)),
                base@ == alias_base(split_at_dot(name.spec_bytes(), last_index_of(name.spec_bytes(), 46)).0),
                ext@ == alias_ext(split_at_dot(name.spec_bytes(), last_index_of(name.spec_bytes(), 46)).1),
                base@.len() <= 6,
                ext@.len() <= 3,
                self.disk == old(self).disk,
                forall|m: nat| 1 <= m < n ==> old(self).name_found(dir_cluster, encode_utf8(short_name_chars(#[trigger] alias_candidate(base@, ext@, m), 0))),
            decreases 10000 - n,
        {
            let short = build_alias(base.as_slice(), ext.as_slice(), n);
            let alias_str = short_name_to_str(&short, 0);
            let ghost before = *self;
            let alias_name = alias_str.as_str();
            let found = self.lookup_in_dir(dir_cluster, alias_name);
            if found.is_none() {
                return Some(short);
            }
            proof {
                let nm = alias_name.spec_bytes();
                assert(nm == encode_utf8(short_name_chars(alias_candidate(base@, ext@, n as nat), 0)));
                let (cs, ids) = choose|cs: Seq<Seq<u8>>, ids: Seq<u32>| {
                    let lv = (#[trigger] lookup_clusters(cs, ids, before.spec_slots_per_cluster(), nm)).0;
                    &&& before.chain_read(dir_cluster, cs, ids)
                    &&& found matches Some(f) ==> (ids.len() > 0 && (lv matches LookupView::Found { index, scan }))
                };
                Self::lemma_chain_read_same(&before, &*old(self), dir_cluster, cs, ids);
                assert(old(self).name_found(dir_cluster, nm));
            }
            n = n + 1;
        }
        None
    }

    /// Byte `p` of the file whose chain starts at `first` is `b` as far as
    /// the device says: the cluster holding it is on the chain (as the FAT
    /// the device holds has it), and when the byte lies in that cluster's
    /// sectors, the device holds `b` there.
    pub closed spec fn file_byte(&self, first: u32, p: int, b: u8) -> bool {
        let bpc = self.bytes_per_cluster as int;
        &&& bpc > 0
        &&& self.chain_nth(first, (p / bpc) as nat) matches Some(c)
        &&& c >= 2
        &&& (p % bpc < self.sectors_per_cluster * 512 ==> b == sectors_of(self.disk.spec_contents(),
            wrapped_add(self.partition_start_lba, Self::spec_cluster_lba(self.data_start_lba, self.sectors_per_cluster, c) as u64),
            self.sectors_per_cluster as int)[p % bpc])
    }

    /// A byte of a cluster read into `data` is the device's byte there.
    proof fn lemma_cluster_byte(a: &Self, b: &Self, c: u32, data: Seq<u8>, i: int)
        requires
            b.cluster_read(c, data),
            a.disk == b.disk,
            a.unchanged_except_buffers(b),
            0 <= i < data.len(),
        ensures
            i < a.sectors_per_cluster * 512 ==> data[i] == sectors_of(a.disk.spec_contents(),
                wrapped_add(a.partition_start_lba, Self::spec_cluster_lba(a.data_start_lba, a.sectors_per_cluster, c) as u64),
                a.sectors_per_cluster as int)[i],
    {
        if i < a.sectors_per_cluster * 512 {
            assert(data[i] == data.subrange(0, a.sectors_per_cluster * 512)[i]);
        }
    }

    /// The chain is the same on volumes with the same device and FAT.
    proof fn lemma_chain_nth_same(a: &Self, b: &Self, first: u32, k: nat)
        requires
            a.disk == b.disk,
            a.unchanged_except_buffers(b),
        ensures
            a.chain_nth(first, k) == b.chain_nth(first, k),
        decreases k,
    {
        if k > 0 {
            Self::lemma_chain_nth_same(a, b, first, (k - 1) as nat);
        }
    }

    /// Reading a chain gives the same on volumes with the same device,
    /// place and geometry.
    proof fn lemma_chain_read_same(a: &Self, b: &Self, first: u32, cs: Seq<Seq<u8>>, ids: Seq<u32>)
        requires
            a.disk == b.disk,
            a.unchanged_except_buffers(b),
        ensures
            a.chain_read(first, cs, ids) == b.chain_read(first, cs, ids),
            a.spec_slots_per_cluster() == b.spec_slots_per_cluster(),
    {
        assert forall|c: u32, d: Seq<u8>| a.cluster_read(c, d) == b.cluster_read(c, d) by {}
        assert forall|c: u32| a.spec_fat_entry(c) == b.spec_fat_entry(c) by {}
    }

    /// A lookup of `name` in the directory starting at `dir`, over the
    /// clusters of its chain as the device holds them, finds it.
    pub closed spec fn name_found(&self, dir: u32, name: Seq<u8>) -> bool {
        exists|cs: Seq<Seq<u8>>, ids: Seq<u32>| (#[trigger] lookup_clusters(cs, ids, self.spec_slots_per_cluster(), name)).0 is Found
            && self.chain_read(dir, cs, ids)
    }

    /// Start (cluster, slot) of `count` consecutive free slots in a
    /// directory (see `free_run_in_cluster`), else of newly allocated and
    /// zeroed clusters appended to it.
    fn find_n_free_dir_slots(&mut self, dir_cluster: u32, count: usize) -> (r: Option<(u32, u32)>)
        requires
            old(self).wf(),
        ensures
            keeps_volume(final(self), old(self)),
            final(self).bytes_per_cluster == old(self).bytes_per_cluster,
            final(self).root_cluster == old(self).root_cluster,
    {
        if count <= 1 {
            return self.find_free_dir_slot(dir_cluster);
        }
        let entry_count = (self.bytes_per_cluster / 32) as usize;
        if entry_count == 0 {
            return None;
        }
        let mut cluster = dir_cluster;
        let limit: u32 = self.total_clusters + 2;
        let mut steps: u32 = 0;
        while !is_eof(cluster) && !is_bad(cluster) && steps < limit
            invariant
                keeps_volume(self, old(self)),
                self.bytes_per_cluster == old(self).bytes_per_cluster,
                self.root_cluster == old(self).root_cluster,
                entry_count == self.bytes_per_cluster / 32,
                limit == self.total_clusters + 2,
                steps <= limit,
            decreases limit - steps,
        {
            if !self.read_cluster(cluster) {
                return None;
            }
            match free_run_in_cluster(self.cluster_buf.as_slice(), entry_count, count) {
                Some(start) => return Some((cluster, start as u32)),
                None => {},
            }
            match self.read_fat_entry(cluster) {
                Some(next) => {
                    if is_eof(next) || is_bad(next) {
                        break;
                    }
                    cluster = next;
                },
                None => break,
            }
            steps = steps + 1;
        }
        let whole = count / entry_count;
        let rest = count % entry_count;
        assert(rest != 0 ==> whole < count) by (nonlinear_arith)
            requires whole == count / entry_count, rest == count % entry_count, entry_count >= 1;
        let clusters_needed = whole + if rest == 0 { 0 } else { 1 };
        let mut first_new: u32 = 0;
        let mut k: usize = 0;
        while k < clusters_needed
            invariant
                keeps_volume(self, old(self)),
                self.bytes_per_cluster == old(self).bytes_per_cluster,
                self.root_cluster == old(self).root_cluster,
                k <= clusters_needed,
            decreases clusters_needed - k,
        {
            let (new_c, _) = match self.alloc_cluster(dir_cluster) {
                Some(p) => p,
                None => return None,
            };
            if k == 0 {
                first_new = new_c;
            }
            self.zero_cluster_buf();
            let _ok = self.write_cluster(new_c);
            k = k + 1;
        }
        Some((first_new, 0))
    }

    /// Move on to the next cluster of a directory chain while writing
    /// entries: flush the current one, follow the FAT, load the next.
    fn advance_dir_cluster(&mut self, cur: u32) -> (r: Option<u32>)
        requires
            old(self).wf(),
        ensures
            keeps_volume(final(self), old(self)),
            final(self).unchanged_except_buffers(old(self)),
    {
        if !self.write_cluster(cur) {
            return None;
        }
        let next = match self.read_fat_entry(cur) {
            Some(n) => n,
            None => return None,
        };
        if is_eof(next) || is_bad(next) {
            return None;
        }
        if !self.read_cluster(next) {
            return None;
        }
        Some(next)
    }

    /// Write the long-name entries of `name` (highest order first) and then
    /// its 8.3 entry, from (`start_cluster`, `start_index`) on, following the
    /// chain across cluster boundaries.  Returns where the 8.3 entry went.
    fn write_lfn_and_83(
        &mut self,
        start_cluster: u32,
        start_index: u32,
        name: &str,
        short_name: &[u8; 11],
        attr: u8,
        file_cluster: u32,
        file_size: u32,
    ) -> (r: Option<(u32, u32)>)
        requires
            old(self).wf(),
            name.spec_bytes().len() + 12 <= usize::MAX,
        ensures
            keeps_volume(final(self), old(self)),
            final(self).unchanged_except_buffers(old(self)),
            r matches Some((c, i)) ==> c >= 2 && 32 * i + 32 <= final(self).spec_cluster_buf().len()
                && final(self).cluster_on_disk(c, final(self).spec_cluster_buf()),
            r matches Some((c, i)) ==> slot_bytes(final(self).spec_cluster_buf(), i as int)
                == new_short_entry(*short_name, attr, file_cluster, file_size).spec_encode(),
            r matches Some((c, i)) ==> final(self).dir_slot_on_disk(c, i as int, new_short_entry(*short_name, attr, file_cluster, file_size)),
            r is Some ==> lfn_run_before(final(self).spec_cluster_buf(), r->Some_0.1 as int, ucs2_units(name@),
                vfat_sum(short_name@, 11), ((name.spec_bytes().len() + 12) / 13) as u8),
    {
        let checksum = vfat_checksum(short_name);
        let n_lfn = lfn_entry_count(name);
        let units = name_units(name);
        let entries_per_cluster = (self.bytes_per_cluster / 32) as usize;
        let mut cur_cluster = start_cluster;
        let mut cur_index = start_index as usize;
        if !self.read_cluster(cur_cluster) {
            return None;
        }
        let top = n_lfn as u8;
        let mut lfn_num: u8 = top;
        let ghost mut m: int = 0;
        while lfn_num >= 1
            invariant
                keeps_volume(self, old(self)),
                self.unchanged_except_buffers(old(self)),
                entries_per_cluster == self.bytes_per_cluster / 32,
                self.cluster_buf@.len() == self.bytes_per_cluster,
                lfn_num <= top,
                top == ((name.spec_bytes().len() + 12) / 13) as u8,
                units@ == ucs2_units(name@),
                checksum == vfat_sum(short_name@, 11),
                0 <= m <= top - lfn_num,
                m <= cur_index,
                m == top - lfn_num || m == cur_index,
                m > 0 ==> cur_index <= entries_per_cluster,
                forall|j: int| 1 <= j <= m ==>
                    #[trigger] slot_bytes(self.cluster_buf@, cur_index - j) == lfn_slot(units@, checksum, lfn_num + j, top),
            decreases lfn_num,
        {
            let chars = lfn_units_for(units.as_slice(), lfn_num as usize);
            let ord = if lfn_num == top { lfn_num | LFN_LAST_ENTRY } else { lfn_num };
            let lfn_bytes = make_lfn_entry(ord, &chars, checksum);
            proof {
                assert(chars@ =~= Seq::new(13, |j: int| lfn_entry_unit(units@, lfn_num as int, j)));
                assert(lfn_bytes@ == lfn_slot(units@, checksum, lfn_num as int, top));
            }
            if cur_index >= entries_per_cluster {
                cur_cluster = match self.advance_dir_cluster(cur_cluster) {
                    Some(c) => c,
                    None => return None,
                };
                cur_index = 0;
                proof {
                    m = 0;
                }
            }
            if cur_index >= entries_per_cluster {
                return None;
            }
            let off = cur_index * 32;
            let ghost before = self.cluster_buf@;
            write_bytes_at(self.cluster_buf.as_mut_slice(), off, lfn_bytes.as_slice());
            proof {
                assert forall|j: int| 1 <= j <= m + 1 implies
                    #[trigger] slot_bytes(self.cluster_buf@, cur_index + 1 - j) == lfn_slot(units@, checksum, lfn_num - 1 + j, top) by {
                    lemma_slot_after_write(before, cur_index as int, lfn_bytes@, cur_index + 1 - j);
                    if j > 1 {
                        assert(slot_bytes(before, cur_index - (j - 1)) == lfn_slot(units@, checksum, lfn_num + (j - 1), top));
                    }
                }
                m = m + 1;
            }
            cur_index = cur_index + 1;
            lfn_num = lfn_num - 1;
        }
        if cur_index >= entries_per_cluster {
            cur_cluster = match self.advance_dir_cluster(cur_cluster) {
                Some(c) => c,
                None => return None,
            };
            cur_index = 0;
            proof {
                m = 0;
            }
        }
        if cur_index >= entries_per_cluster {
            return None;
        }
        let mut entry_83 = Fat32DirEntry::zeroed();
        entry_83.name = *short_name;
        entry_83.attr = attr;
        entry_83.fst_clus_lo = (file_cluster & 0xFFFF) as u16;
        entry_83.fst_clus_hi = ((file_cluster >> 16u32) & 0xFFFF) as u16;
        entry_83.file_size = file_size;
        let bytes = entry_83.encode();
        let off = cur_index * 32;
        let ghost before = self.cluster_buf@;
        assert(entry_83 == new_short_entry(*short_name, attr, file_cluster, file_size));
        write_bytes_at(self.cluster_buf.as_mut_slice(), off, bytes.as_slice());
        proof {
            lemma_slot_after_write(before, cur_index as int, bytes@, cur_index as int);
            assert forall|j: int| 1 <= j <= m implies
                #[trigger] slot_bytes(self.cluster_buf@, cur_index - j) == lfn_slot(units@, checksum, j, top) by {
                lemma_slot_after_write(before, cur_index as int, bytes@, cur_index - j);
                assert(slot_bytes(before, cur_index - j) == lfn_slot(units@, checksum, 0 + j, top));
            }
        }
        if !self.write_cluster(cur_cluster) {
            return None;
        }
        proof {
            let buf = self.cluster_buf@;
            let bpc = self.bytes_per_cluster as int;
            assert(32 * cur_index + 32 <= bpc) by (nonlinear_arith)
                requires cur_index < entries_per_cluster, entries_per_cluster == bpc / 32, bpc >= 0;
            let ri = cur_index as u32;
            assert((ri as int) == cur_index);
            assert(slot_bytes(buf, ri as int) == new_short_entry(*short_name, attr, file_cluster, file_size).spec_encode());
            assert(lfn_run(buf, ri as int, m, units@, checksum, top));
            assert(lfn_run_before(self.spec_cluster_buf(), ri as int, ucs2_units(name@), vfat_sum(short_name@, 11), top));
            self.lemma_slot_written(cur_cluster, buf, ri as int);
        }
        Some((cur_cluster, cur_index as u32))
    }

    /// Mark `count` consecutive directory slots deleted from
    /// (`start_cluster`, `start_index`) on, following the chain (for at
    /// most as many clusters as the volume has).
    fn mark_entries_deleted(&mut self, start_cluster: u32, start_index: u32, count: u32)
        requires
            old(self).wf(),
        ensures
            keeps_volume(final(self), old(self)),
            final(self).unchanged_except_buffers(old(self)),
    {
        if count == 0 {
            return;
        }
        let entries_per_cluster = (self.bytes_per_cluster / 32) as usize;
        let mut cluster = start_cluster;
        let mut index = start_index as usize;
        let mut remaining = count as usize;
        let limit: u32 = self.total_clusters + 2;
        let mut steps: u32 = 0;
        while remaining > 0 && steps < limit
            invariant
                keeps_volume(self, old(self)),
                self.unchanged_except_buffers(old(self)),
                entries_per_cluster == self.bytes_per_cluster / 32,
                limit == self.total_clusters + 2,
                steps <= limit,
            decreases limit - steps,
        {
            if !self.read_cluster(cluster) {
                return;
            }
            let mut dirty = false;
            while index < entries_per_cluster && remaining > 0
                invariant
                    self.wf(),
                    keeps_volume(self, old(self)),
                    self.unchanged_except_buffers(old(self)),
                    entries_per_cluster == self.bytes_per_cluster / 32,
                decreases remaining,
            {
                self.cluster_buf.set(index * 32, DIR_ENTRY_DELETED);
                index = index + 1;
                remaining = remaining - 1;
                dirty = true;
            }
            if dirty {
                let _ok = self.write_cluster(cluster);
            }
            if remaining > 0 {
                match self.read_fat_entry(cluster) {
                    Some(n) => {
                        if is_eof(n) || is_bad(n) {
                            break;
                        }
                        cluster = n;
                        index = 0;
                    },
                    None => break,
                }
            }
            steps = steps + 1;
        }
    }
}

/// Number of set bits among the first `n` bytes of a bitmap.
pub open spec fn ones_in(bitmap: Seq<u8>, n: int) -> nat
    decreases n,
{
    if n <= 0 { 0 } else { ones_in(bitmap, n - 1) + popcount(bitmap[n - 1]) }
}

/// Number of set bits of a byte.
pub open spec fn popcount(b: u8) -> nat {
    (b & 1u8) as nat + ((b >> 1u8) & 1u8) as nat + ((b >> 2u8) & 1u8) as nat + ((b >> 3u8) & 1u8) as nat
        + ((b >> 4u8) & 1u8) as nat + ((b >> 5u8) & 1u8) as nat + ((b >> 6u8) & 1u8) as nat + ((b >> 7u8) & 1u8) as nat
}

fn count_ones(b: u8) -> (n: u64)
    ensures
        n == popcount(b),
        n <= 8,
{
    assert((b & 1u8) <= 1 && ((b >> 1u8) & 1u8) <= 1 && ((b >> 2u8) & 1u8) <= 1 && ((b >> 3u8) & 1u8) <= 1
        && ((b >> 4u8) & 1u8) <= 1 && ((b >> 5u8) & 1u8) <= 1 && ((b >> 6u8) & 1u8) <= 1 && ((b >> 7u8) & 1u8) <= 1)
        by (bit_vector);
    (b & 1u8) as u64 + ((b >> 1u8) & 1u8) as u64 + ((b >> 2u8) & 1u8) as u64 + ((b >> 3u8) & 1u8) as u64
        + ((b >> 4u8) & 1u8) as u64 + ((b >> 5u8) & 1u8) as u64 + ((b >> 6u8) & 1u8) as u64 + ((b >> 7u8) & 1u8) as u64
}

impl<D: BlockDevice> Fat32Volume<D> {
    /// The volume label as read from the boot sector (all spaces before).
    pub closed spec fn spec_volume_label(&self) -> [u8; 11] {
        self.volume_label
    }

    /// The volume serial number as read from the boot sector (0 before).
    pub closed spec fn spec_volume_id(&self) -> u32 {
        self.volume_id
    }

    /// The 11-byte volume label from the boot sector.
    pub fn volume_label(&self) -> (l: [u8; 11])
        ensures
            l == self.spec_volume_label(),
    {
        self.volume_label
    }

    /// The volume serial number from the boot sector.
    pub fn volume_id(&self) -> (id: u32)
        ensures
            id == self.spec_volume_id(),
    {
        self.volume_id
    }

    /// Write a fresh 8.3 entry for `name` into slot (`sc`, `si`).
    fn write_short_entry(&mut self, sc: u32, si: u32, name: &str, attr: u8, first_cluster: u32, file_size: u32) -> (r: Result<(), FsError>)
        requires
            old(self).wf(),
        ensures
            keeps_volume(final(self), old(self)),
            final(self).unchanged_except_buffers(old(self)),
            r matches Err(e) ==> e == FsError::IoError,
            r is Ok ==> final(self).dir_entry_written(sc, si as int, attr, first_cluster, file_size),
    {
        let mut short_name = [32u8; 11];
        let nt_res = name_to_short(name, &mut short_name);
        let mut new_entry = Fat32DirEntry::zeroed();
        new_entry.name = short_name;
        new_entry.nt_res = nt_res;
        new_entry.attr = attr;
        new_entry.fst_clus_lo = (first_cluster & 0xFFFF) as u16;
        new_entry.fst_clus_hi = ((first_cluster >> 16u32) & 0xFFFF) as u16;
        new_entry.file_size = file_size;
        if !self.read_cluster(sc) {
            return Err(FsError::IoError);
        }
        let off = si as u64 * 32;
        if off + 32 > self.cluster_buf.len() as u64 {
            return Err(FsError::IoError);
        }
        let bytes = new_entry.encode();
        write_bytes_at(self.cluster_buf.as_mut_slice(), off as usize, bytes.as_slice());
        if !self.write_cluster(sc) {
            return Err(FsError::IoError);
        }
        proof {
            assert(slot_bytes(self.cluster_buf@, si as int) =~= new_entry.spec_encode());
            self.lemma_slot_written(sc, self.cluster_buf@, si as int);
            assert(self.dir_slot_on_disk(sc, si as int, new_entry));
            let hi = new_entry.fst_clus_hi;
            let lo = new_entry.fst_clus_lo;
            assert((((hi as u32) << 16u32) | (lo as u32)) == first_cluster) by (bit_vector)
                requires hi == ((first_cluster >> 16u32) & 0xFFFF) as u16, lo == (first_cluster & 0xFFFF) as u16;
        }
        Ok(())
    }

    /// Add a directory entry called `name` to a directory: long-name entries
    /// and a generated alias when the name needs them, else one 8.3 entry.
    /// Returns where the 8.3 entry went.  `OutOfMemory` when no alias or
    /// slots can be had, `IoError` when a write fails.
    fn add_dir_entry(&mut self, dir_cluster: u32, name: &str, attr: u8, first_cluster: u32, file_size: u32) -> (r: Result<(u32, u32), FsError>)
        requires
            old(self).wf(),
            name.spec_bytes().len() + 13 <= usize::MAX,
        ensures
            keeps_volume(final(self), old(self)),
            final(self).root_cluster == old(self).root_cluster,
            r matches Err(e) ==> e == FsError::OutOfMemory || e == FsError::IoError,
            r matches Ok((c, i)) ==> final(self).dir_entry_written(c, i as int, attr, first_cluster, file_size),
    {
        if needs_lfn(name) {
            let short_name = match self.generate_short_alias(dir_cluster, name) {
                Some(a) => a,
                None => return Err(FsError::OutOfMemory),
            };
            let n_slots = lfn_entry_count(name) + 1;
            let (sc, si) = match self.find_n_free_dir_slots(dir_cluster, n_slots) {
                Some(p) => p,
                None => return Err(FsError::OutOfMemory),
            };
            proof {
                lemma_new_short_entry_cluster(short_name, attr, first_cluster, file_size);
            }
            match self.write_lfn_and_83(sc, si, name, &short_name, attr, first_cluster, file_size) {
                Some(p) => Ok(p),
                None => Err(FsError::IoError),
            }
        } else {
            let (sc, si) = match self.find_free_dir_slot(dir_cluster) {
                Some(p) => p,
                None => return Err(FsError::OutOfMemory),
            };
            match self.write_short_entry(sc, si, name, attr, first_cluster, file_size) {
                Ok(()) => Ok((sc, si)),
                Err(e) => Err(e),
            }
        }
    }

    /// Write the FSInfo sector with the current free cluster count.
    fn write_fsinfo(&mut self) -> (r: Result<(), FsError>)
        requires
            old(self).wf(),
        ensures
            final(self).wf(),
            r matches Err(e) ==> e == FsError::IoError,
    {
        if !self.ready || self.fsinfo_sector == 0 {
            return Ok(());
        }
        let buf = build_fsinfo(self.free_clusters);
        if !self.write_sectors_from(self.fsinfo_sector, 1, buf.as_slice()) {
            return Err(FsError::IoError);
        }
        Ok(())
    }
}

/// The label of a mounted FAT32 volume (11 bytes, space padded), as the
/// FAT32 extended boot record stores it: boot-sector bytes 71 to 81, the
/// field after the volume serial number.  (Bytes 43 to 53 hold the label
/// only in the FAT12/FAT16 layout; on FAT32 they overlap the root cluster
/// at 44 and the FSInfo sector at 48, which mounting reads, so a label
/// there could not be chosen freely.)
pub fn fat32_volume_label<D: BlockDevice>(volume: &Fat32Volume<D>) -> (l: [u8; 11])
    ensures
        l == volume.spec_volume_label(),
{
    volume.volume_label()
}

/// The volume serial number of a mounted FAT32 volume.
pub fn fat32_volume_uuid<D: BlockDevice>(volume: &Fat32Volume<D>) -> (id: u32)
    ensures
        id == volume.spec_volume_id(),
{
    volume.volume_id()
}

/// A FAT32 directory inode.
pub struct Fat32DirInode {
    inode_number: u64,
    dir_cluster: u32,
}

/// A FAT32 regular file inode, with its cached first cluster and size.
pub struct Fat32FileInode {
    inode_number: u64,
    dir_cluster: u32,
    dir_entry_index: u32,
    first_cluster: u32,
    file_size: u32,
}

/// Either kind of FAT32 inode.
pub enum Fat32Inode {
    Dir(Fat32DirInode),
    File(Fat32FileInode),
}

/// The root directory inode of a ready volume (numbered from `counter`).
pub fn fat32_root_inode<D: BlockDevice>(volume: &Fat32Volume<D>, counter: &mut u64) -> (r: Option<Fat32DirInode>)
    ensures
        r is Some <==> volume.is_ready(),
{
    if volume.ready {
        Some(Fat32DirInode::new(volume.root_cluster, counter))
    } else {
        None
    }
}

impl Fat32DirInode {
    /// The inode number.
    pub closed spec fn spec_inode_number(&self) -> u64 {
        self.inode_number
    }

    /// The directory's first cluster.
    pub closed spec fn spec_dir_cluster(&self) -> u32 {
        self.dir_cluster
    }

    /// A directory inode for the chain at `dir_cluster`, numbered from
    /// `counter`.
    pub fn new(dir_cluster: u32, counter: &mut u64) -> (d: Self)
        ensures
            d.spec_inode_number() == *old(counter),
            d.spec_dir_cluster() == dir_cluster,
    {
        Fat32DirInode { inode_number: alloc_inode_number(counter), dir_cluster }
    }

    /// Always `Directory`.
    pub fn inode_type(&self) -> (t: InodeType)
        ensures
            t == InodeType::Directory,
    {
        InodeType::Directory
    }

    /// Directory stat (mode 0o040755).
    pub fn stat(&self) -> (s: InodeStat)
        ensures
            s == (InodeStat { inode_number: self.spec_inode_number(), size: 0, mode: 0o040755, nlinks: 2, uid: 0, gid: 0 }),
    {
        InodeStat::directory(self.inode_number)
    }

    /// Directories cannot be read as files.
    pub fn read_at(&self, _offset: u64, _buf: &mut [u8]) -> (r: Result<usize, FsError>)
        ensures
            r == Err::<usize, FsError>(FsError::NotSupported),
    {
        Err(FsError::NotSupported)
    }

    /// Directories cannot be written as files.
    pub fn write_at(&self, _offset: u64, _buf: &[u8]) -> (r: Result<usize, FsError>)
        ensures
            r == Err::<usize, FsError>(FsError::NotSupported),
    {
        Err(FsError::NotSupported)
    }

    /// Directories cannot be truncated.
    pub fn truncate(&self, _new_size: u64) -> (r: Result<(), FsError>)
        ensures
            r == Err::<(), FsError>(FsError::NotSupported),
    {
        Err(FsError::NotSupported)
    }

    /// The first cluster of the directory.
    pub fn fat32_first_cluster(&self) -> (c: Option<u32>)
        ensures
            c == Some(self.spec_dir_cluster()),
    {
        Some(self.dir_cluster)
    }

    /// Look up `name` in this directory; the child inode gets a number from
    /// `counter`.  `None` when the volume is not ready or the name is not
    /// there.
    pub fn lookup<D: BlockDevice>(&self, vol: &mut Fat32Volume<D>, name: &str, counter: &mut u64) -> (r: Option<Fat32Inode>)
        requires
            old(vol).wf(),
        ensures
            keeps_volume(final(vol), old(vol)),
            !old(vol).is_ready() ==> r is None,
            old(vol).is_ready() ==> exists|cs: Seq<Seq<u8>>, ids: Seq<u32>| {
                let lv = (#[trigger] lookup_clusters(cs, ids, old(vol).spec_slots_per_cluster(), name.spec_bytes())).0;
                &&& cs.len() == ids.len()
                &&& (ids.len() > 0 ==> ids[0] == self.spec_dir_cluster())
                &&& old(vol).chain_read(self.spec_dir_cluster(), cs, ids)
                &&& (r is Some <==> lv is Found)
                &&& r matches Some(inode) ==> ids.len() > 0 && (lv matches LookupView::Found { index, scan } && {
                    let raw = slot_bytes(cs.last(), index);
                    let first = ((le16(raw, 20) as u32) << 16u32) | (le16(raw, 26) as u32);
                    match inode {
                        Fat32Inode::Dir(d) => raw[11] & ATTR_DIRECTORY != 0 && d.spec_dir_cluster() == first
                            && d.spec_inode_number() == *old(counter),
                        Fat32Inode::File(f) => raw[11] & ATTR_DIRECTORY == 0 && f.spec_first_cluster() == first
                            && f.spec_size() == le32(raw, 28) && f.spec_dir_cluster() == self.spec_dir_cluster()
                            && f.spec_dir_entry_index() == index && f.spec_inode_number() == *old(counter),
                    }
                })
            },
    {
        if !vol.ready {
            return None;
        }
        let found = match vol.lookup_in_dir(self.dir_cluster, name) {
            Some(f) => f,
            None => return None,
        };
        if found.entry.attr & ATTR_DIRECTORY != 0 {
            Some(Fat32Inode::Dir(Fat32DirInode::new(entry_cluster(&found.entry), counter)))
        } else {
            Some(Fat32Inode::File(Fat32FileInode::new(entry_cluster(&found.entry), found.entry.file_size,
                self.dir_cluster, found.entry_index, counter)))
        }
    }

    /// The `index`-th listed entry of this directory; its inode number comes
    /// from `counter`.
    pub fn readdir<D: BlockDevice>(&self, vol: &mut Fat32Volume<D>, index: usize, counter: &mut u64) -> (r: Option<DirEntry>)
        requires
            old(vol).wf(),
        ensures
            keeps_volume(final(vol), old(vol)),
            !old(vol).is_ready() ==> r is None,
            old(vol).is_ready() ==> exists|cs: Seq<Seq<u8>>, ids: Seq<u32>| {
                let l = (#[trigger] list_clusters(cs, ids, old(vol).spec_slots_per_cluster(), scan_reset())).0;
                &&& cs.len() == ids.len()
                &&& (ids.len() > 0 ==> ids[0] == self.spec_dir_cluster())
                &&& old(vol).chain_read(self.spec_dir_cluster(), cs, ids)
                &&& (r is Some <==> index < l.len())
                &&& r matches Some(e) ==> codes(e.name@) == l[index as int].0
                    && e.inode_type == (if l[index as int].1 { InodeType::Directory } else { InodeType::RegularFile })
                    && e.inode_number == *old(counter)
            },
    {
        if !vol.ready {
            return None;
        }
        let mut entries = vol.list_dir(self.dir_cluster);
        let ghost listed = entries@;
        assert(listed_views(listed).len() == listed.len());
        if index >= entries.len() {
            return None;
        }
        let (name, is_dir, _size, _cluster) = entries.remove(index);
        assert(listed_views(listed)[index as int] == listed_view(listed[index as int]));
        Some(DirEntry {
            name,
            inode_type: if is_dir { InodeType::Directory } else { InodeType::RegularFile },
            inode_number: alloc_inode_number(counter),
        })
    }

    /// Create a regular file called `name`, empty and with no cluster yet.
    /// `AlreadyExists` when the name is taken (a lookup finds it).
    pub fn create<D: BlockDevice>(&self, vol: &mut Fat32Volume<D>, name: &str, counter: &mut u64) -> (r: Result<Fat32FileInode, FsError>)
        requires
            old(vol).wf(),
            name.spec_bytes().len() + 13 <= usize::MAX,
        ensures
            keeps_volume(final(vol), old(vol)),
            !old(vol).is_ready() ==> r == Err::<Fat32FileInode, FsError>(FsError::IoError),
            old(vol).is_ready() ==> exists|cs: Seq<Seq<u8>>, ids: Seq<u32>| {
                let lv = (#[trigger] lookup_clusters(cs, ids, old(vol).spec_slots_per_cluster(), name.spec_bytes())).0;
                &&& cs.len() == ids.len()
                &&& (ids.len() > 0 ==> ids[0] == self.spec_dir_cluster())
                &&& old(vol).chain_read(self.spec_dir_cluster(), cs, ids)
                &&& (r == Err::<Fat32FileInode, FsError>(FsError::AlreadyExists) <==> lv is Found)
            },
            r matches Err(e) ==> e == FsError::IoError || e == FsError::AlreadyExists || e == FsError::OutOfMemory,
            r matches Ok(f) ==> f.spec_first_cluster() == 0 && f.spec_size() == 0 && f.spec_inode_number() == *old(counter),
            r matches Ok(f) ==> final(vol).dir_entry_written(f.spec_dir_cluster(), f.spec_dir_entry_index() as int, 0x20, 0, 0),
    {
        if !vol.ready {
            return Err(FsError::IoError);
        }
        if vol.lookup_in_dir(self.dir_cluster, name).is_some() {
            return Err(FsError::AlreadyExists);
        }
        let (sc, si) = match vol.add_dir_entry(self.dir_cluster, name, 0x20, 0, 0) {
            Ok(p) => p,
            Err(e) => return Err(e),
        };
        Ok(Fat32FileInode::new(0, 0, sc, si, counter))
    }

    /// Create a directory called `name`: a zeroed cluster holding "." and
    /// "..", and an entry in this directory.  `AlreadyExists` when the name
    /// is taken.
    pub fn mkdir<D: BlockDevice>(&self, vol: &mut Fat32Volume<D>, name: &str, counter: &mut u64) -> (r: Result<Fat32DirInode, FsError>)
        requires
            old(vol).wf(),
            name.spec_bytes().len() + 13 <= usize::MAX,
        ensures
            keeps_volume(final(vol), old(vol)),
            !old(vol).is_ready() ==> r == Err::<Fat32DirInode, FsError>(FsError::IoError),
            old(vol).is_ready() ==> exists|cs: Seq<Seq<u8>>, ids: Seq<u32>| {
                let lv = (#[trigger] lookup_clusters(cs, ids, old(vol).spec_slots_per_cluster(), name.spec_bytes())).0;
                &&& cs.len() == ids.len()
                &&& (ids.len() > 0 ==> ids[0] == self.spec_dir_cluster())
                &&& old(vol).chain_read(self.spec_dir_cluster(), cs, ids)
                &&& (r == Err::<Fat32DirInode, FsError>(FsError::AlreadyExists) <==> lv is Found)
            },
            r matches Err(e) ==> e == FsError::IoError || e == FsError::AlreadyExists || e == FsError::OutOfMemory,
            r matches Ok(d) ==> d.spec_dir_cluster() >= 2 && d.spec_inode_number() == *old(counter),
            r matches Ok(d) ==> final(vol).holds_dir_entry(ATTR_DIRECTORY, d.spec_dir_cluster(), 0),
    {
        if !vol.ready {
            return Err(FsError::IoError);
        }
        if vol.lookup_in_dir(self.dir_cluster, name).is_some() {
            return Err(FsError::AlreadyExists);
        }
        let (new_cluster, _) = match vol.alloc_cluster(0) {
            Some(p) => p,
            None => return Err(FsError::OutOfMemory),
        };
        if !vol.prepare_new_dir_cluster(new_cluster, self.dir_cluster) {
            return Err(FsError::IoError);
        }
        if !vol.write_cluster(new_cluster) {
            return Err(FsError::IoError);
        }
        let (c, i) = match vol.add_dir_entry(self.dir_cluster, name, ATTR_DIRECTORY, new_cluster, 0) {
            Ok(p) => p,
            Err(e) => return Err(e),
        };
        let d = Fat32DirInode::new(new_cluster, counter);
        assert(vol.dir_entry_written(c, i as int, ATTR_DIRECTORY, d.spec_dir_cluster(), 0));
        assert(vol.holds_dir_entry(ATTR_DIRECTORY, d.spec_dir_cluster(), 0));
        Ok(d)
    }

    /// Remove the entry called `name`: free its cluster chain, delete its
    /// long-name entries and mark its 8.3 entry deleted.  `NotFound` when it
    /// is not there; `DirectoryNotEmpty` for a directory that still lists
    /// entries other than "." and "..".
    pub fn unlink<D: BlockDevice>(&self, vol: &mut Fat32Volume<D>, name: &str) -> (r: Result<(), FsError>)
        requires
            old(vol).wf(),
        ensures
            keeps_volume(final(vol), old(vol)),
            !old(vol).is_ready() ==> r == Err::<(), FsError>(FsError::IoError),
            old(vol).is_ready() ==> exists|cs: Seq<Seq<u8>>, ids: Seq<u32>| {
                let lv = (#[trigger] lookup_clusters(cs, ids, old(vol).spec_slots_per_cluster(), name.spec_bytes())).0;
                &&& cs.len() == ids.len()
                &&& (ids.len() > 0 ==> ids[0] == self.spec_dir_cluster())
                &&& old(vol).chain_read(self.spec_dir_cluster(), cs, ids)
                &&& (r == Err::<(), FsError>(FsError::NotFound) <==> !(lv is Found))
                &&& (r == Err::<(), FsError>(FsError::DirectoryNotEmpty) ==> ids.len() > 0
                    && (lv matches LookupView::Found { index, scan } && slot_bytes(cs.last(), index)[11] & ATTR_DIRECTORY != 0))
                &&& (r is Ok ==> ids.len() > 0
                    && (lv matches LookupView::Found { index, scan } && final(vol).slot_deleted_on_disk(ids.last(), index)))
            },
            r matches Err(e) ==> e == FsError::IoError || e == FsError::NotFound || e == FsError::DirectoryNotEmpty,
    {
        if !vol.ready {
            return Err(FsError::IoError);
        }
        let found = match vol.lookup_in_dir(self.dir_cluster, name) {
            Some(f) => f,
            None => return Err(FsError::NotFound),
        };
        let first_cluster = entry_cluster(&found.entry);
        if found.entry.attr & ATTR_DIRECTORY != 0 && first_cluster >= 2 {
            let children = vol.list_dir(first_cluster);
            if children.len() > 0 {
                return Err(FsError::DirectoryNotEmpty);
            }
        }
        if first_cluster >= 2 {
            vol.free_chain(first_cluster);
        }
        if found.lfn_count > 0 {
            vol.mark_entries_deleted(found.lfn_start_cluster, found.lfn_start_index, found.lfn_count);
        }
        if !vol.read_cluster(found.cluster) {
            return Err(FsError::IoError);
        }
        let offset = found.entry_index as u64 * 32;
        if offset < vol.cluster_buf.len() as u64 {
            vol.cluster_buf.set(offset as usize, DIR_ENTRY_DELETED);
        }
        let ghost marked = vol.cluster_buf@;
        if !vol.write_cluster(found.cluster) {
            return Err(FsError::IoError);
        }
        proof {
            let i = found.entry_index as int;
            if 32 * i + 32 <= vol.sectors_per_cluster * 512 {
                assert(marked[32 * i] == DIR_ENTRY_DELETED);
                assert(vol.cluster_buf@.subrange(0, vol.sectors_per_cluster * 512)[32 * i] == vol.cluster_buf@[32 * i]);
            }
            assert(vol.slot_deleted_on_disk(found.cluster, i));
        }
        Ok(())
    }

    /// Write the FSInfo sector back with the current free cluster count.
    pub fn fsync<D: BlockDevice>(&self, vol: &mut Fat32Volume<D>) -> (r: Result<(), FsError>)
        requires
            old(vol).wf(),
        ensures
            final(vol).wf(),
            r matches Err(e) ==> e == FsError::IoError,
    {
        vol.write_fsinfo()
    }

    /// Add an entry called `name` for an existing FAT32 object (first
    /// cluster, size and kind as given).  `NotSupported` for an object that
    /// is not on FAT32 (no first cluster), `AlreadyExists` when the name is
    /// taken.
    pub fn link_child<D: BlockDevice>(
        &self,
        vol: &mut Fat32Volume<D>,
        name: &str,
        child_first_cluster: Option<u32>,
        child_size: u64,
        child_is_dir: bool,
    ) -> (r: Result<(), FsError>)
        requires
            old(vol).wf(),
            name.spec_bytes().len() + 13 <= usize::MAX,
        ensures
            keeps_volume(final(vol), old(vol)),
            child_first_cluster is None ==> r == Err::<(), FsError>(FsError::NotSupported),
    {
        let first_cluster = match child_first_cluster {
            Some(c) => c,
            None => return Err(FsError::NotSupported),
        };
        let attr: u8 = if child_is_dir { ATTR_DIRECTORY } else { 0x20 };
        if !vol.ready {
            return Err(FsError::IoError);
        }
        if vol.lookup_in_dir(self.dir_cluster, name).is_some() {
            return Err(FsError::AlreadyExists);
        }
        match vol.add_dir_entry(self.dir_cluster, name, attr, first_cluster, child_size as u32) {
            Ok(_) => Ok(()),
            Err(e) => Err(e),
        }
    }

    /// Total and free 512-byte blocks of the volume, counting free clusters
    /// from the bitmap (from FSInfo when the bitmap is empty).
    pub fn fs_stats<D: BlockDevice>(&self, vol: &Fat32Volume<D>) -> (r: Option<(u64, u64)>)
        requires
            vol.wf(),
        ensures
            r is None <==> !vol.is_ready(),
    {
        if !vol.ready {
            return None;
        }
        let sectors_per_cluster = (vol.bytes_per_cluster / 512) as u64;
        let total_clusters = vol.total_clusters as u64;
        proof {
            vstd::arithmetic::mul::lemma_mul_upper_bound(total_clusters as int, 0xFFFF_FFFF, sectors_per_cluster as int, 0x80_0000);
        }
        let total_blocks = total_clusters * sectors_per_cluster;
        if vol.fat_bitmap.len() == 0 {
            let free = if vol.free_clusters < vol.total_clusters { vol.free_clusters } else { vol.total_clusters };
            proof {
                vstd::arithmetic::mul::lemma_mul_upper_bound(free as int, 0xFFFF_FFFF, sectors_per_cluster as int, 0x80_0000);
            }
            return Some((total_blocks, free as u64 * sectors_per_cluster));
        }
        let n = vol.fat_bitmap.len();
        let mut used: u64 = 0;
        let mut i: usize = 0;
        while i < n
            invariant
                n == vol.fat_bitmap@.len(),
                n <= 0x2000_0000,
                i <= n,
                used <= 8 * i,
            decreases n - i,
        {
            let c = count_ones(vol.fat_bitmap[i]);
            used = used + c;
            i = i + 1;
        }
        let free_clusters = total_clusters.saturating_sub(used);
        proof {
            vstd::arithmetic::mul::lemma_mul_upper_bound(free_clusters as int, 0xFFFF_FFFF, sectors_per_cluster as int, 0x80_0000);
        }
        Some((total_blocks, free_clusters * sectors_per_cluster))
    }
}

impl Fat32FileInode {
    /// A file inode numbered from `counter`.
    pub fn new(first_cluster: u32, file_size: u32, dir_cluster: u32, dir_entry_index: u32, counter: &mut u64) -> (f: Self)
        ensures
            f.spec_inode_number() == *old(counter),
            f.spec_first_cluster() == first_cluster && f.spec_size() == file_size,
            f.spec_dir_cluster() == dir_cluster && f.spec_dir_entry_index() == dir_entry_index,
    {
        Fat32FileInode { inode_number: alloc_inode_number(counter), dir_cluster, dir_entry_index, first_cluster, file_size }
    }

    /// The cached file size.
    pub closed spec fn spec_size(&self) -> u32 {
        self.file_size
    }

    /// The inode number.
    pub closed spec fn spec_inode_number(&self) -> u64 {
        self.inode_number
    }

    /// The cached first cluster.
    pub closed spec fn spec_first_cluster(&self) -> u32 {
        self.first_cluster
    }

    /// The directory cluster holding the file's entry.
    pub closed spec fn spec_dir_cluster(&self) -> u32 {
        self.dir_cluster
    }

    /// The slot of the file's entry in that cluster.
    pub closed spec fn spec_dir_entry_index(&self) -> u32 {
        self.dir_entry_index
    }

    /// Always `RegularFile`.
    pub fn inode_type(&self) -> (t: InodeType)
        ensures
            t == InodeType::RegularFile,
    {
        InodeType::RegularFile
    }

    /// Regular file stat with the cached size.
    pub fn stat(&self) -> (s: InodeStat)
        ensures
            s == (InodeStat { inode_number: self.spec_inode_number(), size: self.spec_size() as u64, mode: 0o644, nlinks: 1, uid: 0, gid: 0 }),
    {
        InodeStat::regular(self.inode_number, self.file_size as u64)
    }

    /// The first cluster of the file's data.
    pub fn fat32_first_cluster(&self) -> (c: Option<u32>)
        ensures
            c == Some(self.spec_first_cluster()),
    {
        Some(self.first_cluster)
    }

    /// Files have no children.
    pub fn lookup(&self, _name: &str) -> (r: Option<Fat32Inode>)
        ensures
            r is None,
    {
        None
    }

    /// Files have no entries.
    pub fn readdir(&self, _index: usize) -> (r: Option<DirEntry>)
        ensures
            r is None,
    {
        None
    }

    /// Files have no children.
    pub fn create(&self, _name: &str) -> (r: Result<Fat32FileInode, FsError>)
        ensures
            r matches Err(e) && e == FsError::NotDirectory,
    {
        Err(FsError::NotDirectory)
    }

    /// Files have no children.
    pub fn mkdir(&self, _name: &str) -> (r: Result<Fat32DirInode, FsError>)
        ensures
            r matches Err(e) && e == FsError::NotDirectory,
    {
        Err(FsError::NotDirectory)
    }

    /// Files have no children.
    pub fn unlink(&self, _name: &str) -> (r: Result<(), FsError>)
        ensures
            r == Err::<(), FsError>(FsError::NotDirectory),
    {
        Err(FsError::NotDirectory)
    }

    /// Write the FSInfo sector back with the current free cluster count.
    pub fn fsync<D: BlockDevice>(&self, vol: &mut Fat32Volume<D>) -> (r: Result<(), FsError>)
        requires
            old(vol).wf(),
        ensures
            final(vol).wf(),
            r matches Err(e) ==> e == FsError::IoError,
    {
        vol.write_fsinfo()
    }

    /// Read up to `buf.len()` bytes at `offset`, never past the file size,
    /// cluster by cluster along the chain; stops early at the end of the
    /// chain or a failed read.
    pub fn read_at<D: BlockDevice>(&self, vol: &mut Fat32Volume<D>, offset: u64, buf: &mut [u8]) -> (r: Result<usize, FsError>)
        requires
            old(vol).wf(),
        ensures
            keeps_volume(final(vol), old(vol)),
            final(buf)@.len() == old(buf)@.len(),
            !old(vol).is_ready() ==> r == Err::<usize, FsError>(FsError::IoError),
            old(vol).is_ready() && offset >= self.spec_size() ==> r == Ok::<usize, FsError>(0),
            old(vol).is_ready() ==> r is Ok,
            r matches Ok(n) ==> n <= old(buf)@.len() && (n > 0 ==> n <= self.spec_size() - offset),
            r matches Ok(n) ==> forall|k: int| n <= k < old(buf)@.len() ==> #[trigger] final(buf)@[k] == old(buf)@[k],
            r matches Ok(n) ==> forall|j: int| 0 <= j < n ==> old(vol).file_byte(self.spec_first_cluster(), offset + j, #[trigger] final(buf)@[j]),
            r is Err ==> final(buf)@ == old(buf)@,
            final(vol).spec_disk_contents() == old(vol).spec_disk_contents(),
    {
        if !vol.ready {
            return Err(FsError::IoError);
        }
        let file_size = self.file_size as u64;
        if offset >= file_size {
            return Ok(0);
        }
        let available = file_size - offset;
        let to_read: usize = if (buf.len() as u64) < available { buf.len() } else { available as usize };
        let bpc = vol.bytes_per_cluster as u64;
        if bpc == 0 {
            return Ok(0);
        }
        let mut total: usize = 0;
        let mut pos = offset;
        while total < to_read
            invariant
                keeps_volume(vol, old(vol)),
                vol.bytes_per_cluster == old(vol).bytes_per_cluster,
                bpc == vol.bytes_per_cluster,
                bpc > 0,
                to_read <= buf@.len(),
                to_read <= available,
                buf@.len() == old(buf)@.len(),
                total <= to_read,
                pos == offset + total,
                offset + available <= u64::MAX,
                forall|k: int| total <= k < buf@.len() ==> #[trigger] buf@[k] == old(buf)@[k],
                forall|j: int| 0 <= j < total ==> old(vol).file_byte(self.first_cluster, offset + j, #[trigger] buf@[j]),
                vol.disk == old(vol).disk,
                vol.unchanged_except_buffers(old(vol)),
                vol.wf(),
                offset + available == file_size,
                file_size <= u32::MAX,
                total < to_read ==> pos < file_size,
            decreases to_read - total,
        {
            let cluster_index = (pos / bpc) as u32;
            assert(pos / bpc <= u32::MAX) by (nonlinear_arith) requires bpc > 0, pos <= u32::MAX;
            let ghost v_idx = *vol;
            let cluster = match vol.cluster_at_index(self.first_cluster, cluster_index) {
                Some(c) => {
                    if c < 2 {
                        break;
                    }
                    c
                },
                None => break,
            };
            let ghost v_read = *vol;
            if !vol.read_cluster(cluster) {
                break;
            }
            proof {
                Fat32Volume::<D>::lemma_chain_nth_same(&v_idx, &*old(vol), self.first_cluster, cluster_index as nat);
            }
            let offset_in_cluster = (pos % bpc) as usize;
            let available_in_chunk = vol.bytes_per_cluster as usize - offset_in_cluster;
            let want = to_read - total;
            let chunk = if want < available_in_chunk { want } else { available_in_chunk };
            let ghost prev = buf@;
            let piece = slice_subrange(vol.cluster_buf.as_slice(), offset_in_cluster, offset_in_cluster + chunk);
            write_bytes_at(buf, total, piece);
            proof {
                assert forall|j: int| 0 <= j < total + chunk implies old(vol).file_byte(self.first_cluster, offset + j, #[trigger] buf@[j]) by {
                    if j < total {
                        assert(buf@[j] == prev[j]);
                    } else {
                        let d = j - total;
                        let p = offset + j;
                        assert(p == (pos / bpc) * bpc + (pos % bpc + d)) by (nonlinear_arith)
                            requires p == pos + d, bpc > 0;
                        vstd::arithmetic::div_mod::lemma_fundamental_div_mod_converse_div(p, bpc as int, (pos / bpc) as int, (pos % bpc + d) as int);
                        vstd::arithmetic::div_mod::lemma_fundamental_div_mod_converse_mod(p, bpc as int, (pos / bpc) as int, (pos % bpc + d) as int);
                        assert(buf@[j] == piece@[d]);
                        assert(piece@[d] == vol.cluster_buf@[offset_in_cluster + d]);
                        Fat32Volume::<D>::lemma_cluster_byte(&*old(vol), &v_read, cluster, vol.cluster_buf@, offset_in_cluster + d);
                        assert(old(vol).chain_nth(self.first_cluster, (p / (bpc as int)) as nat) == Some(cluster));
                    }
                }
            }
            total = total + chunk;
            pos = pos + chunk as u64;
        }
        Ok(total)
    }

    /// Write `buf` at `offset`, cluster by cluster, allocating clusters as
    /// the chain runs out; stops early when allocation or a write fails.
    /// The size grows to the end of what was written, and the directory
    /// entry records the new first cluster and size.
    pub fn write_at<D: BlockDevice>(&mut self, vol: &mut Fat32Volume<D>, offset: u64, buf: &[u8]) -> (r: Result<usize, FsError>)
        requires
            old(vol).wf(),
            offset + buf@.len() <= u64::MAX,
        ensures
            keeps_volume(final(vol), old(vol)),
            buf@.len() == 0 ==> r == Ok::<usize, FsError>(0),
            buf@.len() > 0 && !old(vol).is_ready() ==> r == Err::<usize, FsError>(FsError::IoError),
            r matches Ok(n) ==> n <= buf@.len(),
            r matches Err(e) ==> e == FsError::IoError,
            r matches Ok(n) ==> n > 0 && offset + n <= u32::MAX ==> final(self).spec_size() == (if offset + n > old(self).spec_size() {
                (offset + n) as u32
            } else {
                old(self).spec_size()
            }),
            r is Err ==> *final(self) == *old(self),
            final(self).spec_inode_number() == old(self).spec_inode_number(),
            final(self).spec_dir_cluster() == old(self).spec_dir_cluster(),
            final(self).spec_dir_entry_index() == old(self).spec_dir_entry_index(),
    {
        if buf.len() == 0 {
            return Ok(0);
        }
        if !vol.ready {
            return Err(FsError::IoError);
        }
        let mut first_cluster = self.first_cluster;
        let mut file_size = self.file_size;
        let bpc = vol.bytes_per_cluster as u64;
        if bpc == 0 {
            return Ok(0);
        }
        let to_write = buf.len();
        let mut total: usize = 0;
        let mut pos = offset;
        while total < to_write
            invariant
                keeps_volume(vol, old(vol)),
                vol.bytes_per_cluster == old(vol).bytes_per_cluster,
                vol.root_cluster == old(vol).root_cluster,
                bpc == vol.bytes_per_cluster,
                bpc > 0,
                to_write == buf@.len(),
                total <= to_write,
                pos == offset + total,
                offset + buf@.len() <= u64::MAX,
            decreases to_write - total,
        {
            let cluster_index = (pos / bpc) as u32;
            let cluster = if first_cluster < 2 {
                match vol.alloc_cluster(0) {
                    Some((new_cluster, new_first)) => {
                        first_cluster = new_first;
                        new_cluster
                    },
                    None => break,
                }
            } else {
                let existing = match vol.cluster_at_index(first_cluster, cluster_index) {
                    Some(c) => if c >= 2 && !is_eof(c) && !is_bad(c) { Some(c) } else { None },
                    None => None,
                };
                match existing {
                    Some(c) => c,
                    None => match vol.alloc_cluster(first_cluster) {
                        Some((new_cluster, new_first)) => {
                            first_cluster = new_first;
                            new_cluster
                        },
                        None => break,
                    },
                }
            };
            let offset_in_cluster = (pos % bpc) as usize;
            let _ok = vol.read_cluster(cluster);
            let available_in_chunk = vol.bytes_per_cluster as usize - offset_in_cluster;
            let want = to_write - total;
            let chunk = if want < available_in_chunk { want } else { available_in_chunk };
            write_bytes_at(vol.cluster_buf.as_mut_slice(), offset_in_cluster, slice_subrange(buf, total, total + chunk));
            if !vol.write_cluster(cluster) {
                break;
            }
            total = total + chunk;
            pos = pos + chunk as u64;
        }
        if pos > file_size as u64 {
            file_size = pos as u32;
        }
        let dir_file = Fat32File {
            dir_cluster: self.dir_cluster,
            dir_entry_index: self.dir_entry_index,
            first_cluster,
            file_size,
            position: pos,
        };
        vol.update_dir_entry_size(&dir_file);
        self.first_cluster = first_cluster;
        self.file_size = file_size;
        Ok(total)
    }

    /// Extend the file to `new_size` by writing zero bytes from its end, a
    /// cluster's worth at a time.
    fn extend_with_zeros<D: BlockDevice>(&mut self, vol: &mut Fat32Volume<D>, new_size: u64) -> (r: Result<(), FsError>)
        requires
            old(vol).wf(),
            new_size > old(self).spec_size(),
        ensures
            keeps_volume(final(vol), old(vol)),
            new_size > u32::MAX ==> r == Err::<(), FsError>(FsError::InvalidArgument),
            new_size <= u32::MAX && !old(vol).is_ready() ==> r == Err::<(), FsError>(FsError::IoError),
            r is Ok ==> final(self).spec_size() == new_size,
            r matches Err(e) ==> e == FsError::InvalidArgument || e == FsError::IoError || e == FsError::OutOfMemory,
    {
        if new_size > 0xFFFF_FFFFu64 {
            return Err(FsError::InvalidArgument);
        }
        if !vol.ready {
            return Err(FsError::IoError);
        }
        let chunk_len: usize = if vol.bytes_per_cluster == 0 { 512 } else { vol.bytes_per_cluster as usize };
        let zeros = vec_of_zeros(chunk_len);
        let mut size: u64 = self.file_size as u64;
        while size < new_size
            invariant
                keeps_volume(vol, old(vol)),
                vol.is_ready(),
                size == self.spec_size(),
                size <= new_size,
                new_size <= u32::MAX,
                zeros@.len() == chunk_len,
                chunk_len > 0,
            decreases new_size - size,
        {
            let remaining = new_size - size;
            let want: usize = if remaining < chunk_len as u64 { remaining as usize } else { chunk_len };
            let n = match self.write_at(vol, size, slice_subrange(zeros.as_slice(), 0, want)) {
                Ok(n) => n,
                Err(e) => return Err(e),
            };
            if n < want || n == 0 {
                return Err(FsError::OutOfMemory);
            }
            size = size + n as u64;
        }
        Ok(())
    }

    /// Truncate or extend the file to `new_size`.  Shrinking frees the
    /// clusters past the new end and ends the chain there (all of them for
    /// size 0); extending writes zero bytes from the old end to the new one
    /// (`InvalidArgument` past the largest FAT32 file size, `OutOfMemory`
    /// when the zeros could not all be written).  The size is recorded in
    /// the directory entry; the same size changes nothing.
    pub fn truncate<D: BlockDevice>(&mut self, vol: &mut Fat32Volume<D>, new_size: u64) -> (r: Result<(), FsError>)
        requires
            old(vol).wf(),
        ensures
            keeps_volume(final(vol), old(vol)),
            new_size == old(self).spec_size() ==> r is Ok,
            new_size > u32::MAX ==> r == Err::<(), FsError>(FsError::InvalidArgument),
            old(self).spec_size() < new_size <= u32::MAX && !old(vol).is_ready() ==> r == Err::<(), FsError>(FsError::IoError),
            r is Ok ==> final(self).spec_size() == new_size,
            r matches Err(e) ==> e == FsError::InvalidArgument || e == FsError::IoError || e == FsError::OutOfMemory,
    {
        let first_cluster = self.first_cluster;
        let current_size = self.file_size;
        if new_size > current_size as u64 {
            return self.extend_with_zeros(vol, new_size);
        }
        if new_size == current_size as u64 {
            return Ok(());
        }
        if !vol.ready {
            return Err(FsError::IoError);
        }
        if new_size == 0 {
            if first_cluster >= 2 {
                vol.free_chain(first_cluster);
            }
        } else {
            let bpc = vol.bytes_per_cluster as u64;
            if bpc == 0 {
                return Err(FsError::IoError);
            }
            let last_kept_cluster_index = ((new_size - 1) / bpc) as u32;
            match vol.cluster_at_index(first_cluster, last_kept_cluster_index) {
                Some(last_cluster) => {
                    match vol.read_fat_entry(last_cluster) {
                        Some(next) => {
                            if next >= 2 && !is_eof(next) {
                                vol.free_chain(next);
                            }
                            let _ok = vol.write_fat_entry(last_cluster, 0x0FFF_FFFF);
                        },
                        None => {},
                    }
                },
                None => {},
            }
        }
        let new_first = if new_size == 0 { 0 } else { first_cluster };
        let dir_file = Fat32File {
            dir_cluster: self.dir_cluster,
            dir_entry_index: self.dir_entry_index,
            first_cluster: new_first,
            file_size: new_size as u32,
            position: new_size,
        };
        vol.update_dir_entry_size(&dir_file);
        self.file_size = new_size as u32;
        self.first_cluster = new_first;
        Ok(())
    }
}

/// `//disk:`.
pub open spec fn disk_prefix() -> Seq<char> {
    seq!['/', '/', 'd', 'i', 's', 'k', ':']
}

/// `/mnt`.
pub open spec fn mnt_prefix() -> Seq<char> {
    seq!['/', 'm', 'n', 't']
}

/// `c` starts with the characters `p`.
pub open spec fn starts_with_chars(c: Seq<char>, p: Seq<char>) -> bool {
    p.len() <= c.len() && c.subrange(0, p.len() as int) == p
}

/// A path without its `//disk:` prefix, then without a leading `/mnt`
/// component (`/mnt` alone becomes `/`).
pub open spec fn stripped_disk_path(c: Seq<char>) -> Seq<char> {
    let p = if starts_with_chars(c, disk_prefix()) { c.subrange(7, c.len() as int) } else { c };
    if starts_with_chars(p, mnt_prefix()) {
        let rest = p.subrange(4, p.len() as int);
        if rest.len() == 0 {
            seq!['/']
        } else if rest[0] == '/' {
            rest
        } else {
            p
        }
    } else {
        p
    }
}

/// Whether `s` (of `n` characters) starts with `prefix`.
fn starts_with_str_chars(s: &str, n: usize, prefix: &[char]) -> (b: bool)
    requires
        n == s@.len(),
    ensures
        b == starts_with_chars(s@, prefix@),
{
    let m = prefix.len();
    if m > n {
        return false;
    }
    let mut i: usize = 0;
    while i < m
        invariant
            m == prefix@.len(),
            m <= n,
            n == s@.len(),
            i <= m,
            forall|k: int| 0 <= k < i ==> s@[k] == prefix@[k],
        decreases m - i,
    {
        if s.get_char(i) != prefix[i] {
            assert(s@.subrange(0, m as int)[i as int] != prefix@[i as int]);
            return false;
        }
        i = i + 1;
    }
    assert(s@.subrange(0, m as int) =~= prefix@);
    true
}

/// Strip a `//disk:` prefix, then a leading `/mnt` component (see
/// `stripped_disk_path`).
pub fn strip_disk_prefix(path: &str) -> (r: &str)
    ensures
        r@ == stripped_disk_path(path@),
{
    let disk: [char; 7] = ['/', '/', 'd', 'i', 's', 'k', ':'];
    let mnt: [char; 4] = ['/', 'm', 'n', 't'];
    assert(disk@ =~= disk_prefix());
    assert(mnt@ =~= mnt_prefix());
    let n = path.unicode_len();
    let p = if starts_with_str_chars(path, n, disk.as_slice()) { path.substring_char(7, n) } else { path };
    let pn = p.unicode_len();
    if starts_with_str_chars(p, pn, mnt.as_slice()) {
        let rest = p.substring_char(4, pn);
        if pn == 4 {
            let root = "/";
            proof { reveal_strlit("/"); }
            assert(root@ =~= seq!['/']);
            return root;
        }
        if rest.get_char(0) == '/' {
            return rest;
        }
    }
    p
}

} // verus!
