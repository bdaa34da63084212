//! Boot-time decisions: kernel command line values, root volume matching,
//! and filesystem probes.

use vstd::prelude::*;
use vstd::string::StringSliceAdditionalSpecFns;
use crate::bytes::vec_of_zeros;
use crate::disk::BlockDevice;
use crate::fat32::lower;

verus! {

/// `a` and `b` are equal up to ASCII case.
pub open spec fn eq_ascii_ci(a: Seq<u8>, b: Seq<u8>) -> bool {
    a.len() == b.len() && forall|i: int| 0 <= i < a.len() ==> lower(a[i]) == lower(b[i])
}

fn eq_ignore_case(a: &[u8], b: &[u8]) -> (r: bool)
    ensures
        r == eq_ascii_ci(a@, b@),
{
    if a.len() != b.len() {
        return false;
    }
    let n = a.len();
    let mut i: usize = 0;
    while i < n
        invariant
            n == a@.len(),
            n == b@.len(),
            i <= n,
            forall|k: int| 0 <= k < i ==> lower(a@[k]) == lower(b@[k]),
        decreases n - i,
    {
        let x = a[i];
        let y = b[i];
        let x2 = if x >= 65 && x <= 90 { x + 32 } else { x };
        let y2 = if y >= 65 && y <= 90 { y + 32 } else { y };
        if x2 != y2 {
            assert(lower(a@[i as int]) != lower(b@[i as int]));
            return false;
        }
        i = i + 1;
    }
    true
}

/// Index of the first space at or after `i`, or the length.
pub open spec fn token_end(s: Seq<u8>, i: int) -> int
    decreases s.len() - i,
{
    if i >= s.len() { s.len() as int } else if s[i] == 32 { i } else { token_end(s, i + 1) }
}

/// The value of the first space-separated token from `i` on that reads
/// `key=value` (key compared ignoring ASCII case, value not empty).
pub open spec fn cmdline_value_from(s: Seq<u8>, key: Seq<u8>, i: int) -> Option<(int, int)>
    decreases s.len() - i,
{
    if i < 0 || i >= s.len() {
        None
    } else {
        let e = token_end(s, i);
        let token = s.subrange(i, e);
        if token.len() > key.len() + 1 && eq_ascii_ci(token.subrange(0, key.len() as int), key) && token[key.len() as int] == 61 {
            Some((i + key.len() + 1, e))
        } else if i <= e && e < s.len() {
            cmdline_value_from(s, key, e + 1)
        } else {
            None
        }
    }
}

proof fn lemma_token_end(s: Seq<u8>, i: int)
    requires
        0 <= i <= s.len(),
    ensures
        i <= token_end(s, i) <= s.len(),
    decreases s.len() - i,
{
    if i < s.len() && s[i] != 32 {
        lemma_token_end(s, i + 1);
    }
}

/// The token from `i` ends at the first space at or after `i`, or at the
/// end.
proof fn lemma_token_end_space(s: Seq<u8>, i: int)
    requires
        0 <= i <= s.len(),
    ensures
        forall|j: int| i <= j < token_end(s, i) ==> s[j] != 32,
        token_end(s, i) == s.len() || s[token_end(s, i)] == 32,
    decreases s.len() - i,
{
    if i < s.len() && s[i] != 32 {
        lemma_token_end_space(s, i + 1);
    }
}

proof fn lemma_cmdline_value_from_shape(s: Seq<u8>, key: Seq<u8>, i: int)
    requires
        0 <= i,
        i == 0 || (i <= s.len() && s[i - 1] == 32),
    ensures
        cmdline_value_from(s, key, i) matches Some((a, b)) ==> ({
            let t = a - key.len() - 1;
            &&& i <= t && (t == 0 || s[t - 1] == 32)
            &&& eq_ascii_ci(s.subrange(t, t + key.len()), key)
            &&& s[a - 1] == 61
            &&& a < b <= s.len()
            &&& (b == s.len() || s[b] == 32)
            &&& forall|j: int| t <= j < b ==> s[j] != 32
        }),
    decreases s.len() - i,
{
    if 0 <= i < s.len() {
        lemma_token_end(s, i);
        lemma_token_end_space(s, i);
        let e = token_end(s, i);
        let token = s.subrange(i, e);
        if token.len() > key.len() + 1 && eq_ascii_ci(token.subrange(0, key.len() as int), key) && token[key.len() as int] == 61 {
            assert(token.subrange(0, key.len() as int) =~= s.subrange(i, i + key.len()));
        } else if i <= e && e < s.len() {
            lemma_cmdline_value_from_shape(s, key, e + 1);
        }
    }
}

/// What `cmdline_value_from` finds is a `key=value` token: the key (equal
/// ignoring ASCII case) starts the line or follows a space, '=' follows
/// it, and the value is the non-empty run of non-space bytes after the
/// '=', ending at a space or at the end of the line.
pub proof fn lemma_cmdline_value_is_token(s: Seq<u8>, key: Seq<u8>)
    ensures
        cmdline_value_from(s, key, 0) matches Some((a, b)) ==> ({
            let t = a - key.len() - 1;
            &&& 0 <= t && (t == 0 || s[t - 1] == 32)
            &&& eq_ascii_ci(s.subrange(t, t + key.len()), key)
            &&& s[a - 1] == 61
            &&& a < b <= s.len()
            &&& (b == s.len() || s[b] == 32)
            &&& forall|j: int| t <= j < b ==> s[j] != 32
        }),
{
    lemma_cmdline_value_from_shape(s, key, 0);
}

/// The value of `key=value` in a kernel command line (tokens separated by
/// spaces): the bytes after the '=' up to the next space.
pub fn cmdline_get_value<'a>(cmdline: &'a [u8], key: &[u8]) -> (r: Option<&'a [u8]>)
    ensures
        match cmdline_value_from(cmdline@, key@, 0) {
            Some((a, b)) => r matches Some(v) && v@ == cmdline@.subrange(a, b),
            None => r is None,
        },
{
    let n = cmdline.len();
    let mut i: usize = 0;
    while i < n
        invariant
            n == cmdline@.len(),
            i <= n,
            cmdline_value_from(cmdline@, key@, i as int) == cmdline_value_from(cmdline@, key@, 0),
        decreases n - i,
    {
        let mut e = i;
        while e < n && cmdline[e] != 32
            invariant
                n == cmdline@.len(),
                i <= e <= n,
                token_end(cmdline@, e as int) == token_end(cmdline@, i as int),
            decreases n - e,
        {
            e = e + 1;
        }
        proof {
            lemma_token_end(cmdline@, i as int);
        }
        let token = vstd::slice::slice_subrange(cmdline, i, e);
        if token.len() > key.len() && token.len() - key.len() > 1 {
            let head = vstd::slice::slice_subrange(token, 0, key.len());
            if eq_ignore_case(head, key) && token[key.len()] == 61 {
                return Some(vstd::slice::slice_subrange(token, key.len() + 1, token.len()));
            }
        }
        if e >= n {
            proof {
                assert(cmdline_value_from(cmdline@, key@, e + 1) == None::<(int, int)>);
            }
            return None;
        }
        i = e + 1;
    }
    None
}

/// The label without its trailing spaces.
pub open spec fn label_trimmed(label: Seq<u8>) -> Seq<u8>
    decreases label.len(),
{
    if label.len() == 0 || label.last() != 32 { label } else { label_trimmed(label.drop_last()) }
}

/// A FAT volume label (space padded) names `name`, ignoring ASCII case and
/// the padding.
pub fn volume_label_matches(label: &[u8; 11], name: &[u8]) -> (b: bool)
    ensures
        b == eq_ascii_ci(label_trimmed(label@), name@),
{
    let mut end: usize = 11;
    assert(label@.subrange(0, 11) =~= label@);
    while end > 0 && label[end - 1] == 32
        invariant
            end <= 11,
            label_trimmed(label@.subrange(0, end as int)) == label_trimmed(label@),
        decreases end,
    {
        proof {
            assert(label@.subrange(0, end as int).drop_last() =~= label@.subrange(0, end - 1));
        }
        end = end - 1;
    }
    proof {
        assert(label@.subrange(0, 11) =~= label@);
        if end > 0 {
            assert(label@.subrange(0, end as int).last() != 32);
        }
    }
    eq_ignore_case(vstd::slice::slice_subrange(label.as_slice(), 0, end), name)
}

/// Value of a hexadecimal digit.
pub open spec fn hex_val(c: u8) -> int {
    if 48 <= c <= 57 { c - 48 } else if 65 <= c <= 70 { c - 55 } else if 97 <= c <= 102 { c - 87 } else { -1 }
}

/// Value of a string of hexadecimal digits.
pub open spec fn hex_value(s: Seq<u8>) -> int
    decreases s.len(),
{
    if s.len() == 0 { 0 } else { hex_value(s.drop_last()) * 16 + hex_val(s.last()) }
}

/// What `u32::from_str_radix(_, 16)` accepts for an 8-byte string: an
/// optional '+' and then only hex digits, at least one.
pub open spec fn hex_digits_ok(s: Seq<u8>) -> bool {
    let d = hex_body(s);
    d.len() > 0 && forall|i: int| 0 <= i < d.len() ==> hex_val(#[trigger] d[i]) >= 0
}

/// The digits after an optional '+'.
pub open spec fn hex_body(s: Seq<u8>) -> Seq<u8> {
    if s.len() > 0 && s[0] == 43 { s.subrange(1, s.len() as int) } else { s }
}

fn hex_digit_value(c: u8) -> (v: Option<u32>)
    ensures
        hex_val(c) < 0 ==> v is None,
        hex_val(c) >= 0 ==> v == Some(hex_val(c) as u32),
{
    if c >= 48 && c <= 57 {
        Some((c - 48) as u32)
    } else if c >= 65 && c <= 70 {
        Some((c - 55) as u32)
    } else if c >= 97 && c <= 102 {
        Some((c - 87) as u32)
    } else {
        None
    }
}

proof fn lemma_hex_value_bound(s: Seq<u8>)
    requires
        forall|i: int| 0 <= i < s.len() ==> hex_val(#[trigger] s[i]) >= 0,
    ensures
        0 <= hex_value(s) < pow16(s.len()),
    decreases s.len(),
{
    if s.len() > 0 {
        let d = s.drop_last();
        assert forall|i: int| 0 <= i < d.len() implies hex_val(#[trigger] d[i]) >= 0 by {
            assert(d[i] == s[i]);
        }
        lemma_hex_value_bound(d);
        assert(hex_val(s.last()) < 16);
        assert(hex_value(s) < pow16(s.len())) by (nonlinear_arith)
            requires hex_value(s) == hex_value(d) * 16 + hex_val(s.last()), hex_value(d) < pow16(d.len()),
                0 <= hex_val(s.last()) < 16, pow16(s.len()) == pow16(d.len()) * 16, hex_value(d) >= 0;
    }
}

/// 16 to the `n`.
pub open spec fn pow16(n: nat) -> int
    decreases n,
{
    if n == 0 { 1 } else { pow16((n - 1) as nat) * 16 }
}

/// Parse at most eight hex digits (after an optional '+') into a `u32`.
fn parse_hex8(s: &[u8]) -> (r: Option<u32>)
    requires
        s@.len() <= 8,
    ensures
        r is Some <==> hex_digits_ok(s@),
        r matches Some(v) ==> v == hex_value(hex_body(s@)),
{
    let n = s.len();
    let start: usize = if n > 0 && s[0] == 43 { 1 } else { 0 };
    if start >= n {
        return None;
    }
    let ghost body = hex_body(s@);
    assert(body =~= s@.subrange(start as int, n as int));
    let mut value: u32 = 0;
    let mut i = start;
    while i < n
        invariant
            start <= i <= n,
            n == s@.len(),
            n <= 8,
            start <= 1,
            body == s@.subrange(start as int, n as int),
            body == hex_body(s@),
            forall|k: int| start <= k < i ==> hex_val(#[trigger] s@[k]) >= 0,
            value == hex_value(s@.subrange(start as int, i as int)),
        decreases n - i,
    {
        let c = s[i];
        let d = match hex_digit_value(c) {
            Some(d) => d,
            None => {
                proof {
                    assert(body[i - start] == c);
                    assert(hex_val(body[i - start]) < 0);
                }
                return None;
            },
        };
        proof {
            let t = s@.subrange(start as int, i as int);
            assert forall|k: int| 0 <= k < t.len() implies hex_val(#[trigger] t[k]) >= 0 by {
                assert(t[k] == s@[start + k]);
            }
            lemma_hex_value_bound(t);
            assert(pow16(t.len()) <= pow16(7)) by {
                lemma_pow16_mono(t.len(), 7);
            }
            assert(pow16(7) == 0x1000_0000) by { reveal_with_fuel(pow16, 8); }
            assert(s@.subrange(start as int, i + 1).drop_last() =~= t);
        }
        value = value * 16 + d;
        i = i + 1;
    }
    proof {
        assert forall|k: int| 0 <= k < body.len() implies hex_val(#[trigger] body[k]) >= 0 by {
            assert(body[k] == s@[start + k]);
        }
    }
    Some(value)
}

proof fn lemma_pow16_mono(a: nat, b: nat)
    requires
        a <= b,
    ensures
        pow16(a) <= pow16(b),
        pow16(a) >= 1,
    decreases b,
{
    if b > 0 && a < b {
        lemma_pow16_mono(a, (b - 1) as nat);
    } else if a == b && b > 0 {
        lemma_pow16_mono((b - 1) as nat, (b - 1) as nat);
    }
}

/// The hex digits of a `root=UUID=` value: "XXXX-XXXX" without its dash,
/// or "XXXXXXXX" as it is.
pub open spec fn uuid_hex(value: Seq<u8>) -> Option<Seq<u8>> {
    let h = value.subrange(5, value.len() as int);
    if h.len() == 9 && h[4] == 45 {
        Some(h.subrange(0, 4) + h.subrange(5, 9))
    } else if h.len() == 8 {
        Some(h)
    } else {
        None
    }
}

/// The serial number a `root=UUID=` value names: the prefix `UUID=`
/// (compared ignoring ASCII case), then "XXXX-XXXX" or "XXXXXXXX" in hex.
pub open spec fn uuid_root_value(value: Seq<u8>) -> Option<u32> {
    if value.len() < 5 || !eq_ascii_ci(value.subrange(0, 5), "UUID=".spec_bytes()) {
        None
    } else {
        match uuid_hex(value) {
            Some(h) => if hex_digits_ok(h) { Some(hex_value(hex_body(h)) as u32) } else { None },
            None => None,
        }
    }
}

/// Parse a `UUID=XXXX-XXXX` (or `UUID=XXXXXXXX`) value, the prefix
/// compared ignoring ASCII case, into a volume serial number.
pub fn parse_uuid_root(value: &[u8]) -> (r: Option<u32>)
    ensures
        r == uuid_root_value(value@),
{
    let prefix = "UUID=".as_bytes();
    if value.len() < 5 {
        return None;
    }
    if !eq_ignore_case(vstd::slice::slice_subrange(value, 0, 5), prefix) {
        return None;
    }
    let hex_part = vstd::slice::slice_subrange(value, 5, value.len());
    assert(hex_part@ == value@.subrange(5, value@.len() as int));
    if hex_part.len() == 9 && hex_part[4] == 45 {
        let mut buf: Vec<u8> = Vec::new();
        crate::bytes::push_slice(&mut buf, vstd::slice::slice_subrange(hex_part, 0, 4));
        crate::bytes::push_slice(&mut buf, vstd::slice::slice_subrange(hex_part, 5, 9));
        assert(buf@ =~= hex_part@.subrange(0, 4) + hex_part@.subrange(5, 9));
        parse_hex8(buf.as_slice())
    } else if hex_part.len() == 8 {
        parse_hex8(hex_part)
    } else {
        None
    }
}

/// The BAFS magic "BAFS\x1B\0\0\0" opens `sector`.
pub open spec fn has_bafs_magic_spec(sector: Seq<u8>) -> bool {
    sector.len() >= 8 && sector.subrange(0, 8) == seq![66u8, 65u8, 70u8, 83u8, 0x1Bu8, 0u8, 0u8, 0u8]
}

/// Whether `sector` starts with the BAFS magic.
pub fn has_bafs_magic(sector: &[u8]) -> (b: bool)
    ensures
        b == has_bafs_magic_spec(sector@),
{
    if sector.len() < 8 {
        return false;
    }
    let ok = sector[0] == 66 && sector[1] == 65 && sector[2] == 70 && sector[3] == 83
        && sector[4] == 0x1B && sector[5] == 0 && sector[6] == 0 && sector[7] == 0;
    proof {
        if ok {
            assert(sector@.subrange(0, 8) =~= seq![66u8, 65u8, 70u8, 83u8, 0x1Bu8, 0u8, 0u8, 0u8]);
        } else {
            if sector@.subrange(0, 8) == seq![66u8, 65u8, 70u8, 83u8, 0x1Bu8, 0u8, 0u8, 0u8] {
                assert(sector@.subrange(0, 8)[0] == sector@[0]);
                assert(sector@.subrange(0, 8)[1] == sector@[1]);
                assert(sector@.subrange(0, 8)[2] == sector@[2]);
                assert(sector@.subrange(0, 8)[3] == sector@[3]);
                assert(sector@.subrange(0, 8)[4] == sector@[4]);
                assert(sector@.subrange(0, 8)[5] == sector@[5]);
                assert(sector@.subrange(0, 8)[6] == sector@[6]);
                assert(sector@.subrange(0, 8)[7] == sector@[7]);
            }
        }
    }
    ok
}

/// Quick check for a BAFS volume: read the first sector of the partition
/// and test it with `has_bafs_magic`.  A failed read is no BAFS volume.
pub fn bafs_probe<D: BlockDevice>(device: &D, start_lba: u64) -> (b: bool)
    ensures
        b ==> has_bafs_magic_spec(crate::disk::sectors_of(device.spec_contents(), start_lba as int, 1)),
{
    let mut sector_buf = vec_of_zeros(512);
    if !device.read_sectors(start_lba, 1, sector_buf.as_mut_slice()) {
        return false;
    }
    assert(sector_buf@.subrange(0, 512) =~= sector_buf@);
    has_bafs_magic(sector_buf.as_slice())
}

/// The default root volume label.
pub open spec fn default_root_label() -> Seq<u8> {
    seq![66u8, 65u8, 90u8, 90u8, 85u8, 76u8, 84u8, 79u8]
}

/// `root=` names a volume by UUID: longer than "UUID=" and starting with
/// it, ignoring ASCII case.
pub open spec fn is_uuid_root(label: Seq<u8>) -> bool {
    label.len() > 5 && eq_ascii_ci(label.subrange(0, 5), "UUID=".spec_bytes())
}

/// Whether a Btrfs volume labelled `vol_label` becomes the root: only while
/// no root is mounted, and only with a label; with no `root=` or a UUID
/// (which names FAT32 volumes) the label must be "BAZZULTO", else it must
/// equal `root=` ignoring ASCII case.
pub open spec fn btrfs_root_choice(root_label: Option<Seq<u8>>, vol_label: Option<Seq<u8>>, root_mounted: bool) -> bool {
    if root_mounted {
        false
    } else {
        match vol_label {
            None => false,
            Some(v) => match root_label {
                None => v == default_root_label(),
                Some(l) => if is_uuid_root(l) { v == default_root_label() } else { eq_ascii_ci(v, l) },
            },
        }
    }
}

/// Root choice for a Btrfs volume: never once a root is mounted, never
/// for a volume without a label; with no `root=`, or with a `root=UUID=`
/// value (which names FAT32 volumes), exactly the volume labelled
/// "BAZZULTO"; otherwise the volume whose label equals the `root=` value
/// ignoring ASCII case.
pub proof fn lemma_btrfs_root_choice(root_label: Option<Seq<u8>>, vol_label: Option<Seq<u8>>, root_mounted: bool)
    ensures
        root_mounted ==> !btrfs_root_choice(root_label, vol_label, root_mounted),
        vol_label is None ==> !btrfs_root_choice(root_label, vol_label, root_mounted),
        !root_mounted && vol_label is Some && (root_label is None || is_uuid_root(root_label->Some_0))
            ==> (btrfs_root_choice(root_label, vol_label, root_mounted)
                <==> vol_label->Some_0 == seq![0x42u8, 0x41u8, 0x5Au8, 0x5Au8, 0x55u8, 0x4Cu8, 0x54u8, 0x4Fu8]),
        !root_mounted && vol_label is Some && root_label is Some && !is_uuid_root(root_label->Some_0)
            ==> (btrfs_root_choice(root_label, vol_label, root_mounted)
                <==> eq_ascii_ci(vol_label->Some_0, root_label->Some_0)),
{
    assert(default_root_label() =~= seq![0x42u8, 0x41u8, 0x5Au8, 0x5Au8, 0x55u8, 0x4Cu8, 0x54u8, 0x4Fu8]);
}

/// Root choice for a FAT32 volume: with no `root=`, the first one while
/// no root is mounted; with `root=UUID=...` naming a serial number, the
/// volume with that serial number; otherwise the volume whose label, with
/// its padding spaces trimmed, equals the value ignoring ASCII case.
pub proof fn lemma_fat32_root_choice(root_label: Option<Seq<u8>>, vol_uuid: u32, vol_label: Seq<u8>, root_mounted: bool)
    ensures
        root_label is None ==> (fat32_root_choice(root_label, vol_uuid, vol_label, root_mounted) <==> !root_mounted),
        root_label is Some && uuid_root_value(root_label->Some_0) is Some
            ==> (fat32_root_choice(root_label, vol_uuid, vol_label, root_mounted)
                <==> vol_uuid == uuid_root_value(root_label->Some_0)->Some_0),
        root_label is Some && uuid_root_value(root_label->Some_0) is None
            ==> (fat32_root_choice(root_label, vol_uuid, vol_label, root_mounted)
                <==> eq_ascii_ci(label_trimmed(vol_label), root_label->Some_0)),
{
}

/// Decide whether a Btrfs volume becomes the root (see `btrfs_root_choice`).
pub fn btrfs_is_root_candidate(root_label: Option<&[u8]>, vol_label: Option<&[u8]>, root_mounted: bool) -> (b: bool)
    ensures
        b == btrfs_root_choice(
            match root_label { Some(l) => Some(l@), None => None },
            match vol_label { Some(v) => Some(v@), None => None },
            root_mounted),
{
    proof {
        reveal_strlit("UUID=");
        vstd::string::is_ascii_spec_bytes("UUID=");
    }
    if root_mounted {
        return false;
    }
    let v = match vol_label {
        Some(v) => v,
        None => return false,
    };
    let default: [u8; 8] = [66, 65, 90, 90, 85, 76, 84, 79];
    assert(default@ =~= default_root_label());
    match root_label {
        None => crate::read::bytes_equal(v, default.as_slice()),
        Some(l) => {
            let uuid = l.len() > 5 && eq_ignore_case(vstd::slice::slice_subrange(l, 0, 5), "UUID=".as_bytes());
            if uuid {
                crate::read::bytes_equal(v, default.as_slice())
            } else {
                eq_ignore_case(v, l)
            }
        },
    }
}

/// Whether a FAT32 volume is the root `root=` names: by serial number for
/// a `UUID=` value, else by label; with no `root=`, while no root is
/// mounted yet.
pub open spec fn fat32_root_choice(root_label: Option<Seq<u8>>, vol_uuid: u32, vol_label: Seq<u8>, root_mounted: bool) -> bool {
    match root_label {
        Some(l) => match uuid_root_value(l) {
            Some(target) => vol_uuid == target,
            None => eq_ascii_ci(label_trimmed(vol_label), l),
        },
        None => !root_mounted,
    }
}

/// Decide whether a FAT32 volume is the root candidate (see
/// `fat32_root_choice`).
pub fn fat32_is_root_candidate(root_label: Option<&[u8]>, vol_uuid: u32, vol_label: &[u8; 11], root_mounted: bool) -> (b: bool)
    ensures
        b == fat32_root_choice(match root_label { Some(l) => Some(l@), None => None }, vol_uuid, vol_label@, root_mounted),
{
    match root_label {
        Some(label) => match parse_uuid_root(label) {
            Some(target) => vol_uuid == target,
            None => volume_label_matches(vol_label, label),
        },
        None => !root_mounted,
    }
}

/// A Btrfs volume goes to /home/user unless it is the root volume
/// ("BAZZULTO").
pub fn is_home_candidate(vol_label: Option<&[u8]>) -> (b: bool)
    ensures
        b == !(vol_label matches Some(v) && v@ == default_root_label()),
{
    let default: [u8; 8] = [66, 65, 90, 90, 85, 76, 84, 79];
    assert(default@ =~= default_root_label());
    match vol_label {
        Some(v) => !crate::read::bytes_equal(v, default.as_slice()),
        None => true,
    }
}

} // verus!
