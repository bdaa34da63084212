//! The /proc filesystem: path parsing, the text of its files, and read
//! snapshots.
//!
//! The numbers shown (memory, ticks, processes) come from the rest of the
//! kernel; the functions here turn them into the files' text.

use vstd::prelude::*;
use vstd::string::StringSliceAdditionalSpecFns;
use crate::bytes::{dec_digits, push_dec, push_slice, write_bytes_at};
use crate::exceptions::{hex_digits, hex_field, push_hex_digits, push_hex_field};
use crate::inode::{alloc_inode_number, copied_front, read_count, read_from_bytes, DirEntry, FsError, InodeStat, InodeType};

verus! {

/// A file's contents captured at open time, and the read position.
pub struct ProcSnapshot {
    pub data: Vec<u8>,
    pub position: usize,
}

impl ProcSnapshot {
    /// Read from the current position into `buf`, as much as fits, and
    /// advance.
    pub fn read(&mut self, buf: &mut [u8]) -> (n: usize)
        requires
            old(self).position <= old(self).data@.len(),
        ensures
            n == (if old(buf)@.len() < old(self).data@.len() - old(self).position { old(buf)@.len() as int } else { old(self).data@.len() - old(self).position }),
            final(self).position == old(self).position + n,
            final(self).data@ == old(self).data@,
            copied_front(old(buf)@, final(buf)@, old(self).data@, old(self).position as int, n as int),
    {
        let _len = self.data.len();
        let n = read_from_bytes(self.data.as_slice(), self.position as u64, buf);
        self.position = self.position + n;
        n
    }
}

/// The files of /proc.
#[derive(Clone, Copy, PartialEq, Eq, Structural, Debug)]
pub enum ProcPath {
    Meminfo,
    Cpuinfo,
    Uptime,
    /// `<pid>/status`.
    Status(u16),
    /// `<pid>/maps`.
    Maps(u16),
}

/// Value of a string of decimal digits, if it fits in 16 bits.
pub open spec fn dec_value(s: Seq<u8>) -> int
    decreases s.len(),
{
    if s.len() == 0 { 0 } else { dec_value(s.drop_last()) * 10 + (s.last() - 48) }
}

/// Every byte is an ASCII digit.
pub open spec fn all_digits(s: Seq<u8>) -> bool {
    forall|i: int| 0 <= i < s.len() ==> 48 <= #[trigger] s[i] <= 57
}

/// What `str::parse::<u16>` accepts: an optional '+', then at least one
/// digit and nothing else, with a value below 65536.
pub open spec fn parses_u16(s: Seq<u8>, v: u16) -> bool {
    let digits = if s.len() > 0 && s[0] == 43 { s.subrange(1, s.len() as int) } else { s };
    digits.len() > 0 && all_digits(digits) && dec_value(digits) < 65536 && v == dec_value(digits)
}

/// The value `str::parse::<u16>` gives for `s`, if it accepts it.
pub open spec fn u16_value(s: Seq<u8>) -> Option<u16> {
    let digits = if s.len() > 0 && s[0] == 43 { s.subrange(1, s.len() as int) } else { s };
    if digits.len() > 0 && all_digits(digits) && dec_value(digits) < 65536 {
        Some(dec_value(digits) as u16)
    } else {
        None
    }
}

/// Parse a decimal `u16` the way `str::parse::<u16>` does.
pub fn parse_u16(s: &[u8]) -> (r: Option<u16>)
    ensures
        r == u16_value(s@),
        r matches Some(v) ==> parses_u16(s@, v),
        r is None ==> forall|v: u16| !parses_u16(s@, v),
{
    let n = s.len();
    let start: usize = if n > 0 && s[0] == 43 { 1 } else { 0 };
    let ghost digits = if s@.len() > 0 && s@[0] == 43 { s@.subrange(1, n as int) } else { s@ };
    assert(digits =~= s@.subrange(start as int, n as int));
    if start >= n {
        return None;
    }
    let mut value: u32 = 0;
    let mut i = start;
    while i < n
        invariant
            start <= i <= n,
            n == s@.len(),
            digits == s@.subrange(start as int, n as int),
            digits == (if s@.len() > 0 && s@[0] == 43 { s@.subrange(1, n as int) } else { s@ }),
            all_digits(s@.subrange(start as int, i as int)),
            value == dec_value(s@.subrange(start as int, i as int)),
            value < 65536,
        decreases n - i,
    {
        let c = s[i];
        proof {
            assert(s@.subrange(start as int, i + 1).drop_last() =~= s@.subrange(start as int, i as int));
        }
        if c < 48 || c > 57 {
            proof {
                assert(!all_digits(digits)) by {
                    assert(digits[i - start] == c);
                    assert(!(48 <= digits[i - start] <= 57));
                }
            }
            return None;
        }
        value = value * 10 + (c - 48) as u32;
        if value >= 65536 {
            proof {
                assert(digits.subrange(0, i - start + 1) =~= s@.subrange(start as int, i + 1));
                if all_digits(digits) {
                    lemma_dec_value_prefix(digits, i - start + 1);
                }
            }
            return None;
        }
        i = i + 1;
    }
    assert(s@.subrange(start as int, n as int) =~= digits);
    Some(value as u16)
}

/// A digit string's value is at least that of any of its prefixes.
proof fn lemma_dec_value_prefix(s: Seq<u8>, k: int)
    requires
        0 <= k <= s.len(),
        all_digits(s),
    ensures
        dec_value(s) >= dec_value(s.subrange(0, k)),
        dec_value(s.subrange(0, k)) >= 0,
    decreases s.len(),
{
    if k == s.len() {
        assert(s.subrange(0, k) =~= s);
        lemma_dec_value_nonneg(s);
    } else {
        lemma_dec_value_prefix(s.drop_last(), k);
        assert(s.drop_last().subrange(0, k) =~= s.subrange(0, k));
        lemma_dec_value_nonneg(s.drop_last());
    }
}

proof fn lemma_dec_value_nonneg(s: Seq<u8>)
    requires
        all_digits(s),
    ensures
        dec_value(s) >= 0,
    decreases s.len(),
{
    if s.len() > 0 {
        lemma_dec_value_nonneg(s.drop_last());
    }
}

/// `s` starts with `p`.
pub open spec fn starts_with(s: Seq<u8>, p: Seq<u8>) -> bool {
    p.len() <= s.len() && s.subrange(0, p.len() as int) == p
}

fn has_prefix(s: &[u8], p: &[u8]) -> (b: bool)
    ensures
        b == starts_with(s@, p@),
{
    if p.len() > s.len() {
        return false;
    }
    let r = crate::read::bytes_equal(vstd::slice::slice_subrange(s, 0, p.len()), p);
    r
}

/// `k` is the position of the first '/' of `q`.
pub open spec fn is_first_slash(q: Seq<u8>, k: int) -> bool {
    0 <= k < q.len() && q[k] == 47 && forall|j: int| 0 <= j < k ==> q[j] != 47
}

/// The per-process file named by `q` split at its slash `k`: a non-zero
/// pid, then `status` or `maps`.
pub open spec fn pid_entry_of(q: Seq<u8>, k: int) -> Option<ProcPath> {
    match u16_value(q.subrange(0, k)) {
        Some(pid) => {
            let rest = q.subrange(k + 1, q.len() as int);
            if pid == 0 {
                None
            } else if rest == "status".spec_bytes() {
                Some(ProcPath::Status(pid))
            } else if rest == "maps".spec_bytes() {
                Some(ProcPath::Maps(pid))
            } else {
                None
            }
        },
        None => None,
    }
}

/// `path` without its `//proc:` prefix, if it has one.
pub open spec fn strip_proc_prefix(path: Seq<u8>) -> Seq<u8> {
    if starts_with(path, "//proc:".spec_bytes()) { path.subrange(7, path.len() as int) } else { path }
}

/// The /proc file that `q` (a path without prefix) names.
pub open spec fn proc_entry_of(q: Seq<u8>) -> Option<ProcPath> {
    if q == "meminfo".spec_bytes() {
        Some(ProcPath::Meminfo)
    } else if q == "cpuinfo".spec_bytes() {
        Some(ProcPath::Cpuinfo)
    } else if q == "uptime".spec_bytes() {
        Some(ProcPath::Uptime)
    } else if exists|k: int| is_first_slash(q, k) {
        pid_entry_of(q, choose|k: int| is_first_slash(q, k))
    } else {
        None
    }
}

/// The /proc file that `path` names, after an optional `//proc:` prefix.
pub open spec fn proc_path_of(path: Seq<u8>) -> Option<ProcPath> {
    proc_entry_of(strip_proc_prefix(path))
}

/// The decimal digits of `n` are digits and read back as `n`.
proof fn lemma_dec_digits_value(n: nat)
    ensures
        all_digits(dec_digits(n)),
        dec_value(dec_digits(n)) == n,
        dec_digits(n).len() > 0,
    decreases n,
{
    if n >= 10 {
        lemma_dec_digits_value(n / 10);
        let d = dec_digits(n / 10).push((48 + n % 10) as u8);
        assert(d.drop_last() =~= dec_digits(n / 10));
        assert(d.last() == 48 + n % 10);
        assert((n / 10) * 10 + n % 10 == n) by (nonlinear_arith);
        assert(dec_value(d) == dec_value(dec_digits(n / 10)) * 10 + (d.last() - 48));
        assert forall|i: int| 0 <= i < d.len() implies 48 <= #[trigger] d[i] <= 57 by {
            if i < d.len() - 1 {
                assert(d[i] == dec_digits(n / 10)[i]);
            }
        }
    } else {
        assert(dec_digits(n).drop_last() =~= Seq::<u8>::empty());
        assert(dec_value(dec_digits(n)) == dec_value(Seq::<u8>::empty()) * 10 + (dec_digits(n).last() - 48));
    }
}

/// The per-process files are named by the pid in decimal, a slash and
/// `status` or `maps`, with or without the `//proc:` prefix: for every
/// non-zero pid those names give that pid's file.
pub proof fn lemma_pid_file_names(pid: u16)
    requires
        pid != 0,
    ensures
        proc_path_of(dec_digits(pid as nat) + "/status".spec_bytes()) == Some(ProcPath::Status(pid)),
        proc_path_of(dec_digits(pid as nat) + "/maps".spec_bytes()) == Some(ProcPath::Maps(pid)),
{
    reveal_strlit("/status");
    vstd::string::is_ascii_spec_bytes("/status");
    reveal_strlit("/maps");
    vstd::string::is_ascii_spec_bytes("/maps");
    reveal_strlit("status");
    vstd::string::is_ascii_spec_bytes("status");
    reveal_strlit("maps");
    vstd::string::is_ascii_spec_bytes("maps");
    reveal_strlit("//proc:");
    vstd::string::is_ascii_spec_bytes("//proc:");
    reveal_strlit("meminfo");
    vstd::string::is_ascii_spec_bytes("meminfo");
    reveal_strlit("cpuinfo");
    vstd::string::is_ascii_spec_bytes("cpuinfo");
    reveal_strlit("uptime");
    vstd::string::is_ascii_spec_bytes("uptime");
    assert("//proc:".spec_bytes()[0] == 47);
    assert("meminfo".spec_bytes()[0] == 109 && "cpuinfo".spec_bytes()[0] == 99 && "uptime".spec_bytes()[0] == 117);
    assert("/status".spec_bytes() =~= seq![47u8] + "status".spec_bytes());
    assert("/maps".spec_bytes() =~= seq![47u8] + "maps".spec_bytes());
    let d = dec_digits(pid as nat);
    lemma_dec_digits_value(pid as nat);
    assert(48 <= d[0] <= 57);
    let tails = seq!["/status".spec_bytes(), "/maps".spec_bytes()];
    assert forall|t: int| 0 <= t < 2 implies proc_path_of(#[trigger] (d + tails[t])) == (if t == 0 { Some(ProcPath::Status(pid)) } else { Some(ProcPath::Maps(pid)) }) by {
        let q = d + tails[t];
        let k = d.len() as int;
        assert(q[0] == d[0]);
        assert(!starts_with(q, "//proc:".spec_bytes())) by {
            if starts_with(q, "//proc:".spec_bytes()) {
                assert(q.subrange(0, 7)[0] == q[0]);
                assert(q.subrange(0, 7)[0] == "//proc:".spec_bytes()[0]);
            }
        }
        assert(strip_proc_prefix(q) == q);
        assert(q != "meminfo".spec_bytes() && q != "cpuinfo".spec_bytes() && q != "uptime".spec_bytes()) by {
            assert(q[0] == d[0]);
        }
        assert(q[k] == 47);
        assert forall|j: int| 0 <= j < k implies q[j] != 47 by {
            assert(q[j] == d[j]);
        }
        assert(is_first_slash(q, k));
        let c = choose|k2: int| is_first_slash(q, k2);
        assert(c == k) by {
            if c < k {
                assert(q[c] != 47);
            } else if c > k {
                assert(q[k] != 47);
            }
        }
        assert(q.subrange(0, k) =~= d);
        assert(d[0] != 43);
        assert(u16_value(d) == Some(pid));
        if t == 0 {
            assert(q.subrange(k + 1, q.len() as int) =~= "status".spec_bytes());
        } else {
            assert(q.subrange(k + 1, q.len() as int) =~= "maps".spec_bytes());
        }
    }
    assert(proc_path_of(d + tails[0]) == Some(ProcPath::Status(pid)));
    assert(proc_path_of(d + tails[1]) == Some(ProcPath::Maps(pid)));
}

/// A path names the same /proc file with or without the `//proc:` prefix
/// (for a path that does not itself start with the prefix).
pub proof fn lemma_prefix_optional(q: Seq<u8>)
    requires
        !starts_with(q, "//proc:".spec_bytes()),
    ensures
        proc_path_of("//proc:".spec_bytes() + q) == proc_path_of(q),
{
    reveal_strlit("//proc:");
    vstd::string::is_ascii_spec_bytes("//proc:");
    let p = "//proc:".spec_bytes();
    assert(p.len() == 7);
    assert((p + q).subrange(0, 7) =~= p);
    assert((p + q).subrange(7, (p + q).len() as int) =~= q);
}

/// The /proc file a path names: after an optional `//proc:` prefix,
/// `meminfo`, `cpuinfo`, `uptime`, or `<pid>/status` and `<pid>/maps` for a
/// non-zero pid.
pub fn parse_proc_path(path: &str) -> (r: Option<ProcPath>)
    ensures
        r == proc_path_of(path.spec_bytes()),
{
    proof {
        reveal_strlit("//proc:");
        vstd::string::is_ascii_spec_bytes("//proc:");
        assert("//proc:".spec_bytes().len() == 7);
    }
    let full = path.as_bytes();
    let p = if has_prefix(full, "//proc:".as_bytes()) && full.len() >= 7 {
        vstd::slice::slice_subrange(full, 7, full.len())
    } else {
        full
    };
    let ghost q = p@;
    assert(q == strip_proc_prefix(full@));
    if crate::read::bytes_equal(p, "meminfo".as_bytes()) {
        return Some(ProcPath::Meminfo);
    }
    if crate::read::bytes_equal(p, "cpuinfo".as_bytes()) {
        return Some(ProcPath::Cpuinfo);
    }
    if crate::read::bytes_equal(p, "uptime".as_bytes()) {
        return Some(ProcPath::Uptime);
    }
    let n = p.len();
    let mut slash: usize = 0;
    while slash < n && p[slash] != 47
        invariant
            slash <= n,
            n == p@.len(),
            forall|j: int| 0 <= j < slash ==> p@[j] != 47,
        decreases n - slash,
    {
        slash = slash + 1;
    }
    if slash >= n {
        assert(!exists|k: int| is_first_slash(q, k));
        return None;
    }
    assert(is_first_slash(q, slash as int));
    proof {
        let k = choose|k: int| is_first_slash(q, k);
        if k < slash {
            assert(q[k] != 47);
        } else if k > slash {
            assert(q[slash as int] != 47);
        }
        assert(k == slash);
    }
    assert((choose|k: int| is_first_slash(q, k)) == slash);
    let pid_str = vstd::slice::slice_subrange(p, 0, slash);
    assert(pid_str@ == q.subrange(0, slash as int));
    let pid = match parse_u16(pid_str) {
        Some(v) => v,
        None => return None,
    };
    if pid == 0 {
        return None;
    }
    let rest = vstd::slice::slice_subrange(p, slash + 1, n);
    assert(rest@ == q.subrange(slash + 1, q.len() as int));
    if crate::read::bytes_equal(rest, "status".as_bytes()) {
        Some(ProcPath::Status(pid))
    } else if crate::read::bytes_equal(rest, "maps".as_bytes()) {
        Some(ProcPath::Maps(pid))
    } else {
        None
    }
}

/// The text of /proc/meminfo for the given totals (in bytes).
pub open spec fn meminfo_text(total_bytes: u64, free_bytes: u64) -> Seq<u8> {
    "MemTotal:     ".spec_bytes() + dec_digits((total_bytes / 1024) as nat) + " kB\nMemFree:      ".spec_bytes()
        + dec_digits((free_bytes / 1024) as nat) + " kB\nMemAvailable: ".spec_bytes()
        + dec_digits((free_bytes / 1024) as nat) + " kB\n".spec_bytes()
}

/// /proc/meminfo for the given totals.
pub fn procfs_meminfo(total_bytes: u64, free_bytes: u64) -> (s: ProcSnapshot)
    ensures
        s.data@ == meminfo_text(total_bytes, free_bytes),
        s.position == 0,
{
    let mut v: Vec<u8> = Vec::new();
    push_slice(&mut v, "MemTotal:     ".as_bytes());
    push_dec(&mut v, total_bytes / 1024);
    push_slice(&mut v, " kB\nMemFree:      ".as_bytes());
    push_dec(&mut v, free_bytes / 1024);
    push_slice(&mut v, " kB\nMemAvailable: ".as_bytes());
    push_dec(&mut v, free_bytes / 1024);
    push_slice(&mut v, " kB\n".as_bytes());
    assert(v@ =~= meminfo_text(total_bytes, free_bytes));
    ProcSnapshot { data: v, position: 0 }
}

/// Two decimal digits (zero padded) of a number below 100.
pub open spec fn two_digits(n: nat) -> Seq<u8> {
    seq![(48 + n / 10) as u8, (48 + n % 10) as u8]
}

/// The text of /proc/uptime after `tick` ticks of `interval_ms`
/// milliseconds (the product saturates): seconds and hundredths, twice.
pub open spec fn uptime_text(tick: u64, interval_ms: u64) -> Seq<u8> {
    let total = if tick * interval_ms > u64::MAX { u64::MAX as int } else { tick * interval_ms };
    let secs = dec_digits((total / 1000) as nat);
    let cs = two_digits(((total % 1000) / 10) as nat);
    secs + ".".spec_bytes() + cs + " ".spec_bytes() + secs + ".".spec_bytes() + cs + "\n".spec_bytes()
}

/// /proc/uptime for the tick count and tick length.
pub fn procfs_uptime(tick: u64, interval_ms: u64) -> (s: ProcSnapshot)
    ensures
        s.data@ == uptime_text(tick, interval_ms),
        s.position == 0,
{
    let saturate = interval_ms != 0 && tick > u64::MAX / interval_ms;
    proof {
        if interval_ms != 0 {
            if tick > u64::MAX / interval_ms {
                assert(tick * interval_ms > u64::MAX) by (nonlinear_arith)
                    requires tick > u64::MAX / interval_ms, interval_ms > 0;
            } else {
                assert(tick * interval_ms <= u64::MAX) by (nonlinear_arith)
                    requires tick <= u64::MAX / interval_ms, interval_ms > 0;
            }
        } else {
            assert(tick * interval_ms == 0);
        }
    }
    let total: u64 = if saturate { u64::MAX } else { tick * interval_ms };
    assert(total as int == (if tick * interval_ms > u64::MAX { u64::MAX as int } else { tick * interval_ms }));
    let seconds = total / 1000;
    let centis = (total % 1000) / 10;
    let mut v: Vec<u8> = Vec::new();
    push_dec(&mut v, seconds);
    push_slice(&mut v, ".".as_bytes());
    v.push(48 + (centis / 10) as u8);
    v.push(48 + (centis % 10) as u8);
    push_slice(&mut v, " ".as_bytes());
    push_dec(&mut v, seconds);
    push_slice(&mut v, ".".as_bytes());
    v.push(48 + (centis / 10) as u8);
    v.push(48 + (centis % 10) as u8);
    push_slice(&mut v, "\n".as_bytes());
    assert(v@ =~= uptime_text(tick, interval_ms));
    ProcSnapshot { data: v, position: 0 }
}

/// The text of /proc/<pid>/status.
pub open spec fn status_text(pid: u64, ppid: u64, state_name: Seq<u8>) -> Seq<u8> {
    "pid: ".spec_bytes() + dec_digits(pid as nat) + "\nppid: ".spec_bytes() + dec_digits(ppid as nat)
        + "\nstate: ".spec_bytes() + state_name + "\n".spec_bytes()
}

/// /proc/<pid>/status for a process's pid, parent pid (0 for none) and
/// state name.
pub fn procfs_process_status(pid: u64, ppid: u64, state_name: &str) -> (s: ProcSnapshot)
    ensures
        s.data@ == status_text(pid, ppid, state_name.spec_bytes()),
        s.position == 0,
{
    let mut v: Vec<u8> = Vec::new();
    push_slice(&mut v, "pid: ".as_bytes());
    push_dec(&mut v, pid);
    push_slice(&mut v, "\nppid: ".as_bytes());
    push_dec(&mut v, ppid);
    push_slice(&mut v, "\nstate: ".as_bytes());
    push_slice(&mut v, state_name.as_bytes());
    push_slice(&mut v, "\n".as_bytes());
    assert(v@ =~= status_text(pid, ppid, state_name.spec_bytes()));
    ProcSnapshot { data: v, position: 0 }
}

/// One line of /proc/<pid>/maps for a region `(base, length)`: start and
/// end (the sum saturates) as 16 hex digits, then fixed permission and
/// file columns.
pub open spec fn maps_line(region: (u64, u64)) -> Seq<u8> {
    let end = if region.0 + region.1 > u64::MAX { u64::MAX as int } else { region.0 + region.1 };
    hex_digits(region.0 as nat, 16) + "-".spec_bytes() + hex_digits(end as nat, 16)
        + " rw-p 00000000 00:00 0\n".spec_bytes()
}

/// The text of /proc/<pid>/maps: one line per region, in order.
pub open spec fn maps_text(regions: Seq<(u64, u64)>) -> Seq<u8>
    decreases regions.len(),
{
    if regions.len() == 0 {
        Seq::empty()
    } else {
        maps_text(regions.drop_last()) + maps_line(regions.last())
    }
}

/// /proc/<pid>/maps for a process's mapped regions `(base, length)`.
pub fn procfs_process_maps(regions: &[(u64, u64)]) -> (s: ProcSnapshot)
    ensures
        s.data@ == maps_text(regions@),
        s.position == 0,
{
    let mut v: Vec<u8> = Vec::new();
    let n = regions.len();
    let mut i: usize = 0;
    while i < n
        invariant
            n == regions@.len(),
            i <= n,
            v@ == maps_text(regions@.subrange(0, i as int)),
        decreases n - i,
    {
        let (base, length) = regions[i];
        let end = base.saturating_add(length);
        let ghost before = v@;
        push_hex_digits(&mut v, base, 16);
        push_slice(&mut v, "-".as_bytes());
        push_hex_digits(&mut v, end, 16);
        push_slice(&mut v, " rw-p 00000000 00:00 0\n".as_bytes());
        proof {
            let t = regions@.subrange(0, i + 1);
            assert(t.drop_last() =~= regions@.subrange(0, i as int));
            assert(t.last() == (base, length));
            assert(v@ =~= before + maps_line((base, length)));
        }
        i = i + 1;
    }
    assert(regions@.subrange(0, n as int) =~= regions@);
    ProcSnapshot { data: v, position: 0 }
}

/// The /proc/cpuinfo block of processor `index` for a MIDR_EL1 value.
pub open spec fn cpuinfo_block(index: nat, midr: u64) -> Seq<u8> {
    "processor\t: ".spec_bytes() + dec_digits(index)
        + "\nBogoMIPS\t: 100.00\nFeatures\t: fp asimd evtstrm\nCPU implementer\t: ".spec_bytes()
        + hex_field(((midr >> 24u64) & 0xFFu64) as nat, 4)
        + "\nCPU architecture: ".spec_bytes() + dec_digits(((midr >> 16u64) & 0xFu64) as nat)
        + "\nCPU variant\t: ".spec_bytes() + hex_field(((midr >> 20u64) & 0xFu64) as nat, 3)
        + "\nCPU part\t: ".spec_bytes() + hex_field(((midr >> 4u64) & 0xFFFu64) as nat, 5)
        + "\nCPU revision\t: ".spec_bytes() + dec_digits((midr & 0xFu64) as nat) + "\n\n".spec_bytes()
}

/// The text of /proc/cpuinfo: one block for each of `count` processors.
pub open spec fn cpuinfo_text(midr: u64, count: nat) -> Seq<u8>
    decreases count,
{
    if count == 0 { Seq::empty() } else { cpuinfo_text(midr, (count - 1) as nat) + cpuinfo_block((count - 1) as nat, midr) }
}

/// Append the /proc/cpuinfo block of processor `index`.
#[verifier::rlimit(40)]
fn push_cpuinfo_block(v: &mut Vec<u8>, index: u64, midr: u64)
    ensures
        final(v)@ == old(v)@ + cpuinfo_block(index as nat, midr),
{
    let implementer = (midr >> 24u64) & 0xFFu64;
    let variant = (midr >> 20u64) & 0xFu64;
    let architecture = (midr >> 16u64) & 0xFu64;
    let part = (midr >> 4u64) & 0xFFFu64;
    let revision = midr & 0xFu64;
    push_slice(v, "processor\t: ".as_bytes());
    push_dec(v, index);
    push_slice(v, "\nBogoMIPS\t: 100.00\nFeatures\t: fp asimd evtstrm\nCPU implementer\t: ".as_bytes());
    push_hex_field(v, implementer, 4);
    push_slice(v, "\nCPU architecture: ".as_bytes());
    push_dec(v, architecture);
    push_slice(v, "\nCPU variant\t: ".as_bytes());
    push_hex_field(v, variant, 3);
    push_slice(v, "\nCPU part\t: ".as_bytes());
    push_hex_field(v, part, 5);
    push_slice(v, "\nCPU revision\t: ".as_bytes());
    push_dec(v, revision);
    push_slice(v, "\n\n".as_bytes());
    assert(v@ =~= old(v)@ + cpuinfo_block(index as nat, midr));
}

/// /proc/cpuinfo for `cpu_count` processors whose MIDR_EL1 reads `midr`
/// (implementer, architecture, variant, part and revision fields).
pub fn procfs_cpuinfo(midr: u64, cpu_count: u64) -> (s: ProcSnapshot)
    ensures
        s.data@ == cpuinfo_text(midr, cpu_count as nat),
        s.position == 0,
{
    let mut v: Vec<u8> = Vec::new();
    let mut index: u64 = 0;
    while index < cpu_count
        invariant
            index <= cpu_count,
            v@ == cpuinfo_text(midr, index as nat),
        decreases cpu_count - index,
    {
        push_cpuinfo_block(&mut v, index, midr);
        index = index + 1;
    }
    ProcSnapshot { data: v, position: 0 }
}

/// What /proc shows of a process: its parent's index (0 for none), the
/// name of its state, and its mapped regions `(base, length)`.
pub struct ProcessInfo {
    pub parent_index: u64,
    pub state_name: &'static str,
    pub regions: Vec<(u64, u64)>,
}

/// The figures the system files of /proc show.
#[derive(Clone, Copy, Debug)]
pub struct ProcStats {
    /// Physical memory in bytes: total and free.
    pub total_bytes: u64,
    pub free_bytes: u64,
    /// Timer ticks since boot, and the tick length in milliseconds.
    pub tick: u64,
    pub tick_interval_ms: u64,
    /// MIDR_EL1 and the number of processors online.
    pub midr: u64,
    pub cpu_count: u64,
}

/// The snapshot `procfs_open` gives for a process's file, by what
/// `process` reported of it (`None`: no such process).
pub open spec fn process_file_snapshot(pid: u16, maps: bool, info: Option<ProcessInfo>, r: Option<ProcSnapshot>) -> bool {
    match info {
        None => r is None,
        Some(p) => r matches Some(s) && s.position == 0 && s.data@ == (if maps {
            maps_text(p.regions@)
        } else {
            status_text(pid as u64, p.parent_index, p.state_name.spec_bytes())
        }),
    }
}

/// Open a /proc path (see `parse_proc_path`): the system files from
/// `stats`, a process's files from what `process` reports of the pid.
/// `None` for a path that names nothing, or a process that does not exist.
pub fn procfs_open<F: Fn(u16) -> Option<ProcessInfo>>(path: &str, stats: &ProcStats, process: &F) -> (r: Option<ProcSnapshot>)
    requires
        forall|pid: u16| process.requires((pid,)),
    ensures
        match proc_path_of(path.spec_bytes()) {
            None => r is None,
            Some(ProcPath::Meminfo) => r matches Some(s) && s.position == 0
                && s.data@ == meminfo_text(stats.total_bytes, stats.free_bytes),
            Some(ProcPath::Cpuinfo) => r matches Some(s) && s.position == 0
                && s.data@ == cpuinfo_text(stats.midr, stats.cpu_count as nat),
            Some(ProcPath::Uptime) => r matches Some(s) && s.position == 0
                && s.data@ == uptime_text(stats.tick, stats.tick_interval_ms),
            Some(ProcPath::Status(pid)) => exists|info: Option<ProcessInfo>|
                process.ensures((pid,), info) && #[trigger] process_file_snapshot(pid, false, info, r),
            Some(ProcPath::Maps(pid)) => exists|info: Option<ProcessInfo>|
                process.ensures((pid,), info) && #[trigger] process_file_snapshot(pid, true, info, r),
        },
{
    match parse_proc_path(path) {
        None => None,
        Some(ProcPath::Meminfo) => Some(procfs_meminfo(stats.total_bytes, stats.free_bytes)),
        Some(ProcPath::Cpuinfo) => Some(procfs_cpuinfo(stats.midr, stats.cpu_count)),
        Some(ProcPath::Uptime) => Some(procfs_uptime(stats.tick, stats.tick_interval_ms)),
        Some(ProcPath::Status(pid)) => {
            let info = process(pid);
            let r = match &info {
                None => None,
                Some(p) => Some(procfs_process_status(pid as u64, p.parent_index, p.state_name)),
            };
            assert(process_file_snapshot(pid, false, info, r));
            r
        },
        Some(ProcPath::Maps(pid)) => {
            let info = process(pid);
            let r = match &info {
                None => None,
                Some(p) => Some(procfs_process_maps(p.regions.as_slice())),
            };
            assert(process_file_snapshot(pid, true, info, r));
            r
        },
    }
}

/// What a name looks up in the /proc root.
#[derive(Clone, Copy, PartialEq, Eq, Structural, Debug)]
pub enum ProcRootEntry {
    /// `self`: a symlink to the caller's pid directory.
    SelfLink,
    /// One of the system files.
    File(ProcPath),
    /// A process directory.
    PidDir(u16),
}

/// What `name` names in the /proc root: `self`, a system file, or the
/// directory of a non-zero pid.
pub open spec fn root_entry_of(name: Seq<u8>) -> Option<ProcRootEntry> {
    if name == "self".spec_bytes() {
        Some(ProcRootEntry::SelfLink)
    } else if name == "meminfo".spec_bytes() {
        Some(ProcRootEntry::File(ProcPath::Meminfo))
    } else if name == "cpuinfo".spec_bytes() {
        Some(ProcRootEntry::File(ProcPath::Cpuinfo))
    } else if name == "uptime".spec_bytes() {
        Some(ProcRootEntry::File(ProcPath::Uptime))
    } else {
        match u16_value(name) {
            Some(pid) => if pid > 0 { Some(ProcRootEntry::PidDir(pid)) } else { None },
            None => None,
        }
    }
}

/// The /proc root directory.
pub struct ProcfsRootInode {
    inode_number: u64,
}

impl ProcfsRootInode {
    /// The root, numbered from `counter`.
    pub fn new(counter: &mut u64) -> (r: Self)
        ensures
            r.spec_inode_number() == *old(counter),
    {
        ProcfsRootInode { inode_number: alloc_inode_number(counter) }
    }

    /// The inode number.
    pub closed spec fn spec_inode_number(&self) -> u64 {
        self.inode_number
    }

    /// Always `Directory`.
    pub fn inode_type(&self) -> (t: InodeType)
        ensures
            t == InodeType::Directory,
    {
        InodeType::Directory
    }

    /// Directory stat with mode 0o040555.
    pub fn stat(&self) -> (s: InodeStat)
        ensures
            s == (InodeStat { inode_number: self.spec_inode_number(), size: 0, mode: 0o040555, nlinks: 2, uid: 0, gid: 0 }),
    {
        InodeStat { inode_number: self.inode_number, size: 0, mode: 0o040555, nlinks: 2, uid: 0, gid: 0 }
    }

    /// What `name` names in /proc: `self`, a system file, or a non-zero pid.
    pub fn lookup(&self, name: &str) -> (r: Option<ProcRootEntry>)
        ensures
            r == root_entry_of(name.spec_bytes()),
    {
        let b = name.as_bytes();
        if crate::read::bytes_equal(b, "self".as_bytes()) {
            return Some(ProcRootEntry::SelfLink);
        }
        if crate::read::bytes_equal(b, "meminfo".as_bytes()) {
            return Some(ProcRootEntry::File(ProcPath::Meminfo));
        }
        if crate::read::bytes_equal(b, "cpuinfo".as_bytes()) {
            return Some(ProcRootEntry::File(ProcPath::Cpuinfo));
        }
        if crate::read::bytes_equal(b, "uptime".as_bytes()) {
            return Some(ProcRootEntry::File(ProcPath::Uptime));
        }
        match parse_u16(b) {
            Some(pid) => if pid > 0 { Some(ProcRootEntry::PidDir(pid)) } else { None },
            None => None,
        }
    }

    /// Entry `offset` of /proc: `self` first, then one directory per pid in
    /// `pids` (named by its decimal number).
    pub fn readdir(&self, offset: usize, pids: &[u16]) -> (r: Option<DirEntry>)
        ensures
            offset == 0 ==> (r matches Some(e) && e.inode_type == InodeType::Symlink),
            offset > 0 ==> (r is Some <==> offset - 1 < pids@.len()),
            r matches Some(e) ==> e.inode_number == 0,
    {
        if offset == 0 {
            return Some(DirEntry { name: "self".to_owned(), inode_type: InodeType::Symlink, inode_number: 0 });
        }
        let index = offset - 1;
        if index >= pids.len() {
            return None;
        }
        let mut digits: Vec<u8> = Vec::new();
        push_dec(&mut digits, pids[index] as u64);
        let name = ascii_string(digits.as_slice());
        Some(DirEntry { name, inode_type: InodeType::Directory, inode_number: 0 })
    }
}

/// Code points of a character sequence.
pub open spec fn codes_of(s: Seq<char>) -> Seq<u8> {
    Seq::new(s.len(), |i: int| (s[i] as u32) as u8)
}

/// A string with one character per byte (ASCII text).
pub fn ascii_string(bytes: &[u8]) -> (s: String)
    ensures
        s@.len() == bytes@.len(),
        codes_of(s@) == bytes@,
{
    let mut chars: Vec<char> = Vec::new();
    let n = bytes.len();
    let mut i: usize = 0;
    while i < n
        invariant
            n == bytes@.len(),
            i <= n,
            chars@.len() == i,
            forall|k: int| 0 <= k < i ==> ((#[trigger] chars@[k]) as u32) as u8 == bytes@[k],
        decreases n - i,
    {
        chars.push(bytes[i] as char);
        i = i + 1;
    }
    let s = crate::fat32::string_from_chars(chars.as_slice());
    assert(codes_of(s@) =~= bytes@);
    s
}

/// The files of a /proc/<pid> directory.
#[derive(Clone, Copy, PartialEq, Eq, Structural, Debug)]
pub enum ProcPidFile {
    Comm,
    Status,
    Maps,
}

/// A /proc/<pid> directory.
pub struct ProcPidDirInode {
    inode_number: u64,
    pid_index: u16,
}

impl ProcPidDirInode {
    /// The directory of process `pid_index`, numbered from `counter`.
    pub fn new(pid_index: u16, counter: &mut u64) -> (d: Self)
        ensures
            d.spec_pid() == pid_index,
    {
        ProcPidDirInode { inode_number: alloc_inode_number(counter), pid_index }
    }

    /// The process shown.
    pub closed spec fn spec_pid(&self) -> u16 {
        self.pid_index
    }

    /// The inode number.
    pub closed spec fn spec_inode_number(&self) -> u64 {
        self.inode_number
    }

    /// Directory stat with mode 0o040555.
    pub fn stat(&self) -> (s: InodeStat)
        ensures
            s == (InodeStat { inode_number: self.spec_inode_number(), size: 0, mode: 0o040555, nlinks: 2, uid: 0, gid: 0 }),
    {
        InodeStat { inode_number: self.inode_number, size: 0, mode: 0o040555, nlinks: 2, uid: 0, gid: 0 }
    }

    /// Which file `name` is: `comm`, `status` or `maps`.
    pub fn lookup(&self, name: &str) -> (r: Option<ProcPidFile>)
        ensures
            r == Some(ProcPidFile::Comm) <==> name.spec_bytes() == "comm".spec_bytes(),
            r == Some(ProcPidFile::Status) ==> name.spec_bytes() == "status".spec_bytes(),
            r == Some(ProcPidFile::Maps) ==> name.spec_bytes() == "maps".spec_bytes(),
            r is None ==> name.spec_bytes() != "comm".spec_bytes() && name.spec_bytes() != "status".spec_bytes()
                && name.spec_bytes() != "maps".spec_bytes(),
    {
        let b = name.as_bytes();
        if crate::read::bytes_equal(b, "comm".as_bytes()) {
            Some(ProcPidFile::Comm)
        } else if crate::read::bytes_equal(b, "status".as_bytes()) {
            Some(ProcPidFile::Status)
        } else if crate::read::bytes_equal(b, "maps".as_bytes()) {
            Some(ProcPidFile::Maps)
        } else {
            None
        }
    }

    /// Entry `offset`: comm, status, maps (regular files), then nothing.
    pub fn readdir(&self, offset: usize) -> (r: Option<DirEntry>)
        ensures
            r is Some <==> offset < 3,
            r matches Some(e) ==> e.inode_type == InodeType::RegularFile && e.inode_number == 0,
    {
        let name = if offset == 0 {
            "comm"
        } else if offset == 1 {
            "status"
        } else if offset == 2 {
            "maps"
        } else {
            return None;
        };
        Some(DirEntry { name: name.to_owned(), inode_type: InodeType::RegularFile, inode_number: 0 })
    }
}

/// The contents of /proc/<pid>/comm: the process name up to its first zero
/// byte, and a newline.
pub fn comm_text(name: &[u8]) -> (v: Vec<u8>)
    ensures
        v@ == crate::btrfs::label_prefix(name@).push(10u8),
{
    let n = name.len();
    let mut end: usize = 0;
    while end < n && name[end] != 0
        invariant
            n == name@.len(),
            end <= n,
            crate::btrfs::first_zero(name@, end as int) == crate::btrfs::first_zero(name@, 0),
        decreases n - end,
    {
        end = end + 1;
    }
    let mut v: Vec<u8> = Vec::new();
    push_slice(&mut v, vstd::slice::slice_subrange(name, 0, end));
    v.push(10u8);
    v
}

/// A read-only snapshot file of /proc.
pub struct ProcSnapshotInode {
    inode_number: u64,
    data: Vec<u8>,
}

impl ProcSnapshotInode {
    /// A snapshot file holding `data`, numbered from `counter`.
    pub fn new(data: Vec<u8>, counter: &mut u64) -> (f: Self)
        ensures
            f.spec_data() == data@,
    {
        ProcSnapshotInode { inode_number: alloc_inode_number(counter), data }
    }

    /// The file's bytes.
    pub closed spec fn spec_data(&self) -> Seq<u8> {
        self.data@
    }

    /// Always `RegularFile`.
    pub fn inode_type(&self) -> (t: InodeType)
        ensures
            t == InodeType::RegularFile,
    {
        InodeType::RegularFile
    }

    /// Stat: mode 0o100444, size the snapshot's length.
    pub fn stat(&self) -> (s: InodeStat)
        ensures
            s.size == self.spec_data().len() && s.mode == 0o100444 && s.nlinks == 1,
    {
        InodeStat { inode_number: self.inode_number, size: self.data.len() as u64, mode: 0o100444, nlinks: 1, uid: 0, gid: 0 }
    }

    /// Read from `offset` into `buf`, as much as fits.
    pub fn read_at(&self, offset: u64, buf: &mut [u8]) -> (r: Result<usize, FsError>)
        ensures
            r matches Ok(n) && n == read_count(self.spec_data().len() as int, offset as int, old(buf)@.len() as int),
            copied_front(old(buf)@, final(buf)@, self.spec_data(), offset as int, r->Ok_0 as int),
    {
        Ok(read_from_bytes(self.data.as_slice(), offset, buf))
    }

    /// Snapshot files are read-only.
    pub fn write_at(&self, _offset: u64, _buf: &[u8]) -> (r: Result<usize, FsError>)
        ensures
            r == Err::<usize, FsError>(FsError::NotSupported),
    {
        Err(FsError::NotSupported)
    }
}

} // verus!
