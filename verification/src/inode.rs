//! Inode metadata, permission checks and errors shared by the filesystems.

use vstd::prelude::*;
use vstd::slice::slice_subrange;
use vstd::string::StringSliceAdditionalSpecFns;
use crate::bytes::write_bytes_at;

verus! {

/// The value an inode-number counter starts from: numbers start at 1.
pub const FIRST_INODE_NUMBER: u64 = 1;

/// A fresh inode-number counter.
pub fn new_inode_counter() -> (c: u64)
    ensures
        c == FIRST_INODE_NUMBER,
{
    FIRST_INODE_NUMBER
}

/// Hand out the next inode number from `counter` (which then moves on by
/// one, wrapping at 2^64).  From a counter made by `new_inode_counter`,
/// the numbers are at least 1 and each is above all given out before it,
/// until the counter would wrap.
pub fn alloc_inode_number(counter: &mut u64) -> (n: u64)
    ensures
        n == *old(counter),
        *final(counter) == (*old(counter) + 1) % 0x1_0000_0000_0000_0000,
        FIRST_INODE_NUMBER <= *old(counter) < u64::MAX ==> FIRST_INODE_NUMBER <= n < *final(counter),
{
    let n = *counter;
    *counter = n.wrapping_add(1);
    n
}



/// The kind of filesystem object an inode represents.
#[derive(Clone, Copy, PartialEq, Eq, Structural, Debug)]
pub enum InodeType {
    /// Regular file.
    RegularFile,
    /// Directory.
    Directory,
    /// Character device.
    CharDevice,
    /// Named pipe / FIFO.
    Fifo,
    /// Symbolic link; reading it gives the target path bytes.
    Symlink,
}

/// Per-inode metadata, a subset of POSIX `struct stat`.
#[derive(Clone, Copy, Debug, PartialEq, Eq, Structural)]
pub struct InodeStat {
    pub inode_number: u64,
    pub size: u64,
    /// File type and permission bits (`st_mode`).
    pub mode: u64,
    pub nlinks: u64,
    /// Owner user ID.
    pub uid: u32,
    /// Owner group ID.
    pub gid: u32,
}

impl InodeStat {
    /// Stat of a regular file owned by root (mode 0o644: type bits [15:12] are 0 for a regular file; one link).
    pub fn regular(inode_number: u64, size: u64) -> (s: Self)
        ensures
            s == (InodeStat { inode_number, size, mode: 0o644, nlinks: 1, uid: 0, gid: 0 }),
    {
        InodeStat { inode_number, size, mode: 0o644, nlinks: 1, uid: 0, gid: 0 }
    }

    /// Stat of a directory owned by root (mode 0o040755, two links).
    pub fn directory(inode_number: u64) -> (s: Self)
        ensures
            s == (InodeStat { inode_number, size: 0, mode: 0o040755, nlinks: 2, uid: 0, gid: 0 }),
    {
        InodeStat { inode_number, size: 0, mode: 0o040755, nlinks: 2, uid: 0, gid: 0 }
    }

    /// Stat of a character device owned by root (mode 0o020666, one link).
    pub fn char_device(inode_number: u64) -> (s: Self)
        ensures
            s == (InodeStat { inode_number, size: 0, mode: 0o020666, nlinks: 1, uid: 0, gid: 0 }),
    {
        InodeStat { inode_number, size: 0, mode: 0o020666, nlinks: 1, uid: 0, gid: 0 }
    }
}

/// Read permission (R_OK).
pub const ACCESS_READ: u32 = 4;
/// Write permission (W_OK).
pub const ACCESS_WRITE: u32 = 2;
/// Execute permission (X_OK).
pub const ACCESS_EXECUTE: u32 = 1;

/// Error type for inode operations.
#[derive(Clone, Copy, PartialEq, Eq, Structural, Debug)]
pub enum FsError {
    /// Operation not valid for this inode type.
    NotSupported,
    /// Name not found in directory.
    NotFound,
    /// A component of the path is not a directory.
    NotDirectory,
    /// A file or directory with that name already exists.
    AlreadyExists,
    /// Directory is not empty.
    DirectoryNotEmpty,
    /// Out of memory.
    OutOfMemory,
    /// I/O error.
    IoError,
    /// Permission denied.
    PermissionDenied,
    /// Write to a pipe/FIFO with no readers (EPIPE).
    BrokenPipe,
    /// Temporarily unavailable; retry (EAGAIN).
    WouldBlock,
    /// Too many levels of symbolic links (ELOOP).
    TooManyLinks,
    /// Invalid argument (EINVAL).
    InvalidArgument,
}

/// The negative errno of each error.
pub open spec fn errno_of(e: FsError) -> int {
    match e {
        FsError::NotSupported => -38,
        FsError::NotFound => -2,
        FsError::NotDirectory => -20,
        FsError::AlreadyExists => -17,
        FsError::DirectoryNotEmpty => -39,
        FsError::OutOfMemory => -12,
        FsError::IoError => -5,
        FsError::PermissionDenied => -1,
        FsError::BrokenPipe => -32,
        FsError::WouldBlock => -11,
        FsError::TooManyLinks => -40,
        FsError::InvalidArgument => -22,
    }
}

/// Each error has its own POSIX errno, negated: ENOSYS (38), ENOENT (2),
/// ENOTDIR (20), EEXIST (17), ENOTEMPTY (39), ENOMEM (12), EIO (5), EPERM
/// (1), EPIPE (32), EAGAIN (11), ELOOP (40) and EINVAL (22); no two errors
/// share one, and every one is below zero.
pub proof fn lemma_errno_values(a: FsError, b: FsError)
    ensures
        errno_of(a) < 0,
        errno_of(a) == errno_of(b) ==> a == b,
        errno_of(FsError::NotSupported) == -38 && errno_of(FsError::NotFound) == -2
            && errno_of(FsError::NotDirectory) == -20 && errno_of(FsError::AlreadyExists) == -17
            && errno_of(FsError::DirectoryNotEmpty) == -39 && errno_of(FsError::OutOfMemory) == -12
            && errno_of(FsError::IoError) == -5 && errno_of(FsError::PermissionDenied) == -1
            && errno_of(FsError::BrokenPipe) == -32 && errno_of(FsError::WouldBlock) == -11
            && errno_of(FsError::TooManyLinks) == -40 && errno_of(FsError::InvalidArgument) == -22,
{
}

impl FsError {
    /// The POSIX negative errno value of this error.
    pub fn to_errno(self) -> (n: i64)
        ensures
            n == errno_of(self),
    {
        match self {
            FsError::NotSupported => -38,
            FsError::NotFound => -2,
            FsError::NotDirectory => -20,
            FsError::AlreadyExists => -17,
            FsError::DirectoryNotEmpty => -39,
            FsError::OutOfMemory => -12,
            FsError::IoError => -5,
            FsError::PermissionDenied => -1,
            FsError::BrokenPipe => -32,
            FsError::WouldBlock => -11,
            FsError::TooManyLinks => -40,
            FsError::InvalidArgument => -22,
        }
    }
}

/// `gid` occurs among the first `ngroups` supplementary groups.
pub open spec fn in_groups(gid: u32, groups: Seq<u32>, ngroups: int) -> bool {
    exists|i: int| 0 <= i < ngroups && i < groups.len() && groups[i] == gid
}

/// The three permission bits that apply to the caller: owner bits for the
/// owner, group bits for a member of the file's group, other bits otherwise.
pub open spec fn applicable_bits(stat: InodeStat, euid: u32, egid: u32, groups: Seq<u32>, ngroups: int) -> u32 {
    if euid == stat.uid {
        ((stat.mode >> 6u64) & 7) as u32
    } else if egid == stat.gid || in_groups(stat.gid, groups, ngroups) {
        ((stat.mode >> 3u64) & 7) as u32
    } else {
        (stat.mode & 7) as u32
    }
}

/// POSIX discretionary access: the superuser may read and write anything and
/// execute anything with an execute bit; others need every requested bit
/// among the applicable ones.
pub open spec fn dac_allows(stat: InodeStat, euid: u32, egid: u32, groups: Seq<u32>, ngroups: int, access: u32) -> bool {
    if euid == 0 {
        access & ACCESS_EXECUTE == 0 || stat.mode & 0o111 != 0
    } else {
        access & applicable_bits(stat, euid, egid, groups, ngroups) == access
    }
}

/// Discretionary access, one permission at a time (read 4, write 2,
/// execute 1): the superuser may always read and write, and execute
/// exactly when some execute bit (0o111) is set; the owner is judged by
/// the owner bits (0o400, 0o200, 0o100); anyone else in the file's group
/// (effective or supplementary) by the group bits (0o040, 0o020, 0o010);
/// everyone else by the other bits (0o004, 0o002, 0o001).
pub proof fn lemma_dac_single_permission(stat: InodeStat, euid: u32, egid: u32, groups: Seq<u32>, ngroups: int)
    ensures
        euid == 0 ==> dac_allows(stat, euid, egid, groups, ngroups, 4) && dac_allows(stat, euid, egid, groups, ngroups, 2)
            && (dac_allows(stat, euid, egid, groups, ngroups, 1) <==> stat.mode & 0o111 != 0),
        euid != 0 && euid == stat.uid ==> (dac_allows(stat, euid, egid, groups, ngroups, 4) <==> stat.mode & 0o400 != 0)
            && (dac_allows(stat, euid, egid, groups, ngroups, 2) <==> stat.mode & 0o200 != 0)
            && (dac_allows(stat, euid, egid, groups, ngroups, 1) <==> stat.mode & 0o100 != 0),
        euid != 0 && euid != stat.uid && (egid == stat.gid || in_groups(stat.gid, groups, ngroups))
            ==> (dac_allows(stat, euid, egid, groups, ngroups, 4) <==> stat.mode & 0o040 != 0)
            && (dac_allows(stat, euid, egid, groups, ngroups, 2) <==> stat.mode & 0o020 != 0)
            && (dac_allows(stat, euid, egid, groups, ngroups, 1) <==> stat.mode & 0o010 != 0),
        euid != 0 && euid != stat.uid && !(egid == stat.gid || in_groups(stat.gid, groups, ngroups))
            ==> (dac_allows(stat, euid, egid, groups, ngroups, 4) <==> stat.mode & 0o004 != 0)
            && (dac_allows(stat, euid, egid, groups, ngroups, 2) <==> stat.mode & 0o002 != 0)
            && (dac_allows(stat, euid, egid, groups, ngroups, 1) <==> stat.mode & 0o001 != 0),
{
    let m = stat.mode;
    assert((4u32 & (((m >> 6u64) & 7) as u32) == 4u32 <==> m & 0o400 != 0)
        && (2u32 & (((m >> 6u64) & 7) as u32) == 2u32 <==> m & 0o200 != 0)
        && (1u32 & (((m >> 6u64) & 7) as u32) == 1u32 <==> m & 0o100 != 0)
        && (4u32 & (((m >> 3u64) & 7) as u32) == 4u32 <==> m & 0o040 != 0)
        && (2u32 & (((m >> 3u64) & 7) as u32) == 2u32 <==> m & 0o020 != 0)
        && (1u32 & (((m >> 3u64) & 7) as u32) == 1u32 <==> m & 0o010 != 0)
        && (4u32 & ((m & 7) as u32) == 4u32 <==> m & 0o004 != 0)
        && (2u32 & ((m & 7) as u32) == 2u32 <==> m & 0o002 != 0)
        && (1u32 & ((m & 7) as u32) == 1u32 <==> m & 0o001 != 0)) by (bit_vector);
    assert(4u32 & 1u32 == 0u32 && 2u32 & 1u32 == 0u32 && 1u32 & 1u32 != 0u32) by (bit_vector);
}

/// Is `gid` among the first `ngroups` supplementary groups?
fn group_match(gid: u32, groups: &[u32; 16], ngroups: usize) -> (b: bool)
    requires
        ngroups <= 16 || in_groups(gid, groups@, 16),
    ensures
        b == in_groups(gid, groups@, ngroups as int),
{
    let mut i: usize = 0;
    while i < ngroups
        invariant
            i <= ngroups,
            ngroups <= 16 || in_groups(gid, groups@, 16),
            forall|k: int| 0 <= k < i ==> k < 16 && groups@[k] != gid,
        decreases ngroups - i,
    {
        if groups[i] == gid {
            return true;
        }
        i = i + 1;
    }
    false
}

/// Check POSIX DAC permissions of a caller (`euid`, `egid`, supplementary
/// groups) for `access` (a mask of `ACCESS_*`) on an inode.
pub fn vfs_check_access(
    stat: &InodeStat,
    euid: u32,
    egid: u32,
    supplemental_groups: &[u32; 16],
    ngroups: usize,
    access: u32,
) -> (r: Result<(), FsError>)
    requires
        euid == 0 || euid == stat.uid || egid == stat.gid || ngroups <= 16
            || in_groups(stat.gid, supplemental_groups@, 16),
    ensures
        r is Ok <==> dac_allows(*stat, euid, egid, supplemental_groups@, ngroups as int, access),
        r matches Err(e) ==> e == FsError::PermissionDenied,
{
    if euid == 0 {
        if access & ACCESS_EXECUTE != 0 {
            let any_x = stat.mode & 0o111;
            if any_x == 0 {
                return Err(FsError::PermissionDenied);
            }
        }
        return Ok(());
    }
    let mode_bits: u32 = if euid == stat.uid {
        ((stat.mode >> 6u64) & 7) as u32
    } else if egid == stat.gid || group_match(stat.gid, supplemental_groups, ngroups) {
        ((stat.mode >> 3u64) & 7) as u32
    } else {
        (stat.mode & 7) as u32
    };
    if access & mode_bits == access {
        Ok(())
    } else {
        Err(FsError::PermissionDenied)
    }
}

/// A single directory entry (file name and type).
#[derive(Clone, Debug)]
pub struct DirEntry {
    /// File name (no path prefix).
    pub name: String,
    /// Type of this entry.
    pub inode_type: InodeType,
    /// Inode number of this entry.
    pub inode_number: u64,
}

/// The bytes of `src` from `offset` that fit in a buffer of `buf_len`
/// bytes: how many are copied by a read at `offset`.
pub open spec fn read_count(src_len: int, offset: int, buf_len: int) -> int {
    if offset >= src_len {
        0
    } else if src_len - offset < buf_len {
        src_len - offset
    } else {
        buf_len
    }
}

/// `after` is `before` with its first `n` bytes replaced by the bytes of
/// `src` from `offset`.
pub open spec fn copied_front(before: Seq<u8>, after: Seq<u8>, src: Seq<u8>, offset: int, n: int) -> bool {
    &&& after.len() == before.len()
    &&& 0 <= n <= before.len()
    &&& n > 0 ==> after.subrange(0, n) == src.subrange(offset, offset + n)
    &&& after.subrange(n, after.len() as int) == before.subrange(n, before.len() as int)
}

/// Copy the bytes of `src` from `offset` into the front of `buf`, as many
/// as fit; returns how many were copied.
pub fn read_from_bytes(src: &[u8], offset: u64, buf: &mut [u8]) -> (n: usize)
    ensures
        n == read_count(src@.len() as int, offset as int, old(buf)@.len() as int),
        copied_front(old(buf)@, final(buf)@, src@, offset as int, n as int),
{
    let len = src.len();
    if offset >= len as u64 {
        assert(final(buf)@.subrange(0, 0) =~= Seq::<u8>::empty());
        return 0;
    }
    let start = offset as usize;
    let avail = len - start;
    let count = if avail < buf.len() { avail } else { buf.len() };
    write_bytes_at(buf, 0, slice_subrange(src, start, start + count));
    assert(final(buf)@.subrange(0, count as int) =~= src@.subrange(offset as int, offset + count));
    assert(final(buf)@.subrange(count as int, final(buf)@.len() as int)
        =~= old(buf)@.subrange(count as int, old(buf)@.len() as int));
    count
}

/// A symbolic link whose target is a fixed UTF-8 path.
pub struct SymlinkInode {
    inode_number: u64,
    target: String,
}

impl SymlinkInode {
    /// The link's inode number.
    pub closed spec fn spec_inode_number(&self) -> u64 {
        self.inode_number
    }

    /// The link's target.
    pub closed spec fn spec_target(&self) -> Seq<char> {
        self.target@
    }

    /// A symbolic link to `target`, numbered from `counter`.
    pub fn new(target: String, counter: &mut u64) -> (s: Self)
        ensures
            s.spec_inode_number() == *old(counter),
            s.spec_target() == target@,
            *final(counter) == (*old(counter) + 1) % 0x1_0000_0000_0000_0000,
    {
        let inode_number = alloc_inode_number(counter);
        SymlinkInode { inode_number, target }
    }

    /// The symlink target.
    pub fn target(&self) -> (t: &str)
        ensures
            t@ == self.spec_target(),
    {
        self.target.as_str()
    }

    /// Always `Symlink`.
    pub fn inode_type(&self) -> (t: InodeType)
        ensures
            t == InodeType::Symlink,
    {
        InodeType::Symlink
    }

    /// Stat: mode 0o120777, size the target's byte length.
    pub fn stat(&self) -> (s: InodeStat)
        ensures
            s == (InodeStat {
                inode_number: self.spec_inode_number(),
                size: vstd::utf8::encode_utf8(self.spec_target()).len() as u64,
                mode: 0o120777,
                nlinks: 1,
                uid: 0,
                gid: 0,
            }),
    {
        let bytes = self.target.as_str().as_bytes();
        InodeStat { inode_number: self.inode_number, size: bytes.len() as u64, mode: 0o120777, nlinks: 1, uid: 0, gid: 0 }
    }

    /// Read the target path bytes from `offset`.
    pub fn read_at(&self, offset: u64, buf: &mut [u8]) -> (r: Result<usize, FsError>)
        ensures
            r matches Ok(n) && n == read_count(vstd::utf8::encode_utf8(self.spec_target()).len() as int,
                offset as int, old(buf)@.len() as int),
            copied_front(old(buf)@, final(buf)@, vstd::utf8::encode_utf8(self.spec_target()), offset as int,
                r->Ok_0 as int),
    {
        let bytes = self.target.as_str().as_bytes();
        Ok(read_from_bytes(bytes, offset, buf))
    }
}

/// An inode that only the kernel may execute: it wraps another inode and
/// answers `true` to `is_kernel_exec_only`; everything else is the inner
/// inode's.
pub struct KernelExecOnlyInode<I> {
    inner: I,
}

impl<I> KernelExecOnlyInode<I> {
    /// The wrapped inode.
    pub closed spec fn spec_inner(&self) -> I {
        self.inner
    }

    /// Wrap `inner` so that userspace cannot execute it.
    pub fn wrap(inner: I) -> (w: Self)
        ensures
            w.spec_inner() == inner,
    {
        KernelExecOnlyInode { inner }
    }

    /// Always `true`: only the kernel may exec this file.
    pub fn is_kernel_exec_only(&self) -> (b: bool)
        ensures
            b,
    {
        true
    }

    /// The wrapped inode, to which every other operation goes.
    pub fn inner(&self) -> (r: &I)
        ensures
            *r == self.spec_inner(),
    {
        &self.inner
    }
}

} // verus!
