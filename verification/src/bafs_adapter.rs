//! What the kernel puts between a BAFS volume and its disk: a view of one
//! partition as a device of its own, and the kernel errors that BAFS
//! failures become.

use vstd::prelude::*;
use crate::btree::wrapped_add;
use crate::disk::{sectors_of, with_sectors, BlockDevice};
use crate::inode::FsError;

verus! {

/// A partition of `inner` seen as a device: sector 0 is the partition's
/// first sector (`partition_start_lba` on the disk).
pub struct KernelBlockDeviceAdapter<D> {
    pub inner: D,
    pub partition_start_lba: u64,
}

impl<D: BlockDevice> KernelBlockDeviceAdapter<D> {
    /// The disk sector of partition sector `lba` (the sum wraps).
    pub fn disk_lba(&self, lba: u64) -> (r: u64)
        ensures
            r == self.partition_start_lba.wrapping_add(lba),
    {
        self.partition_start_lba.wrapping_add(lba)
    }

    /// Read `count` partition sectors from `start_lba` into `buf`.
    pub fn read_sectors(&self, start_lba: u64, count: u32, buf: &mut [u8]) -> (ok: bool)
        ensures
            final(buf)@.len() == old(buf)@.len(),
            ok ==> count * 512 <= old(buf)@.len() && final(buf)@.subrange(0, count * 512)
                == sectors_of(self.inner.spec_contents(), wrapped_add(self.partition_start_lba, start_lba), count as int),
    {
        let lba = self.disk_lba(start_lba);
        self.inner.read_sectors(lba, count, buf)
    }

    /// Write `count` partition sectors from `start_lba` out of `buf`.
    pub fn write_sectors(&mut self, start_lba: u64, count: u32, buf: &[u8]) -> (ok: bool)
        ensures
            final(self).partition_start_lba == old(self).partition_start_lba,
            ok ==> final(self).inner.spec_contents() == with_sectors(old(self).inner.spec_contents(),
                wrapped_add(old(self).partition_start_lba, start_lba), count as int, buf@.subrange(0, count * 512)),
    {
        let lba = self.disk_lba(start_lba);
        self.inner.write_sectors(lba, count, buf)
    }

    /// Sectors from the partition start to the end of the disk (0 past the
    /// end), given the disk's sector count.
    pub fn total_sector_count(&self) -> (n: u64)
        ensures
            n == (if self.inner.spec_contents().len() / 512 >= self.partition_start_lba {
                self.inner.spec_contents().len() / 512 - self.partition_start_lba
            } else {
                0
            }),
    {
        let disk_sectors = self.inner.sector_count();
        partition_sectors(disk_sectors, self.partition_start_lba)
    }

    /// The disk's sector size.
    pub fn sector_size_in_bytes(&self) -> (n: u32) {
        self.inner.sector_size()
    }

    /// The disk's name.
    pub fn device_name(&self) -> (s: &str) {
        self.inner.name()
    }
}

/// Sectors of a disk of `disk_sectors` sectors from `start` on.
pub fn partition_sectors(disk_sectors: u64, start: u64) -> (n: u64)
    ensures
        n == (if disk_sectors >= start { disk_sectors - start } else { 0 }),
{
    if disk_sectors >= start { disk_sectors - start } else { 0 }
}

/// The failures a BAFS volume reports.
#[derive(Clone, Copy, PartialEq, Eq, Structural, Debug)]
pub enum BafsErrorKind {
    NotFound,
    AlreadyExists,
    NotADirectory,
    NotARegularFile,
    OutOfSpace,
    InvalidArgument,
    InputOutputError,
    InvalidChecksum,
    CorruptedStructure,
    /// Any other failure.
    Other,
}

/// The kernel error of a BAFS failure.
pub open spec fn bafs_errno(e: BafsErrorKind) -> FsError {
    match e {
        BafsErrorKind::NotFound => FsError::NotFound,
        BafsErrorKind::AlreadyExists => FsError::AlreadyExists,
        BafsErrorKind::NotADirectory => FsError::NotDirectory,
        BafsErrorKind::NotARegularFile => FsError::NotSupported,
        BafsErrorKind::OutOfSpace => FsError::OutOfMemory,
        BafsErrorKind::InvalidArgument => FsError::InvalidArgument,
        _ => FsError::IoError,
    }
}

/// Map a BAFS failure to a kernel error: checksum, corruption, I/O and
/// other failures are I/O errors.
pub fn map_error(error: BafsErrorKind) -> (e: FsError)
    ensures
        e == bafs_errno(error),
{
    match error {
        BafsErrorKind::NotFound => FsError::NotFound,
        BafsErrorKind::AlreadyExists => FsError::AlreadyExists,
        BafsErrorKind::NotADirectory => FsError::NotDirectory,
        BafsErrorKind::NotARegularFile => FsError::NotSupported,
        BafsErrorKind::OutOfSpace => FsError::OutOfMemory,
        BafsErrorKind::InvalidArgument => FsError::InvalidArgument,
        _ => FsError::IoError,
    }
}

} // verus!
