//! Block device interface, the registry of disks, and the MMIO regions the
//! kernel maps.

use vstd::prelude::*;

verus! {

/// What a device holds, as `BlockDevice::spec_contents` gives it: a value
/// of proofs only, which no running code ever asks for.
pub type DeviceContents = Seq<u8>;

/// The `count` sectors of `contents` from sector `lba` on.
pub open spec fn sectors_of(contents: Seq<u8>, lba: int, count: int) -> Seq<u8> {
    contents.subrange(lba * 512, (lba + count) * 512)
}

/// `contents` with the `count` sectors from sector `lba` on replaced by
/// `data`.
pub open spec fn with_sectors(contents: Seq<u8>, lba: int, count: int, data: Seq<u8>) -> Seq<u8> {
    contents.subrange(0, lba * 512) + data + contents.subrange((lba + count) * 512, contents.len() as int)
}

/// Abstract interface for a 512-byte-sector-addressable storage device.
///
/// Implementations live with the platform drivers; the filesystems in this
/// crate are written against this trait only.  A device is seen as the
/// bytes it holds (`spec_contents`, sector after sector).  A read that
/// succeeds delivers the bytes of the sectors asked for; a write that
/// succeeds replaces them; a failed write may have changed the sectors it
/// was given, and no others.  Whether an operation succeeds is the
/// device's own affair.  A handle that writes is taken to be the only one
/// that changes the device while it is in use.
pub trait BlockDevice {
    /// The bytes the device holds (a value of proofs only: an
    /// implementation outside verified code never has it asked for).
    spec fn spec_contents(&self) -> DeviceContents;

    /// Read `count` 512-byte sectors starting at `lba` into `buf`.
    /// Returns `true` on success.
    fn read_sectors(&self, lba: u64, count: u32, buf: &mut [u8]) -> (ok: bool)
        ensures
            final(buf)@.len() == old(buf)@.len(),
            ok ==> count * 512 <= old(buf)@.len() && (lba + count) * 512 <= self.spec_contents().len()
                && final(buf)@.subrange(0, count * 512) == sectors_of(self.spec_contents(), lba as int, count as int),
    ;

    /// Write `count` 512-byte sectors starting at `lba` from `buf`.
    /// Returns `true` on success.
    fn write_sectors(&mut self, lba: u64, count: u32, buf: &[u8]) -> (ok: bool)
        ensures
            final(self).spec_contents().len() == old(self).spec_contents().len(),
            ok ==> count * 512 <= buf@.len() && (lba + count) * 512 <= old(self).spec_contents().len()
                && final(self).spec_contents() == with_sectors(old(self).spec_contents(), lba as int, count as int,
                    buf@.subrange(0, count * 512)),
            !ok ==> forall|i: int| 0 <= i < old(self).spec_contents().len() && !(lba * 512 <= i < (lba + count) * 512)
                ==> #[trigger] final(self).spec_contents()[i] == old(self).spec_contents()[i],
    ;

    /// Total device capacity in 512-byte sectors.
    fn sector_count(&self) -> (n: u64)
        ensures
            n == self.spec_contents().len() / 512,
    ;

    /// Sector size in bytes.
    fn sector_size(&self) -> u32;

    /// Human-readable name for logging.
    fn name(&self) -> &str;
}

/// A virtio-blk device of the QEMU virt machine, by instance index
/// (0 = diska, 1 = diskb, ...).  Its I/O is done by the platform driver.
#[derive(Clone, Copy, Debug, PartialEq, Eq, Structural)]
pub struct VirtioBlkDevice {
    pub index: usize,
}

/// The name of virtio disk `index`: "diska" to "diskd", then "disk?".
pub open spec fn virtio_disk_name(index: usize) -> &'static str {
    if index == 0 {
        "diska"
    } else if index == 1 {
        "diskb"
    } else if index == 2 {
        "diskc"
    } else if index == 3 {
        "diskd"
    } else {
        "disk?"
    }
}

impl VirtioBlkDevice {
    /// The device of instance `index`.
    pub fn new(index: usize) -> (d: Self)
        ensures
            d.index == index,
    {
        VirtioBlkDevice { index }
    }

    /// Its name for logging (see `virtio_disk_name`).
    pub fn name(&self) -> (s: &'static str)
        ensures
            s == virtio_disk_name(self.index),
    {
        match self.index {
            0 => "diska",
            1 => "diskb",
            2 => "diskc",
            3 => "diskd",
            _ => "disk?",
        }
    }

    /// Sectors are 512 bytes.
    pub fn sector_size(&self) -> (s: u32)
        ensures
            s == 512,
    {
        512
    }
}

/// The registered block devices, in order of registration.
pub struct DiskRegistry<D> {
    disks: Vec<D>,
}

impl<D> DiskRegistry<D> {
    /// The devices, in order.
    pub closed spec fn spec_disks(&self) -> Seq<D> {
        self.disks@
    }

    /// No device registered yet.
    pub fn new() -> (r: Self)
        ensures
            r.spec_disks() == Seq::<D>::empty(),
    {
        DiskRegistry { disks: Vec::new() }
    }

    /// Register a block device after the others.
    pub fn register_disk(&mut self, device: D)
        ensures
            final(self).spec_disks() == old(self).spec_disks().push(device),
    {
        self.disks.push(device);
    }

    /// The number of registered devices.
    pub fn disk_count(&self) -> (n: usize)
        ensures
            n == self.spec_disks().len(),
    {
        self.disks.len()
    }

    /// The device at `index`, or `None` if out of range.
    pub fn get_disk(&self, index: usize) -> (r: Option<&D>)
        ensures
            index < self.spec_disks().len() ==> r == Some(&self.spec_disks()[index as int]),
            index >= self.spec_disks().len() ==> r is None,
    {
        if index < self.disks.len() {
            Some(&self.disks[index])
        } else {
            None
        }
    }
}

/// An MMIO region the kernel page table must map.
#[derive(Clone, Copy, Debug, PartialEq, Eq, Structural)]
pub struct MmioRegion {
    pub base: u64,
    pub size: u64,
}

} // verus!
