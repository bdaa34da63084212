use std::cell::RefCell;

use kernel::bafs_adapter::{map_error, partition_sectors, BafsErrorKind, KernelBlockDeviceAdapter};
use kernel::disk::BlockDevice;
use kernel::inode::FsError;

/// A disk that records the sectors it is asked for.
struct RecordingDisk {
    reads: RefCell<Vec<u64>>,
}

impl BlockDevice for RecordingDisk {
    fn spec_contents(&self) -> kernel::disk::DeviceContents {
        panic!("the contents view exists for proofs only")
    }
    fn read_sectors(&self, lba: u64, _count: u32, buf: &mut [u8]) -> bool {
        self.reads.borrow_mut().push(lba);
        for b in buf.iter_mut() {
            *b = lba as u8;
        }
        true
    }
    fn write_sectors(&mut self, _lba: u64, _count: u32, _buf: &[u8]) -> bool {
        false
    }
    fn sector_count(&self) -> u64 {
        1000
    }
    fn sector_size(&self) -> u32 {
        512
    }
    fn name(&self) -> &str {
        "rec"
    }
}

#[test]
fn adapter_offsets_sectors() {
    let mut adapter = KernelBlockDeviceAdapter { inner: RecordingDisk { reads: RefCell::new(Vec::new()) }, partition_start_lba: 100 };
    let mut buf = [0u8; 512];
    assert!(adapter.read_sectors(5, 1, &mut buf));
    assert_eq!(buf[0], 105);
    assert_eq!(*adapter.inner.reads.borrow(), vec![105]);
    assert_eq!(adapter.total_sector_count(), 900);
    assert_eq!(adapter.sector_size_in_bytes(), 512);
    assert_eq!(adapter.device_name(), "rec");
    assert!(!adapter.write_sectors(0, 1, &buf));
    assert_eq!(partition_sectors(10, 20), 0);
}

#[test]
fn bafs_errors_map_to_kernel_errors() {
    assert_eq!(map_error(BafsErrorKind::NotFound), FsError::NotFound);
    assert_eq!(map_error(BafsErrorKind::NotARegularFile), FsError::NotSupported);
    assert_eq!(map_error(BafsErrorKind::OutOfSpace), FsError::OutOfMemory);
    assert_eq!(map_error(BafsErrorKind::InvalidChecksum), FsError::IoError);
    assert_eq!(map_error(BafsErrorKind::Other), FsError::IoError);
}
