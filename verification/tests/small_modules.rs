use kernel::disk::{DiskRegistry, MmioRegion, VirtioBlkDevice};
use kernel::display::{FramebufferRecord, KernelFramebufferInfo, PixelFormat};
use kernel::inode::KernelExecOnlyInode;
use kernel::ramfs::{RamFs, RamFsEntry};

static INIT: [u8; 3] = *b"elf";
static SHELL: [u8; 2] = *b"sh";

#[test]
fn ramfs_register_find_list() {
    let mut fs = RamFs::new();
    assert!(fs.ramfs_register_file("bzinit", &INIT));
    assert!(fs.ramfs_register_file("bzsh", &SHELL));
    let long = "x".repeat(256);
    assert!(!fs.ramfs_register_file(&long, &INIT));
    assert_eq!(fs.ramfs_find("bzsh"), Some(&SHELL[..]));
    assert_eq!(fs.ramfs_find("nope"), None);
    assert_eq!(fs.ramfs_list(), vec!["bzinit", "bzsh"]);
    assert_eq!(RamFsEntry::empty().name_str(), "");
}

#[test]
fn ramfs_is_bounded() {
    let mut fs = RamFs::new();
    for i in 0..128 {
        assert!(fs.ramfs_register_file(&format!("f{}", i), &INIT));
    }
    assert!(!fs.ramfs_register_file("one-more", &INIT));
}

#[test]
fn framebuffer_record() {
    let format = PixelFormat { bpp: 32, red_size: 8, red_shift: 16, green_size: 8, green_shift: 8, blue_size: 8, blue_shift: 0 };
    let info = KernelFramebufferInfo::from_boot(0xFFFF_8000_0010_0000, 640, 480, 2560, format, 0xFFFF_8000_0000_0000);
    assert_eq!(info.phys_base, 0x10_0000);
    assert_eq!(info.size_bytes, 2560 * 480);
    assert_eq!(info.red_mask_shift, 16);
    let mut record = FramebufferRecord::new();
    assert_eq!(record.get(), None);
    record.store(info);
    assert_eq!(record.get(), Some(info));
}

#[test]
fn disk_registry_and_names() {
    let mut reg = DiskRegistry::new();
    reg.register_disk(VirtioBlkDevice::new(0));
    reg.register_disk(VirtioBlkDevice::new(7));
    assert_eq!(reg.disk_count(), 2);
    assert_eq!(reg.get_disk(0).unwrap().name(), "diska");
    assert_eq!(reg.get_disk(1).unwrap().name(), "disk?");
    assert!(reg.get_disk(2).is_none());
    assert_eq!(VirtioBlkDevice::new(3).sector_size(), 512);
    let region = MmioRegion { base: 0x0900_0000, size: 0x1000 };
    assert_eq!(region.size, 0x1000);
}

#[test]
fn exec_only_wrapper() {
    let wrapped = KernelExecOnlyInode::wrap(17u64);
    assert!(wrapped.is_kernel_exec_only());
    assert_eq!(*wrapped.inner(), 17);
}

