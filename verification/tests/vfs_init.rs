use kernel::devfs::UrandomState;
use kernel::inode::InodeType;
use kernel::vfs_init::vfs_init;

#[test]
fn boot_tree_layout() {
    let mut counter = 1u64;
    let mut rng = UrandomState { state: 5 };
    let v = vfs_init(&mut counter, &mut rng, 3);
    assert_eq!(rng.state, 5 ^ 3);
    for (name, dir) in [("tmp", &v.tmp), ("mnt", &v.mnt), ("bin", &v.bin), ("etc", &v.etc), ("dev", &v.dev)] {
        assert_eq!(v.root.lookup(name), Some((dir.stat().inode_number, InodeType::Directory)));
    }
    assert_eq!(v.dev.lookup("null"), Some((v.null.stat().inode_number, InodeType::CharDevice)));
    assert_eq!(v.dev.lookup("tty"), Some((v.tty.stat().inode_number, InodeType::CharDevice)));
    assert_eq!(v.table.find_mount_root(b"/proc/1/status"), Ok((v.proc_root.stat().inode_number, 5)));
    assert_eq!(v.table.find_mount_root(b"/etc/passwd"), Ok((v.root.stat().inode_number, 0)));
}
