//! The filesystem tree the kernel starts with: a tmpfs root with its
//! standard directories and /dev, and /proc mounted beside it.

use vstd::prelude::*;
use vstd::string::StringSliceAdditionalSpecFns;
use crate::devfs::{devfs_create, devfs_seed_entropy, DevNull, DevTty, DevUrandom, DevZero, UrandomState};
use crate::inode::InodeType;
use crate::mount::{first_shorter, without_prefix, MountTable};
use crate::procfs::ProcfsRootInode;
use crate::tmpfs::{entry_key, TmpfsDir};

verus! {

/// The boot-time filesystem tree.
pub struct VfsTree {
    /// The mount table: "/" and "/proc".
    pub table: MountTable,
    /// The tmpfs root and its directories tmp, mnt, bin and etc.
    pub root: TmpfsDir,
    pub tmp: TmpfsDir,
    pub mnt: TmpfsDir,
    pub bin: TmpfsDir,
    pub etc: TmpfsDir,
    /// /dev and its devices.
    pub dev: TmpfsDir,
    pub null: DevNull,
    pub zero: DevZero,
    pub urandom: DevUrandom,
    pub tty: DevTty,
    /// The /proc root.
    pub proc_root: ProcfsRootInode,
}

/// `dir` has a directory entry called `name` for inode `number`.
pub open spec fn has_dir_entry(dir: TmpfsDir, name: Seq<u8>, number: u64) -> bool {
    exists|i: int| 0 <= i < dir.spec_entries().len() && entry_key(dir.spec_entries()[i]) == name
        && dir.spec_entries()[i].inode_number == number && dir.spec_entries()[i].inode_type == InodeType::Directory
}

/// Build the boot-time tree, numbering its inodes from `counter`, and mix
/// `entropy` into the random generator.
pub fn vfs_init(counter: &mut u64, rng: &mut UrandomState, entropy: u64) -> (v: VfsTree)
    ensures
        v.table.wf(),
        v.root.wf(),
        v.table.spec_entries() == seq![("/proc".spec_bytes(), v.proc_root.spec_inode_number()), ("/".spec_bytes(), v.root.spec_inode_number())],
        has_dir_entry(v.root, "tmp".spec_bytes(), v.tmp.spec_inode_number()),
        has_dir_entry(v.root, "mnt".spec_bytes(), v.mnt.spec_inode_number()),
        has_dir_entry(v.root, "bin".spec_bytes(), v.bin.spec_inode_number()),
        has_dir_entry(v.root, "etc".spec_bytes(), v.etc.spec_inode_number()),
        has_dir_entry(v.root, "dev".spec_bytes(), v.dev.spec_inode_number()),
        final(rng).state == old(rng).state ^ entropy,
{
    proof {
        reveal_strlit("tmp");
        reveal_strlit("mnt");
        reveal_strlit("bin");
        reveal_strlit("etc");
        reveal_strlit("dev");
        reveal_strlit("/");
        reveal_strlit("/proc");
        vstd::string::is_ascii_spec_bytes("tmp");
        vstd::string::is_ascii_spec_bytes("mnt");
        vstd::string::is_ascii_spec_bytes("bin");
        vstd::string::is_ascii_spec_bytes("etc");
        vstd::string::is_ascii_spec_bytes("dev");
        vstd::string::is_ascii_spec_bytes("/");
        vstd::string::is_ascii_spec_bytes("/proc");
    }
    let ghost names = seq!["tmp".spec_bytes(), "mnt".spec_bytes(), "bin".spec_bytes(), "etc".spec_bytes(), "dev".spec_bytes()];
    assert(forall|a: int, b: int| 0 <= a < b < 5 ==> names[a][0] != names[b][0] || names[a][1] != names[b][1]);
    let mut root = TmpfsDir::new(counter);
    let tmp = match root.mkdir("tmp", counter) {
        Ok(d) => d,
        Err(_) => {
            proof { assert(false); }
            TmpfsDir::new(counter)
        },
    };
    let mnt = match root.mkdir("mnt", counter) {
        Ok(d) => d,
        Err(_) => {
            proof { assert(false); }
            TmpfsDir::new(counter)
        },
    };
    let bin = match root.mkdir("bin", counter) {
        Ok(d) => d,
        Err(_) => {
            proof { assert(false); }
            TmpfsDir::new(counter)
        },
    };
    let etc = match root.mkdir("etc", counter) {
        Ok(d) => d,
        Err(_) => {
            proof { assert(false); }
            TmpfsDir::new(counter)
        },
    };
    let (dev, null, zero, urandom, tty) = devfs_create(counter);
    root.insert("dev", dev.stat().inode_number, InodeType::Directory);
    let mut table = MountTable::new();
    let root_number = root.stat().inode_number;
    table.mount("/", root_number);
    proof {
        reveal_with_fuel(Seq::<(Seq<u8>, u64)>::filter, 1);
        assert(without_prefix(Seq::<(Seq<u8>, u64)>::empty(), "/".spec_bytes()) =~= Seq::<(Seq<u8>, u64)>::empty());
        assert(table.spec_entries() =~= seq![("/".spec_bytes(), root_number)]);
    }
    let proc_root = ProcfsRootInode::new(counter);
    let proc_number = proc_root.stat().inode_number;
    let ghost one = table.spec_entries();
    table.mount("/proc", proc_number);
    proof {
        reveal_with_fuel(Seq::<(Seq<u8>, u64)>::filter, 2);
        assert(one.drop_last() =~= Seq::<(Seq<u8>, u64)>::empty());
        assert(without_prefix(one, "/proc".spec_bytes()) =~= one);
        assert(first_shorter(one, 5) == 0);
        assert(table.spec_entries() =~= seq![("/proc".spec_bytes(), proc_number), ("/".spec_bytes(), root_number)]);
    }
    devfs_seed_entropy(rng, entropy);
    VfsTree { table, root, tmp, mnt, bin, etc, dev, null, zero, urandom, tty, proc_root }
}

} // verus!
