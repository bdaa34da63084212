use kernel::inode::{FsError, InodeType};
use kernel::boot::{cmdline_get_value, has_bafs_magic, parse_uuid_root, volume_label_matches};
use kernel::epoll::{EpollEvent, EpollInstance};
use kernel::ipc::{Message, MessageQueue, NamedSemaphore};
use kernel::mount::{path_components, MountTable};
use kernel::partition::{classify_sector0, parse_mbr, DiskLayout, Partition};
use kernel::procfs::{parse_proc_path, procfs_meminfo, procfs_process_status, procfs_uptime, ProcPath};

#[test]
fn epoll_add_mod_del() {
    let mut counter = 1u64;
    let mut ep = EpollInstance::new(&mut counter);
    assert_eq!(ep.ctl_add(3, 1, 33), 0);
    assert_eq!(ep.ctl_add(3, 1, 33), -17);
    assert_eq!(ep.ctl_add(5, 4, 55), 0);
    assert_eq!(ep.ctl_mod(5, 1, 56), 0);
    assert_eq!(ep.ctl_mod(9, 1, 0), -2);
    let mut out = [EpollEvent { events: 0, data: 0 }; 4];
    // fd 3 is not ready; fd 5 is readable.
    let n = ep.collect_ready_events(&mut out, 4, &|fd: i32, mask: u32| if fd == 5 { mask } else { 0 });
    assert_eq!(n, 1);
    assert_eq!(out[0], EpollEvent { events: 1, data: 56 });
    assert_eq!(ep.ctl_del(3), 0);
    assert_eq!(ep.ctl_del(3), -2);
}

#[test]
fn epoll_respects_max_events() {
    let mut counter = 1u64;
    let mut ep = EpollInstance::new(&mut counter);
    for fd in 0..5 {
        assert_eq!(ep.ctl_add(fd, 1, fd as u64), 0);
    }
    let mut out = [EpollEvent { events: 0, data: 0 }; 8];
    let n = ep.collect_ready_events(&mut out, 2, &|_fd: i32, mask: u32| mask);
    assert_eq!(n, 2);
    assert_eq!(out[1], EpollEvent { events: 1, data: 1 });
    assert_eq!(out[2], EpollEvent { events: 0, data: 0 });
}

#[test]
fn mqueue_orders_by_priority_then_arrival() {
    let mut q = MessageQueue::new(b"/q".to_vec(), 10, 64);
    q.enqueue(Message { data: b"low".to_vec(), priority: 1 });
    q.enqueue(Message { data: b"high".to_vec(), priority: 5 });
    q.enqueue(Message { data: b"low2".to_vec(), priority: 1 });
    q.enqueue(Message { data: b"high2".to_vec(), priority: 5 });
    assert_eq!(q.message_count(), 4);
    let order: Vec<Vec<u8>> = (0..4).map(|_| q.dequeue().unwrap().data).collect();
    assert_eq!(order, vec![b"high".to_vec(), b"high2".to_vec(), b"low".to_vec(), b"low2".to_vec()]);
    assert!(q.dequeue().is_none());
    assert!(q.is_empty());
    assert!(q.name_matches(b"/q"));
}

#[test]
fn semaphore_counts_and_wakes() {
    let mut sem = NamedSemaphore { name: b"s".to_vec(), value: 1, waiter_queue: Vec::new(), reference_count: 1, is_unlinked: false };
    assert!(sem.try_decrement());
    assert!(!sem.try_decrement());
    sem.waiter_queue.push(42);
    assert_eq!(sem.post(), Some(42));
    assert_eq!(sem.value, 0);
    assert_eq!(sem.post(), None);
    assert_eq!(sem.value, 1);
}

fn mbr_with(entries: &[(u8, u32, u32)]) -> [u8; 512] {
    let mut s = [0u8; 512];
    for (i, &(t, start, count)) in entries.iter().enumerate() {
        let base = 446 + 16 * i;
        s[base + 4] = t;
        s[base + 8..base + 12].copy_from_slice(&start.to_le_bytes());
        s[base + 12..base + 16].copy_from_slice(&count.to_le_bytes());
    }
    s[510] = 0x55;
    s[511] = 0xAA;
    s
}

#[test]
fn mbr_partitions_numbered_in_order() {
    let s = mbr_with(&[(0x0C, 2048, 1000), (0, 0, 0), (0x83, 5000, 200)]);
    let v = parse_mbr(&s, 1, 99999);
    assert_eq!(
        v,
        vec![
            Partition { disk_index: 1, part_index: 0, start_lba: 2048, sector_count: 1000, partition_type: 0x0C },
            Partition { disk_index: 1, part_index: 1, start_lba: 5000, sector_count: 200, partition_type: 0x83 },
        ]
    );
    assert!(v[0].is_fat32_candidate());
    assert!(!v[1].is_fat32_candidate());
    assert_eq!(v[1].mount_path(), "/mnt/diskb2");
    assert_eq!(classify_sector0(&s), DiskLayout::Mbr);
}

#[test]
fn mbr_without_entries_is_whole_disk() {
    let s = mbr_with(&[]);
    let v = parse_mbr(&s, 0, 777);
    assert_eq!(v, vec![Partition { disk_index: 0, part_index: 0, start_lba: 0, sector_count: 777, partition_type: 0xFF }]);
}

#[test]
fn sector0_layouts() {
    let blank = [0u8; 512];
    assert_eq!(classify_sector0(&blank), DiskLayout::WholeDisk(0xFF));
    let mut fat = mbr_with(&[]);
    fat[0] = 0xEB;
    assert_eq!(classify_sector0(&fat), DiskLayout::WholeDisk(0x0C));
    let gpt = mbr_with(&[(0xEE, 1, 100)]);
    assert_eq!(classify_sector0(&gpt), DiskLayout::Gpt);
}

#[test]
fn cmdline_values() {
    let cmdline = b"console=ttyS0 ROOT=UUID=1234-ABCD quiet";
    assert_eq!(cmdline_get_value(cmdline, b"root"), Some(&b"UUID=1234-ABCD"[..]));
    assert_eq!(cmdline_get_value(cmdline, b"console"), Some(&b"ttyS0"[..]));
    assert_eq!(cmdline_get_value(cmdline, b"quiet"), None);
    assert_eq!(cmdline_get_value(b"root=", b"root"), None);
}

#[test]
fn uuid_root_values() {
    assert_eq!(parse_uuid_root(b"UUID=1234-ABCD"), Some(0x1234ABCD));
    assert_eq!(parse_uuid_root(b"uuid=deadbeef"), Some(0xDEADBEEF));
    assert_eq!(parse_uuid_root(b"UUID=12345-ABC"), None);
    assert_eq!(parse_uuid_root(b"UUID=XYZW-ABCD"), None);
    assert_eq!(parse_uuid_root(b"LABEL=ROOT"), None);
}

#[test]
fn volume_labels_match_ignoring_case_and_padding() {
    assert!(volume_label_matches(b"BAZZULTO   ", b"bazzulto"));
    assert!(!volume_label_matches(b"BAZZULTO   ", b"bazz"));
    assert!(volume_label_matches(b"           ", b""));
}

#[test]
fn bafs_magic() {
    let mut sector = [0u8; 512];
    sector[..8].copy_from_slice(b"BAFS\x1B\0\0\0");
    assert!(has_bafs_magic(&sector));
    sector[4] = 0;
    assert!(!has_bafs_magic(&sector));
}

#[test]
fn proc_paths() {
    assert_eq!(parse_proc_path("//proc:meminfo"), Some(ProcPath::Meminfo));
    assert_eq!(parse_proc_path("cpuinfo"), Some(ProcPath::Cpuinfo));
    assert_eq!(parse_proc_path("uptime"), Some(ProcPath::Uptime));
    assert_eq!(parse_proc_path("//proc:12/status"), Some(ProcPath::Status(12)));
    assert_eq!(parse_proc_path("3/maps"), Some(ProcPath::Maps(3)));
    assert_eq!(parse_proc_path("0/status"), None);
    assert_eq!(parse_proc_path("70000/status"), None);
    assert_eq!(parse_proc_path("3/other"), None);
    assert_eq!(parse_proc_path("nothing"), None);
}

#[test]
fn proc_file_texts() {
    let m = procfs_meminfo(8 * 1024 * 1024, 2048);
    assert_eq!(
        String::from_utf8(m.data).unwrap(),
        "MemTotal:     8192 kB\nMemFree:      2 kB\nMemAvailable: 2 kB\n"
    );
    let u = procfs_uptime(1234, 10);
    assert_eq!(String::from_utf8(u.data).unwrap(), "12.34 12.34\n");
    let s = procfs_process_status(7, 1, "Running");
    assert_eq!(String::from_utf8(s.data).unwrap(), "pid: 7\nppid: 1\nstate: Running\n");
}

#[test]
fn mount_table_longest_prefix() {
    let mut table = MountTable::new();
    table.mount("/", 1);
    table.mount("/proc", 2);
    table.mount("/dev", 3);
    assert_eq!(table.find_mount_root(b"/proc/1/status"), Ok((2, 5)));
    assert_eq!(table.find_mount_root(b"/dev"), Ok((3, 4)));
    assert_eq!(table.find_mount_root(b"/devices"), Ok((1, 0)));
    let empty = MountTable::new();
    assert!(empty.find_mount_root(b"/x").is_err());
    // Mounting again at a path replaces the mount there.
    table.mount("/proc", 9);
    assert_eq!(table.find_mount_root(b"/proc/1/status"), Ok((9, 5)));
    assert_eq!(table.find_mount_root(b"/dev/null"), Ok((3, 4)));
}

#[test]
fn path_components_skip_empty_and_dot() {
    let p = b"/a//./bc/";
    assert_eq!(path_components(p, 0), vec![(1, 2), (6, 8)]);
}

#[test]
fn resolve_parent_walks_components() {
    let mut table = MountTable::new();
    table.mount("/", 1);
    let lookup = |dir: u64, name: &[u8]| if dir == 1 && name == b"etc" { Some(5) } else { None };
    let type_of = |ino: u64| if ino == 1 || ino == 5 { InodeType::Directory } else { InodeType::RegularFile };
    let (dir, last) = table.resolve_parent("/etc/passwd", &lookup, &type_of).unwrap();
    assert_eq!((dir, last), (5, b"passwd".to_vec()));
    assert_eq!(table.resolve_parent("/nope/x", &lookup, &type_of).err(), Some(FsError::NotFound));
    let lookup2 = |dir: u64, name: &[u8]| if dir == 1 && name == b"file" { Some(7) } else { None };
    assert_eq!(table.resolve_parent("/file/y/x", &lookup2, &type_of).err(), Some(FsError::NotDirectory));
    // ".." is skipped.
    let (dir, last) = table.resolve_parent("/etc/../passwd", &lookup, &type_of).unwrap();
    assert_eq!((dir, last), (5, b"passwd".to_vec()));
}
