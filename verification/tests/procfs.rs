use kernel::procfs::{procfs_cpuinfo, procfs_open, procfs_process_maps, ProcStats, ProcessInfo};

fn stats() -> ProcStats {
    ProcStats {
        total_bytes: 1024 * 1024,
        free_bytes: 512 * 1024,
        tick: 250,
        tick_interval_ms: 10,
        midr: 0x410F_D083,
        cpu_count: 2,
    }
}

fn lookup(pid: u16) -> Option<ProcessInfo> {
    if pid == 2 {
        Some(ProcessInfo { parent_index: 1, state_name: "running", regions: vec![(0x1000, 0x2000), (u64::MAX - 1, 10)] })
    } else {
        None
    }
}

fn text(data: Vec<u8>) -> String {
    String::from_utf8(data).unwrap()
}

#[test]
fn cpuinfo_block_fields() {
    let t = text(procfs_cpuinfo(0x410F_D083, 1).data);
    assert_eq!(
        t,
        "processor\t: 0\nBogoMIPS\t: 100.00\nFeatures\t: fp asimd evtstrm\nCPU implementer\t: 0x41\n\
CPU architecture: 15\nCPU variant\t: 0x0\nCPU part\t: 0xd08\nCPU revision\t: 3\n\n"
    );
    let two = text(procfs_cpuinfo(0x410F_D083, 2).data);
    assert!(two.starts_with(&t));
    assert!(two[t.len()..].starts_with("processor\t: 1\n"));
    assert!(procfs_cpuinfo(0, 0).data.is_empty());
}

#[test]
fn maps_lines_saturate() {
    let t = text(procfs_process_maps(&[(0x1000, 0x2000), (u64::MAX - 1, 10)]).data);
    assert_eq!(
        t,
        "0000000000001000-0000000000003000 rw-p 00000000 00:00 0\n\
fffffffffffffffe-ffffffffffffffff rw-p 00000000 00:00 0\n"
    );
}

#[test]
fn procfs_open_dispatches() {
    let s = stats();
    let m = procfs_open("//proc:meminfo", &s, &lookup).unwrap();
    assert_eq!(text(m.data), "MemTotal:     1024 kB\nMemFree:      512 kB\nMemAvailable: 512 kB\n");
    let u = procfs_open("uptime", &s, &lookup).unwrap();
    assert_eq!(text(u.data), "2.50 2.50\n");
    let st = procfs_open("2/status", &s, &lookup).unwrap();
    assert_eq!(text(st.data), "pid: 2\nppid: 1\nstate: running\n");
    let maps = procfs_open("//proc:2/maps", &s, &lookup).unwrap();
    assert!(text(maps.data).starts_with("0000000000001000-0000000000003000"));
    assert!(procfs_open("3/status", &s, &lookup).is_none());
    assert!(procfs_open("version", &s, &lookup).is_none());
    let c = procfs_open("cpuinfo", &s, &lookup).unwrap();
    assert_eq!(text(c.data).matches("processor").count(), 2);
}
