use kernel::exceptions::ec;
use kernel::exceptions::{
    describe_fault_status, el0_sync_action, el1_sync_action, esr_exception_class,
    esr_instruction_specific_syndrome, exception_console_report, iss_is_write, skip_breakpoint,
    El0SyncAction, El1SyncAction, ExceptionFrame,
};

fn frame() -> ExceptionFrame {
    let mut x = [0u64; 31];
    for (i, r) in x.iter_mut().enumerate() {
        *r = i as u64;
    }
    ExceptionFrame { x, sp: 0x1000, elr: 0xFFFF_0000_0000_1234, spsr: 0x3C5, esr: 0x9600_0045, far: 0xDEAD }
}

#[test]
fn esr_fields() {
    assert_eq!(esr_exception_class(0x9600_0045), 0x25);
    assert_eq!(esr_instruction_specific_syndrome(0x9600_0045), 0x45);
    assert!(iss_is_write(0x45));
    assert!(!iss_is_write(0x05));
    assert_eq!(describe_fault_status(0x05), "Translation fault");
    assert_eq!(describe_fault_status(0x0F), "Permission fault");
    assert_eq!(describe_fault_status(0x10), "Synchronous external abort");
    // 0x21 is tested on the full status code, before any grouping.
    assert_eq!(describe_fault_status(0x21), "Alignment fault");
    assert_eq!(describe_fault_status(0x61), "Alignment fault");
    assert_eq!(ec::name(ec::DATA_ABORT_EL1), "Data abort (EL1)");
    assert_eq!(ec::name(0x3F), "Reserved/unknown EC");
}

#[test]
fn sync_actions() {
    let svc = (0x15u64 << 26) | 64;
    assert_eq!(el0_sync_action(svc, 0), El0SyncAction::Syscall { number: 64 });
    let abort = (0x24u64 << 26) | 0x47;
    assert_eq!(el0_sync_action(abort, 0x400), El0SyncAction::UserFault { far: 0x400, iss: 0x47, is_data: true });
    assert_eq!(el0_sync_action(0, 0), El0SyncAction::Fatal);
    assert_eq!(el1_sync_action(0x3Cu64 << 26), El1SyncAction::SkipBreakpoint);
    assert_eq!(el1_sync_action(0x25u64 << 26), El1SyncAction::Fatal);
}

#[test]
fn breakpoint_is_skipped() {
    let mut f = frame();
    skip_breakpoint(&mut f);
    assert_eq!(f.elr, 0xFFFF_0000_0000_1238);
    assert_eq!(f.sp, 0x1000);
}

#[test]
fn frame_render_lines() {
    let text = String::from_utf8(frame().render()).unwrap();
    let lines: Vec<&str> = text.lines().collect();
    assert_eq!(lines[0], "  ELR  = 0xffff000000001234  FAR  = 0x000000000000dead");
    assert_eq!(lines[2], "  EC   = 0x25 (Data abort (EL1))  ISS = 0x00000045");
    assert_eq!(lines[4], "  x0  = 0x0000000000000000  x1  = 0x0000000000000001");
    assert_eq!(lines.last().copied(), Some("  x30 = 0x000000000000001e"));
}

#[test]
fn console_report_mentions_fault() {
    let text = String::from_utf8(exception_console_report(&frame())).unwrap();
    assert!(text.starts_with("  EC  = 0x25  Data abort (EL1)\n"));
    assert!(text.contains("  SPSR = 0x00000000000003c5\n  Fault: Translation fault (write)\n"));
}
