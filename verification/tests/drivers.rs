use kernel::console::{panic_screen_ops, DrawOp, PANIC_DARK_RED, PANIC_RED, PANIC_WHITE};
use kernel::epoll::{check_fd_readiness, EPOLLERR, EPOLLIN, EPOLLOUT};
use kernel::fat32::strip_disk_prefix;
use kernel::input::{EmitOutcome, InputRing};
use kernel::pipe::{PipeEnd, PipeHandle};
use kernel::tty::{TtyReadStep, TtyState};
use kernel::vfs::FileDescriptor;

#[test]
fn tty_read_steps() {
    let mut tty = TtyState::new();
    let mut empty: [u8; 0] = [];
    assert_eq!(tty.tty_read_step(&mut empty), TtyReadStep::Done(0));
    let mut buf = [0u8; 2];
    assert_eq!(tty.tty_read_step(&mut buf), TtyReadStep::NeedInput);
    for &b in b"abc\n" {
        tty.cooked_mode_process_byte(b);
    }
    assert_eq!(tty.tty_read_step(&mut buf), TtyReadStep::Done(2));
    assert_eq!(&buf, b"ab");
    assert_eq!(tty.tty_read_step(&mut buf), TtyReadStep::Done(2));
    assert_eq!(&buf, b"c\n");
    assert_eq!(tty.tty_read_step(&mut buf), TtyReadStep::NeedInput);
    tty.tty_set_raw_mode();
    assert_eq!(tty.tty_read_step(&mut buf), TtyReadStep::NeedRawByte);
}

#[test]
fn input_ring_queues_and_drops() {
    let mut ring = InputRing::new();
    assert_eq!(ring.emit_char(3), EmitOutcome::Interrupt);
    assert_eq!(ring.try_getchar(), None);
    for i in 0..63u8 {
        assert_eq!(ring.emit_char(b'a' + (i % 26)), EmitOutcome::Queued);
    }
    assert_eq!(ring.emit_char(b'z'), EmitOutcome::Dropped);
    assert_eq!(ring.try_getchar(), Some(b'a'));
    assert_eq!(ring.emit_char(b'!'), EmitOutcome::Queued);
    ring.init();
    assert_eq!(ring.try_getchar(), None);
}

#[test]
fn panic_screen_layout() {
    let header: Vec<char> = "boom\nab".chars().collect();
    let ops = panic_screen_ops(&header, 40, 30, 320);
    assert_eq!(ops[0], DrawOp::ClearScreen { color: PANIC_RED });
    assert_eq!(ops[1], DrawOp::FillRect { x: 0, y: 16, w: 320, h: 24, color: PANIC_DARK_RED });
    // Title centred: (40 - 18) / 2 = 11.
    assert_eq!(ops[2], DrawOp::Glyph { codepoint: '!' as u32, col: 11, row: 3, fg: PANIC_WHITE, bg: PANIC_DARK_RED });
    assert_eq!(ops.len(), 2 + 18 + 6);
    assert_eq!(ops[20], DrawOp::Glyph { codepoint: 'b' as u32, col: 2, row: 7, fg: PANIC_WHITE, bg: PANIC_RED });
    assert_eq!(ops[24], DrawOp::Glyph { codepoint: 'a' as u32, col: 2, row: 8, fg: PANIC_WHITE, bg: PANIC_RED });
}

#[test]
fn panic_screen_wraps_and_stops() {
    let header: Vec<char> = "abcdef".chars().collect();
    // 5 columns: text wraps once column 3 is reached; 9 rows: row 8 is last.
    let ops = panic_screen_ops(&header, 5, 9, 40);
    let body: Vec<(usize, usize)> = ops[20..]
        .iter()
        .map(|op| match op {
            DrawOp::Glyph { col, row, .. } => (*col, *row),
            _ => panic!("glyph expected"),
        })
        .collect();
    assert_eq!(body, vec![(2, 7), (2, 8)]);
}

#[test]
fn disk_prefixes_are_stripped() {
    assert_eq!(strip_disk_prefix("//disk:/mnt/a.txt"), "/a.txt");
    assert_eq!(strip_disk_prefix("/mnt"), "/");
    assert_eq!(strip_disk_prefix("/mnt/"), "/");
    assert_eq!(strip_disk_prefix("/mntx"), "/mntx");
    assert_eq!(strip_disk_prefix("//disk:hello"), "hello");
    assert_eq!(strip_disk_prefix("/other"), "/other");
}

#[test]
fn fd_readiness_by_kind() {
    let read_end = FileDescriptor::Pipe { pipe: 1, handle: PipeHandle::new_end(PipeEnd::ReadEnd) };
    let write_end = FileDescriptor::Pipe { pipe: 1, handle: PipeHandle::new_end(PipeEnd::WriteEnd) };
    let mask = EPOLLIN | EPOLLOUT | EPOLLERR;
    assert_eq!(check_fd_readiness(-1, mask, None, 0, None), EPOLLERR);
    assert_eq!(check_fd_readiness(4, EPOLLIN, None, 0, None), 0);
    assert_eq!(check_fd_readiness(3, mask, Some(&read_end), 0, None), 0);
    assert_eq!(check_fd_readiness(3, mask, Some(&read_end), 5, None), EPOLLIN);
    assert_eq!(check_fd_readiness(3, mask, Some(&write_end), 0, None), EPOLLOUT);
    let file = FileDescriptor::InoFile { inode: 2, position: 0 };
    assert_eq!(check_fd_readiness(3, EPOLLIN, Some(&file), 0, None), EPOLLIN);
    // A PTY master is readable only when slave-to-master bytes wait.
    assert_eq!(check_fd_readiness(3, EPOLLIN, Some(&file), 0, Some(0)), 0);
    assert_eq!(check_fd_readiness(3, mask, Some(&file), 0, Some(0)), EPOLLOUT);
    assert_eq!(check_fd_readiness(3, mask, Some(&file), 0, Some(3)), EPOLLIN | EPOLLOUT);
}
