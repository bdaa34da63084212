use kernel::tty::{TtyMode, TtyState, SIGINT, TERMIOS_ECHO, TERMIOS_ICANON};

#[test]
fn cooked_line_with_backspace() {
    let mut tty = TtyState::new();
    for &b in b"lsx" {
        let r = tty.cooked_mode_process_byte(b);
        assert_eq!(r.echo, vec![b]);
        assert_eq!(r.signal, None);
    }
    let r = tty.cooked_mode_process_byte(0x7F);
    assert_eq!(r.echo, vec![8, b' ', 8]);
    let r = tty.cooked_mode_process_byte(b'\r');
    assert_eq!(r.echo, b"\r\n".to_vec());
    assert!(tty.line_ready);
    let mut dst = [0u8; 16];
    let n = tty.take_line(&mut dst);
    assert_eq!(&dst[..n], b"ls\n");
    assert!(!tty.line_ready);
}

#[test]
fn cooked_ctrl_c_raises_sigint() {
    let mut tty = TtyState::new();
    let r = tty.cooked_mode_process_byte(0x03);
    assert_eq!(r.signal, Some(SIGINT));
    assert_eq!(r.echo, b"^C\r\n".to_vec());
}

#[test]
fn raw_and_cooked_mode_switch_flags() {
    let mut tty = TtyState::new();
    assert_eq!(tty.mode, TtyMode::Cooked);
    tty.tty_set_raw_mode();
    assert_eq!(tty.mode, TtyMode::Raw);
    assert_eq!(tty.tty_tcgetattr().c_lflag & TERMIOS_ICANON, 0);
    assert_ne!(tty.tty_tcgetattr().c_lflag & TERMIOS_ECHO, 0);
    tty.tty_set_cooked_mode();
    assert_eq!(tty.mode, TtyMode::Cooked);
    assert_ne!(tty.tty_tcgetattr().c_lflag & TERMIOS_ICANON, 0);
}

#[test]
fn window_size_round_trip() {
    let mut tty = TtyState::new();
    tty.tty_set_winsize(40, 120);
    assert_eq!(tty.tty_get_winsize_pair(), (40, 120));
}
