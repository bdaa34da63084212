//! Terminal line discipline: cooked (line-buffered) and raw modes,
//! termios settings and the window size.
//!
//! The discipline decides what is echoed and which signal a control
//! character raises; sending the echo and the signal is the caller's part.

use vstd::prelude::*;
use vstd::slice::slice_subrange;
use crate::bytes::write_bytes_at;

verus! {

/// SIGINT.
pub const SIGINT: u8 = 2;
/// SIGQUIT.
pub const SIGQUIT: u8 = 3;
/// SIGTSTP.
pub const SIGTSTP: u8 = 20;
/// ICANON: canonical (line-buffered) mode.
pub const TERMIOS_ICANON: u32 = 0x0002;
/// ECHO: echo input characters.
pub const TERMIOS_ECHO: u32 = 0x0008;
/// Capacity of the cooked-mode line buffer.
pub const TTY_LINE_BUFFER_CAPACITY: usize = 4096;

/// Subset of POSIX `struct termios`.
#[derive(Clone, Copy, Debug)]
pub struct Termios {
    pub c_iflag: u32,
    pub c_oflag: u32,
    pub c_cflag: u32,
    /// Local mode flags; ICANON and ECHO are the ones used.
    pub c_lflag: u32,
    /// Control characters.
    pub c_cc: [u8; 32],
}

impl Termios {
    /// Cooked-mode defaults: ICANON and ECHO set, everything else zero.
    pub fn cooked_defaults() -> (t: Self)
        ensures
            t.c_iflag == 0 && t.c_oflag == 0 && t.c_cflag == 0,
            t.c_lflag == TERMIOS_ICANON | TERMIOS_ECHO,
            t.c_cc@ == Seq::new(32, |i: int| 0u8),
    {
        let t = Termios { c_iflag: 0, c_oflag: 0, c_cflag: 0, c_lflag: TERMIOS_ICANON | TERMIOS_ECHO, c_cc: [0u8; 32] };
        assert(t.c_cc@ =~= Seq::new(32, |i: int| 0u8));
        t
    }
}

/// TTY input mode.
#[derive(Clone, Copy, PartialEq, Eq, Structural, Debug)]
pub enum TtyMode {
    /// Line-buffered: input is delivered after Enter.
    Cooked,
    /// Character at a time, no line editing.
    Raw,
}

/// What processing one input byte asks the caller to do.
pub struct TtyResponse {
    /// Bytes to echo (to the serial line and the display pipe).
    pub echo: Vec<u8>,
    /// Signal to deliver to the foreground process group.
    pub signal: Option<u8>,
}

/// What a terminal read needs next.
#[derive(Clone, Copy, PartialEq, Eq, Structural, Debug)]
pub enum TtyReadStep {
    /// The read is complete with this many bytes.
    Done(usize),
    /// Raw mode: one byte from the input, returned as it is.
    NeedRawByte,
    /// Cooked mode: more input before the line is complete.
    NeedInput,
}

/// TTY state.
pub struct TtyState {
    pub mode: TtyMode,
    pub termios: Termios,
    /// The cooked-mode line being typed (at most 4096 bytes).
    pub line_buffer: Vec<u8>,
    /// A complete line is in the buffer.
    pub line_ready: bool,
    /// Terminal rows.
    pub rows: u16,
    /// Terminal columns.
    pub cols: u16,
}

/// The line buffer, echo and signal after processing `byte` in cooked
/// mode: ^C, ^Z and ^\ raise SIGINT, SIGTSTP and SIGQUIT and echo their
/// caret form; backspace and DEL erase the last byte; CR and LF end the line
/// (stored as LF when there is room); printable bytes are stored and echoed
/// when there is room; other bytes are ignored.
pub open spec fn cooked_step(buf: Seq<u8>, ready: bool, byte: u8) -> (Seq<u8>, bool, Seq<u8>, Option<u8>) {
    if byte == 0x03 {
        (buf, ready, seq![94u8, 67u8, 13u8, 10u8], Some(SIGINT))
    } else if byte == 0x1A {
        (buf, ready, seq![94u8, 90u8, 13u8, 10u8], Some(SIGTSTP))
    } else if byte == 0x1C {
        (buf, ready, seq![94u8, 92u8, 13u8, 10u8], Some(SIGQUIT))
    } else if byte == 0x08 || byte == 0x7F {
        if buf.len() > 0 { (buf.drop_last(), ready, seq![8u8, 32u8, 8u8], None) } else { (buf, ready, Seq::empty(), None) }
    } else if byte == 13 || byte == 10 {
        (if buf.len() < 4096 { buf.push(10u8) } else { buf }, true, seq![13u8, 10u8], None)
    } else if 0x20 <= byte < 0x7F {
        if buf.len() < 4096 { (buf.push(byte), ready, seq![byte], None) } else { (buf, ready, Seq::empty(), None) }
    } else {
        (buf, ready, Seq::empty(), None)
    }
}

/// Erasing right after typing a printable byte leaves the line as it was,
/// and the echo of the two steps (the byte, then backspace-space-backspace)
/// wipes it from the screen.
pub proof fn lemma_backspace_undoes_typing(buf: Seq<u8>, ready: bool, byte: u8)
    requires
        buf.len() < TTY_LINE_BUFFER_CAPACITY,
        0x20 <= byte < 0x7F,
    ensures
        ({
            let (b1, r1, e1, s1) = cooked_step(buf, ready, byte);
            let (b2, r2, e2, s2) = cooked_step(b1, r1, 0x7F);
            b2 == buf && r2 == ready && e1 == seq![byte] && e2 == seq![8u8, 32u8, 8u8] && s1 is None && s2 is None
        }),
{
    assert(buf.push(byte).drop_last() =~= buf);
}

/// In cooked mode the three control keys raise their signals whatever the
/// line holds: ^C (0x03) raises SIGINT (2), ^Z (0x1A) SIGTSTP (20) and ^\
/// (0x1C) SIGQUIT (3); each echoes a caret, the key's letter, CR and LF,
/// and leaves the line and its ready flag as they were.  No other byte
/// raises a signal.
pub proof fn lemma_control_keys_signal(buf: Seq<u8>, ready: bool, byte: u8)
    ensures
        byte == 0x03 ==> cooked_step(buf, ready, byte) == (buf, ready, seq![0x5Eu8, 0x43u8, 0x0Du8, 0x0Au8], Some(2u8)),
        byte == 0x1A ==> cooked_step(buf, ready, byte) == (buf, ready, seq![0x5Eu8, 0x5Au8, 0x0Du8, 0x0Au8], Some(20u8)),
        byte == 0x1C ==> cooked_step(buf, ready, byte) == (buf, ready, seq![0x5Eu8, 0x5Cu8, 0x0Du8, 0x0Au8], Some(3u8)),
        (cooked_step(buf, ready, byte).3 is Some) <==> (byte == 0x03 || byte == 0x1A || byte == 0x1C),
{
}

/// Line editing in cooked mode, for a line within its 4096-byte capacity:
/// CR (13) and LF (10) end the line (it becomes ready) and store one LF
/// while there is room, echoing CR LF; a printable byte (0x20 to 0x7E) is
/// stored and echoed while there is room, and dropped silently on a full
/// line; backspace (8) and DEL (0x7F) remove the last byte and echo
/// backspace, space, backspace, doing nothing on an empty line; any other
/// byte but the three signal keys is ignored.  None of these raises a
/// signal.
pub proof fn lemma_cooked_line_editing(buf: Seq<u8>, ready: bool, byte: u8)
    requires
        buf.len() <= 4096,
    ensures
        (byte == 13 || byte == 10) ==> cooked_step(buf, ready, byte)
            == (if buf.len() < 4096 { buf + seq![10u8] } else { buf }, true, seq![13u8, 10u8], None::<u8>),
        0x20 <= byte <= 0x7E && buf.len() < 4096 ==> cooked_step(buf, ready, byte) == (buf + seq![byte], ready, seq![byte], None::<u8>),
        0x20 <= byte <= 0x7E && buf.len() == 4096 ==> cooked_step(buf, ready, byte) == (buf, ready, Seq::<u8>::empty(), None::<u8>),
        (byte == 8 || byte == 0x7F) && buf.len() > 0 ==> cooked_step(buf, ready, byte)
            == (buf.subrange(0, buf.len() - 1), ready, seq![8u8, 32u8, 8u8], None::<u8>),
        (byte == 8 || byte == 0x7F) && buf.len() == 0 ==> cooked_step(buf, ready, byte) == (buf, ready, Seq::<u8>::empty(), None::<u8>),
        (byte < 0x20 && byte != 3 && byte != 8 && byte != 10 && byte != 13 && byte != 0x1A && byte != 0x1C) || byte > 0x7F
            ==> cooked_step(buf, ready, byte) == (buf, ready, Seq::<u8>::empty(), None::<u8>),
{
    assert(buf.push(10u8) =~= buf + seq![10u8]);
    assert(buf.push(byte) =~= buf + seq![byte]);
}

/// The line and ready flag after feeding `bytes` one by one in cooked
/// mode.
pub open spec fn cooked_feed(buf: Seq<u8>, ready: bool, bytes: Seq<u8>) -> (Seq<u8>, bool)
    decreases bytes.len(),
{
    if bytes.len() == 0 {
        (buf, ready)
    } else {
        let (b, r) = cooked_feed(buf, ready, bytes.drop_last());
        let st = cooked_step(b, r, bytes.last());
        (st.0, st.1)
    }
}

/// Typing printable bytes then Enter in cooked mode appends them and a
/// newline to the line and makes it ready, while the line has room.
pub proof fn lemma_typed_line(buf: Seq<u8>, ready: bool, w: Seq<u8>)
    requires
        buf.len() + w.len() < 4096,
        forall|i: int| 0 <= i < w.len() ==> 0x20 <= #[trigger] w[i] <= 0x7E,
    ensures
        cooked_feed(buf, ready, w) == (buf + w, ready),
        cooked_feed(buf, ready, w + seq![13u8]) == (buf + w + seq![10u8], true),
    decreases w.len(),
{
    if w.len() > 0 {
        let d = w.drop_last();
        assert forall|i: int| 0 <= i < d.len() implies 0x20 <= #[trigger] d[i] <= 0x7E by {
            assert(d[i] == w[i]);
        }
        lemma_typed_line(buf, ready, d);
        assert(w.last() == w[w.len() - 1]);
        assert((buf + d).push(w.last()) =~= buf + w);
    } else {
        assert(buf + w =~= buf);
    }
    let e = w + seq![13u8];
    assert(e.drop_last() =~= w);
    assert(e.last() == 13);
    assert(cooked_feed(buf, ready, e.drop_last()) == (buf + w, ready));
    let st = cooked_step(buf + w, ready, 13);
    assert(st.0 == (buf + w).push(10u8) && st.1);
    assert(cooked_feed(buf, ready, e) == (st.0, st.1));
    assert((buf + w).push(10u8) =~= buf + w + seq![10u8]);
}

impl TtyState {
    /// The buffered line bytes.
    pub open spec fn line(&self) -> Seq<u8> {
        self.line_buffer@
    }

    /// The line buffer never exceeds its capacity.
    pub open spec fn wf(&self) -> bool {
        self.line_buffer@.len() <= TTY_LINE_BUFFER_CAPACITY
    }

    /// A TTY in cooked mode with default termios, an empty line and a
    /// 25×80 window.
    pub fn new() -> (t: Self)
        ensures
            t.wf(),
            t.mode == TtyMode::Cooked,
            t.line() == Seq::<u8>::empty(),
            !t.line_ready,
            t.rows == 25 && t.cols == 80,
            t.termios.c_lflag == TERMIOS_ICANON | TERMIOS_ECHO,
    {
        TtyState {
            mode: TtyMode::Cooked,
            termios: Termios::cooked_defaults(),
            line_buffer: Vec::new(),
            line_ready: false,
            rows: 25,
            cols: 80,
        }
    }

    /// Process one input byte in cooked mode (see `cooked_step`).
    pub fn cooked_mode_process_byte(&mut self, byte: u8) -> (r: TtyResponse)
        requires
            old(self).wf(),
        ensures
            final(self).wf(),
            (final(self).line(), final(self).line_ready, r.echo@, r.signal)
                == cooked_step(old(self).line(), old(self).line_ready, byte),
            final(self).mode == old(self).mode,
            final(self).termios == old(self).termios,
            final(self).rows == old(self).rows && final(self).cols == old(self).cols,
    {
        let mut echo: Vec<u8> = Vec::new();
        if byte == 0x03 {
            echo.push(94u8); echo.push(67u8); echo.push(13u8); echo.push(10u8);
            assert(echo@ =~= seq![94u8, 67u8, 13u8, 10u8]);
            return TtyResponse { echo, signal: Some(SIGINT) };
        }
        if byte == 0x1A {
            echo.push(94u8); echo.push(90u8); echo.push(13u8); echo.push(10u8);
            assert(echo@ =~= seq![94u8, 90u8, 13u8, 10u8]);
            return TtyResponse { echo, signal: Some(SIGTSTP) };
        }
        if byte == 0x1C {
            echo.push(94u8); echo.push(92u8); echo.push(13u8); echo.push(10u8);
            assert(echo@ =~= seq![94u8, 92u8, 13u8, 10u8]);
            return TtyResponse { echo, signal: Some(SIGQUIT) };
        }
        if byte == 0x08 || byte == 0x7F {
            if self.line_buffer.len() > 0 {
                self.line_buffer.pop();
                echo.push(8u8); echo.push(32u8); echo.push(8u8);
                assert(echo@ =~= seq![8u8, 32u8, 8u8]);
            }
            return TtyResponse { echo, signal: None };
        }
        if byte == 13 || byte == 10 {
            if self.line_buffer.len() < TTY_LINE_BUFFER_CAPACITY {
                self.line_buffer.push(10u8);
            }
            self.line_ready = true;
            echo.push(13u8); echo.push(10u8);
            assert(echo@ =~= seq![13u8, 10u8]);
            return TtyResponse { echo, signal: None };
        }
        if byte >= 0x20 && byte < 0x7F {
            if self.line_buffer.len() < TTY_LINE_BUFFER_CAPACITY {
                self.line_buffer.push(byte);
                echo.push(byte);
                assert(echo@ =~= seq![byte]);
            }
        }
        TtyResponse { echo, signal: None }
    }

    /// Hand out the front of the buffered line: copy as much as fits in
    /// `destination`, keep the rest for the next read, and clear
    /// `line_ready` once the line is used up.
    pub fn take_line(&mut self, destination: &mut [u8]) -> (n: usize)
        requires
            old(self).wf(),
        ensures
            final(self).wf(),
            n == (if old(destination)@.len() < old(self).line().len() { old(destination)@.len() } else { old(self).line().len() }),
            final(destination)@.len() == old(destination)@.len(),
            final(destination)@.subrange(0, n as int) == old(self).line().subrange(0, n as int),
            final(destination)@.subrange(n as int, old(destination)@.len() as int)
                == old(destination)@.subrange(n as int, old(destination)@.len() as int),
            final(self).line() == old(self).line().subrange(n as int, old(self).line().len() as int),
            final(self).line_ready == (old(self).line_ready && n < old(self).line().len()),
            final(self).mode == old(self).mode,
    {
        let len = self.line_buffer.len();
        let to_copy = if destination.len() < len { destination.len() } else { len };
        write_bytes_at(destination, 0, slice_subrange(self.line_buffer.as_slice(), 0, to_copy));
        let rest = self.line_buffer.split_off(to_copy);
        self.line_buffer = rest;
        if self.line_buffer.len() == 0 {
            self.line_ready = false;
        }
        assert(final(destination)@.subrange(0, to_copy as int) =~= old(self).line().subrange(0, to_copy as int));
        assert(final(destination)@.subrange(to_copy as int, old(destination)@.len() as int)
            =~= old(destination)@.subrange(to_copy as int, old(destination)@.len() as int));
        to_copy
    }

    /// One step of a terminal read into `destination`: nothing for an
    /// empty destination; in raw mode, ask for one input byte; in cooked
    /// mode, hand out the line once it is complete (as `take_line`), else
    /// ask for more input (fed through `cooked_mode_process_byte`).
    pub fn tty_read_step(&mut self, destination: &mut [u8]) -> (r: TtyReadStep)
        requires
            old(self).wf(),
        ensures
            final(self).wf(),
            final(destination)@.len() == old(destination)@.len(),
            old(destination)@.len() == 0 ==> r == TtyReadStep::Done(0) && *final(self) == *old(self),
            old(destination)@.len() > 0 && old(self).mode == TtyMode::Raw ==> r == TtyReadStep::NeedRawByte
                && *final(self) == *old(self) && final(destination)@ == old(destination)@,
            old(destination)@.len() > 0 && old(self).mode == TtyMode::Cooked && !old(self).line_ready
                ==> r == TtyReadStep::NeedInput && *final(self) == *old(self) && final(destination)@ == old(destination)@,
            old(destination)@.len() > 0 && old(self).mode == TtyMode::Cooked && old(self).line_ready ==> {
                let n = if old(destination)@.len() < old(self).line().len() { old(destination)@.len() as int } else { old(self).line().len() as int };
                &&& r == TtyReadStep::Done(n as usize)
                &&& final(destination)@.subrange(0, n) == old(self).line().subrange(0, n)
                &&& final(self).line() == old(self).line().subrange(n, old(self).line().len() as int)
                &&& final(self).line_ready == (n < old(self).line().len())
            },
    {
        if destination.len() == 0 {
            return TtyReadStep::Done(0);
        }
        match self.mode {
            TtyMode::Raw => TtyReadStep::NeedRawByte,
            TtyMode::Cooked => {
                if !self.line_ready {
                    return TtyReadStep::NeedInput;
                }
                let n = self.take_line(destination);
                TtyReadStep::Done(n)
            },
        }
    }

    /// Switch to raw mode (clears ICANON).
    pub fn tty_set_raw_mode(&mut self)
        ensures
            final(self).mode == TtyMode::Raw,
            final(self).termios.c_lflag == old(self).termios.c_lflag & !TERMIOS_ICANON,
            final(self).line() == old(self).line(),
            final(self).wf() == old(self).wf(),
    {
        self.mode = TtyMode::Raw;
        self.termios.c_lflag = self.termios.c_lflag & !TERMIOS_ICANON;
    }

    /// Switch to cooked mode (sets ICANON).
    pub fn tty_set_cooked_mode(&mut self)
        ensures
            final(self).mode == TtyMode::Cooked,
            final(self).termios.c_lflag == old(self).termios.c_lflag | TERMIOS_ICANON,
            final(self).line() == old(self).line(),
            final(self).wf() == old(self).wf(),
    {
        self.mode = TtyMode::Cooked;
        self.termios.c_lflag = self.termios.c_lflag | TERMIOS_ICANON;
    }

    /// The current termios settings.
    pub fn tty_tcgetattr(&self) -> (t: Termios)
        ensures
            t == self.termios,
    {
        self.termios
    }

    /// Apply termios settings; ICANON clear means raw mode, set means
    /// cooked.
    pub fn tty_tcsetattr(&mut self, termios: &Termios)
        ensures
            final(self).termios == *termios,
            final(self).mode == (if termios.c_lflag & TERMIOS_ICANON == 0 { TtyMode::Raw } else { TtyMode::Cooked }),
            final(self).line() == old(self).line(),
            final(self).wf() == old(self).wf(),
    {
        self.termios = *termios;
        if termios.c_lflag & TERMIOS_ICANON == 0 {
            self.mode = TtyMode::Raw;
        } else {
            self.mode = TtyMode::Cooked;
        }
    }

    /// Record the terminal size.
    pub fn tty_set_winsize(&mut self, rows: u16, cols: u16)
        ensures
            final(self).rows == rows && final(self).cols == cols,
            final(self).line() == old(self).line(),
            final(self).wf() == old(self).wf(),
            final(self).mode == old(self).mode,
    {
        self.rows = rows;
        self.cols = cols;
    }

    /// The terminal size as (rows, columns).
    pub fn tty_get_winsize_pair(&self) -> (r: (u16, u16))
        ensures
            r == (self.rows, self.cols),
    {
        (self.rows, self.cols)
    }
}

} // verus!
