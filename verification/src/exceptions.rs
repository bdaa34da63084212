//! AArch64 exception syndrome decoding (ESR_EL1).

use vstd::prelude::*;
use vstd::string::StringSliceAdditionalSpecFns;
use crate::bytes::push_slice;

pub mod ec;

verus! {

/// Exception Class field of ESR_EL1: bits [31:26].
pub open spec fn spec_exception_class(esr: u64) -> u8 {
    ((esr >> 26u64) & 0x3Fu64) as u8
}

/// Extract the Exception Class field from ESR_EL1.
pub fn esr_exception_class(esr: u64) -> (ec: u8)
    ensures
        ec == spec_exception_class(esr),
        ec < 64,
{
    let v = (esr >> 26u64) & 0x3Fu64;
    assert(v < 64) by (bit_vector)
        requires v == (esr >> 26u64) & 0x3Fu64;
    v as u8
}

/// Instruction-Specific Syndrome of ESR_EL1: bits [24:0].
pub open spec fn spec_iss(esr: u64) -> u32 {
    (esr & 0x1FF_FFFFu64) as u32
}

/// Extract the Instruction-Specific Syndrome from ESR_EL1 bits [24:0].
pub fn esr_instruction_specific_syndrome(esr: u64) -> (iss: u32)
    ensures
        iss == spec_iss(esr),
{
    (esr & 0x1FF_FFFFu64) as u32
}

/// Description of the fault status code (bits [5:0]) of an abort's ISS:
/// 0x21 is an alignment fault; other codes go by their top four bits.
pub open spec fn spec_fault_status(iss: u32) -> &'static str {
    let dfsc = iss & 0x3Fu32;
    let group = dfsc & 0x3Cu32;
    if dfsc == 0x21 {
        "Alignment fault"
    } else if group == 0x00 {
        "Address-size fault"
    } else if group == 0x04 {
        "Translation fault"
    } else if group == 0x08 {
        "Access flag fault"
    } else if group == 0x0C {
        "Permission fault"
    } else if group == 0x10 {
        "Synchronous external abort"
    } else {
        "Other fault"
    }
}

/// Decode the data/instruction fault status code of an ISS.
pub fn describe_fault_status(iss: u32) -> (s: &'static str)
    ensures
        s == spec_fault_status(iss),
{
    let dfsc = iss & 0x3Fu32;
    let group = dfsc & 0x3Cu32;
    if dfsc == 0x21 {
        "Alignment fault"
    } else if group == 0x00 {
        "Address-size fault"
    } else if group == 0x04 {
        "Translation fault"
    } else if group == 0x08 {
        "Access flag fault"
    } else if group == 0x0C {
        "Permission fault"
    } else if group == 0x10 {
        "Synchronous external abort"
    } else {
        "Other fault"
    }
}

/// A syndrome built from a class (below 64) in bits 31:26 and a syndrome
/// (below 2^25) in bits 24:0 gives both back.
pub proof fn lemma_esr_fields(ec: u64, iss: u64, il: u64)
    requires
        ec < 64,
        iss < 0x200_0000,
        il < 2,
    ensures
        spec_exception_class((ec << 26u64) | (il << 25u64) | iss) == ec,
        spec_iss((ec << 26u64) | (il << 25u64) | iss) == iss,
{
    let esr = (ec << 26u64) | (il << 25u64) | iss;
    assert((esr >> 26u64) & 0x3Fu64 == ec && esr & 0x1FF_FFFFu64 == iss) by (bit_vector)
        requires esr == (ec << 26u64) | (il << 25u64) | iss, ec < 64, iss < 0x200_0000, il < 2;
}

/// The fault status depends on bits 5:0 of the syndrome alone: codes 0x00
/// to 0x03 are address-size faults, 0x04 to 0x07 translation faults, 0x08
/// to 0x0B access flag faults, 0x0C to 0x0F permission faults, 0x10 to
/// 0x13 synchronous external aborts (each at levels 0 to 3), 0x21 an
/// alignment fault, and every other code another fault.
pub proof fn lemma_fault_status_codes(iss: u32)
    ensures
        spec_fault_status(iss) == spec_fault_status(iss & 0x3F),
        (iss & 0x3F) < 4 ==> spec_fault_status(iss) == "Address-size fault",
        4 <= (iss & 0x3F) < 8 ==> spec_fault_status(iss) == "Translation fault",
        8 <= (iss & 0x3F) < 12 ==> spec_fault_status(iss) == "Access flag fault",
        12 <= (iss & 0x3F) < 16 ==> spec_fault_status(iss) == "Permission fault",
        16 <= (iss & 0x3F) < 20 ==> spec_fault_status(iss) == "Synchronous external abort",
        (iss & 0x3F) == 0x21 ==> spec_fault_status(iss) == "Alignment fault",
        (iss & 0x3F) >= 20 && (iss & 0x3F) != 0x21 ==> spec_fault_status(iss) == "Other fault",
{
    let d = iss & 0x3Fu32;
    assert((d & 0x3Fu32) == d && d < 64) by (bit_vector) requires d == iss & 0x3Fu32;
    let g = d & 0x3Cu32;
    assert((d < 4 ==> g == 0) && (4 <= d < 8 ==> g == 4) && (8 <= d < 12 ==> g == 8)
        && (12 <= d < 16 ==> g == 12) && (16 <= d < 20 ==> g == 16) && (d >= 20 ==> g >= 20)) by (bit_vector)
        requires g == d & 0x3Cu32, d < 64;
}

/// The WnR bit [6] of an ISS: the data abort was caused by a write.
pub fn iss_is_write(iss: u32) -> (b: bool)
    ensures
        b == (iss & 0x40u32 != 0),
{
    iss & 0x40u32 != 0
}

/// Saved CPU state at exception entry (36 words, as the vector code pushes
/// it).
#[derive(Clone, Copy, Debug)]
pub struct ExceptionFrame {
    /// General-purpose registers x0–x30.
    pub x: [u64; 31],
    /// Stack pointer at exception entry.
    pub sp: u64,
    /// Exception Link Register (ELR_EL1).
    pub elr: u64,
    /// Saved Processor State Register (SPSR_EL1).
    pub spsr: u64,
    /// Exception Syndrome Register (ESR_EL1).
    pub esr: u64,
    /// Fault Address Register (FAR_EL1).
    pub far: u64,
}

/// Lowercase hex digit of `d` (0..16).
pub open spec fn hex_digit(d: int) -> u8 {
    if d < 10 { (48 + d) as u8 } else { (87 + d) as u8 }
}

/// The low `n` hex digits of `v`, most significant first.
pub open spec fn hex_digits(v: nat, n: nat) -> Seq<u8>
    decreases n,
{
    if n == 0 {
        Seq::empty()
    } else {
        hex_digits(v / 16, (n - 1) as nat).push(hex_digit((v % 16) as int))
    }
}

/// `{:#0Nx}` of `v`: "0x" and `width - 2` hex digits.
pub open spec fn hex_field(v: nat, width: nat) -> Seq<u8> {
    seq![48u8, 120u8] + hex_digits(v, (width - 2) as nat)
}

/// `{:<2}` of a number below 100: its decimal digits, padded with a space.
pub open spec fn dec2_field(v: nat) -> Seq<u8> {
    if v < 10 { seq![(48 + v) as u8, 32u8] } else { seq![(48 + v / 10) as u8, (48 + v % 10) as u8] }
}

/// Append the low `n` hex digits of `v`.
pub(crate) fn push_hex_digits(out: &mut Vec<u8>, v: u64, n: usize)
    ensures
        final(out)@ == old(out)@ + hex_digits(v as nat, n as nat),
    decreases n,
{
    if n == 0 {
        assert(old(out)@ + Seq::<u8>::empty() =~= old(out)@);
        return;
    }
    push_hex_digits(out, v / 16, n - 1);
    let d = (v % 16) as u8;
    let c: u8 = if d < 10 { 48 + d } else { 87 + d };
    out.push(c);
    assert(final(out)@ =~= old(out)@ + hex_digits(v as nat, n as nat));
}

/// Append `{:#0Nx}` of `v` (`width` at least 2).
pub(crate) fn push_hex_field(out: &mut Vec<u8>, v: u64, width: usize)
    requires
        width >= 2,
    ensures
        final(out)@ == old(out)@ + hex_field(v as nat, width as nat),
{
    out.push(48u8);
    out.push(120u8);
    push_hex_digits(out, v, width - 2);
    assert(final(out)@ =~= old(out)@ + hex_field(v as nat, width as nat));
}

/// Append `{:<2}` of a number below 100.
fn push_dec2(out: &mut Vec<u8>, v: usize)
    requires
        v < 100,
    ensures
        final(out)@ == old(out)@ + dec2_field(v as nat),
{
    if v < 10 {
        out.push(48 + v as u8);
        out.push(32u8);
    } else {
        out.push(48 + (v / 10) as u8);
        out.push(48 + (v % 10) as u8);
    }
    assert(final(out)@ =~= old(out)@ + dec2_field(v as nat));
}

/// `  x{a:<2} = {:#018x}  x{b:<2} = {:#018x}` for registers `2k` and `2k+1`,
/// and the line end.
pub open spec fn reg_pair_line(x: Seq<u64>, k: int) -> Seq<u8> {
    "  x".spec_bytes() + dec2_field((2 * k) as nat) + " = ".spec_bytes() + hex_field(x[2 * k] as nat, 18)
        + "  x".spec_bytes() + dec2_field((2 * k + 1) as nat) + " = ".spec_bytes()
        + hex_field(x[2 * k + 1] as nat, 18) + "\n".spec_bytes()
}

/// The register pair lines for pairs `0..k`.
pub open spec fn reg_pair_lines(x: Seq<u64>, k: int) -> Seq<u8>
    decreases k,
{
    if k <= 0 {
        Seq::empty()
    } else {
        reg_pair_lines(x, k - 1) + reg_pair_line(x, k - 1)
    }
}

/// Append the line of register pair `pair`.
fn push_reg_pair(out: &mut Vec<u8>, x: &[u64; 31], pair: usize)
    requires
        pair < 15,
    ensures
        final(out)@ == old(out)@ + reg_pair_line(x@, pair as int),
{
    push_slice(out, "  x".as_bytes());
    push_dec2(out, pair * 2);
    push_slice(out, " = ".as_bytes());
    push_hex_field(out, x[pair * 2], 18);
    push_slice(out, "  x".as_bytes());
    push_dec2(out, pair * 2 + 1);
    push_slice(out, " = ".as_bytes());
    push_hex_field(out, x[pair * 2 + 1], 18);
    push_slice(out, "\n".as_bytes());
    assert(final(out)@ =~= old(out)@ + reg_pair_line(x@, pair as int));
}

/// Append the lines of register pairs (x0, x1) through (x28, x29).
fn push_reg_pairs(out: &mut Vec<u8>, x: &[u64; 31])
    ensures
        final(out)@ == old(out)@ + reg_pair_lines(x@, 15),
{
    let mut pair: usize = 0;
    while pair < 15
        invariant
            pair <= 15,
            out@ == old(out)@ + reg_pair_lines(x@, pair as int),
        decreases 15 - pair,
    {
        push_reg_pair(out, x, pair);
        pair = pair + 1;
        assert(out@ =~= old(out)@ + reg_pair_lines(x@, pair as int));
    }
}

/// The text of a frame as its display shows it: ELR/FAR, ESR/SPSR, the
/// exception class with its name and the syndrome, SP, and all registers.
pub open spec fn frame_text(f: ExceptionFrame) -> Seq<u8> {
    let ec = spec_exception_class(f.esr);
    "  ELR  = ".spec_bytes() + hex_field(f.elr as nat, 18) + "  FAR  = ".spec_bytes() + hex_field(f.far as nat, 18)
        + "\n".spec_bytes()
        + "  ESR  = ".spec_bytes() + hex_field(f.esr as nat, 18) + "  SPSR = ".spec_bytes()
        + hex_field(f.spsr as nat, 18) + "\n".spec_bytes()
        + "  EC   = ".spec_bytes() + hex_field(ec as nat, 4) + " (".spec_bytes() + ec::spec_name(ec).spec_bytes()
        + ")  ISS = ".spec_bytes() + hex_field(spec_iss(f.esr) as nat, 10) + "\n".spec_bytes()
        + "  SP   = ".spec_bytes() + hex_field(f.sp as nat, 18) + "\n".spec_bytes()
        + reg_pair_lines(f.x@, 15)
        + "  x30 = ".spec_bytes() + hex_field(f.x@[30] as nat, 18) + "\n".spec_bytes()
}

impl ExceptionFrame {
    /// The frame as text, one field or register pair per line.
    pub fn render(&self) -> (t: Vec<u8>)
        ensures
            t@ == frame_text(*self),
    {
        let ec = esr_exception_class(self.esr);
        let iss = esr_instruction_specific_syndrome(self.esr);
        let mut out: Vec<u8> = Vec::new();
        push_slice(&mut out, "  ELR  = ".as_bytes());
        push_hex_field(&mut out, self.elr, 18);
        push_slice(&mut out, "  FAR  = ".as_bytes());
        push_hex_field(&mut out, self.far, 18);
        push_slice(&mut out, "\n".as_bytes());
        push_slice(&mut out, "  ESR  = ".as_bytes());
        push_hex_field(&mut out, self.esr, 18);
        push_slice(&mut out, "  SPSR = ".as_bytes());
        push_hex_field(&mut out, self.spsr, 18);
        push_slice(&mut out, "\n".as_bytes());
        push_slice(&mut out, "  EC   = ".as_bytes());
        push_hex_field(&mut out, ec as u64, 4);
        push_slice(&mut out, " (".as_bytes());
        push_slice(&mut out, ec::name(ec).as_bytes());
        push_slice(&mut out, ")  ISS = ".as_bytes());
        push_hex_field(&mut out, iss as u64, 10);
        push_slice(&mut out, "\n".as_bytes());
        push_slice(&mut out, "  SP   = ".as_bytes());
        push_hex_field(&mut out, self.sp, 18);
        push_slice(&mut out, "\n".as_bytes());
        push_reg_pairs(&mut out, &self.x);
        push_slice(&mut out, "  x30 = ".as_bytes());
        push_hex_field(&mut out, self.x[30], 18);
        push_slice(&mut out, "\n".as_bytes());
        assert(out@ =~= frame_text(*self));
        out
    }
}

/// The class is a data or instruction abort (from EL0 or EL1).
pub open spec fn is_abort(ec: u8) -> bool {
    ec == ec::DATA_ABORT_EL0 || ec == ec::DATA_ABORT_EL1 || ec == ec::INSTRUCTION_ABORT_EL0
        || ec == ec::INSTRUCTION_ABORT_EL1
}

/// The fault line of an abort: the fault status, and for data aborts
/// whether a read or a write caused it.
pub open spec fn fault_line(ec: u8, iss: u32) -> Seq<u8> {
    let rw = if ec == ec::DATA_ABORT_EL0 || ec == ec::DATA_ABORT_EL1 {
        if iss & 0x40u32 != 0 { " (write)" } else { " (read)" }
    } else {
        ""
    };
    "  Fault: ".spec_bytes() + spec_fault_status(iss).spec_bytes() + rw.spec_bytes() + "\n".spec_bytes()
}

/// The fault report shown on the panic screen for a frame: class and name,
/// ELR, FAR, ESR and SPSR, the fault line for aborts, and the registers.
pub open spec fn console_report(f: ExceptionFrame) -> Seq<u8> {
    let ec = spec_exception_class(f.esr);
    let iss = spec_iss(f.esr);
    "  EC  = ".spec_bytes() + hex_field(ec as nat, 4) + "  ".spec_bytes() + ec::spec_name(ec).spec_bytes()
        + "\n".spec_bytes()
        + "  ELR = ".spec_bytes() + hex_field(f.elr as nat, 18) + "\n".spec_bytes()
        + "  FAR = ".spec_bytes() + hex_field(f.far as nat, 18) + "\n".spec_bytes()
        + "  ESR = ".spec_bytes() + hex_field(f.esr as nat, 18) + "  SPSR = ".spec_bytes()
        + hex_field(f.spsr as nat, 18) + "\n".spec_bytes()
        + (if is_abort(ec) { fault_line(ec, iss) } else { Seq::empty() })
        + "\n  General-purpose registers:\n".spec_bytes()
        + reg_pair_lines(f.x@, 15)
        + "  x30 = ".spec_bytes() + hex_field(f.x@[30] as nat, 18) + "  SP  = ".spec_bytes()
        + hex_field(f.sp as nat, 18) + "\n".spec_bytes()
}

/// The fault report printed on the panic screen after an unrecoverable
/// exception.
pub fn exception_console_report(frame: &ExceptionFrame) -> (t: Vec<u8>)
    ensures
        t@ == console_report(*frame),
{
    let ec = esr_exception_class(frame.esr);
    let iss = esr_instruction_specific_syndrome(frame.esr);
    let mut out: Vec<u8> = Vec::new();
    push_slice(&mut out, "  EC  = ".as_bytes());
    push_hex_field(&mut out, ec as u64, 4);
    push_slice(&mut out, "  ".as_bytes());
    push_slice(&mut out, ec::name(ec).as_bytes());
    push_slice(&mut out, "\n".as_bytes());
    push_slice(&mut out, "  ELR = ".as_bytes());
    push_hex_field(&mut out, frame.elr, 18);
    push_slice(&mut out, "\n".as_bytes());
    push_slice(&mut out, "  FAR = ".as_bytes());
    push_hex_field(&mut out, frame.far, 18);
    push_slice(&mut out, "\n".as_bytes());
    push_slice(&mut out, "  ESR = ".as_bytes());
    push_hex_field(&mut out, frame.esr, 18);
    push_slice(&mut out, "  SPSR = ".as_bytes());
    push_hex_field(&mut out, frame.spsr, 18);
    push_slice(&mut out, "\n".as_bytes());
    let ghost head = out@;
    if ec == ec::DATA_ABORT_EL0 || ec == ec::DATA_ABORT_EL1 || ec == ec::INSTRUCTION_ABORT_EL0
        || ec == ec::INSTRUCTION_ABORT_EL1 {
        let fault_str = describe_fault_status(iss);
        let rw = if ec == ec::DATA_ABORT_EL0 || ec == ec::DATA_ABORT_EL1 {
            if iss_is_write(iss) { " (write)" } else { " (read)" }
        } else {
            ""
        };
        push_slice(&mut out, "  Fault: ".as_bytes());
        push_slice(&mut out, fault_str.as_bytes());
        push_slice(&mut out, rw.as_bytes());
        push_slice(&mut out, "\n".as_bytes());
        assert(out@ =~= head + fault_line(ec, iss));
    } else {
        assert(out@ =~= head + Seq::<u8>::empty());
    }
    push_slice(&mut out, "\n  General-purpose registers:\n".as_bytes());
    push_reg_pairs(&mut out, &frame.x);
    push_slice(&mut out, "  x30 = ".as_bytes());
    push_hex_field(&mut out, frame.x[30], 18);
    push_slice(&mut out, "  SP  = ".as_bytes());
    push_hex_field(&mut out, frame.sp, 18);
    push_slice(&mut out, "\n".as_bytes());
    assert(out@ =~= console_report(*frame));
    out
}

/// What the EL1 synchronous exception handler does.
#[derive(Clone, Copy, Debug, PartialEq, Eq, Structural)]
pub enum El1SyncAction {
    /// A kernel breakpoint: step over the 4-byte BRK and continue.
    SkipBreakpoint,
    /// Anything else is a kernel fault: report and halt.
    Fatal,
}

/// Decide how to handle a synchronous exception taken from EL1.
pub fn el1_sync_action(esr: u64) -> (a: El1SyncAction)
    ensures
        a == (if spec_exception_class(esr) == ec::BREAKPOINT { El1SyncAction::SkipBreakpoint } else { El1SyncAction::Fatal }),
{
    if esr_exception_class(esr) == ec::BREAKPOINT {
        El1SyncAction::SkipBreakpoint
    } else {
        El1SyncAction::Fatal
    }
}

/// Step the frame's return address over a 4-byte BRK instruction.
pub fn skip_breakpoint(frame: &mut ExceptionFrame)
    requires
        old(frame).elr + 4 <= u64::MAX,
    ensures
        *final(frame) == (ExceptionFrame { elr: (old(frame).elr + 4) as u64, ..*old(frame) }),
{
    frame.elr = frame.elr + 4;
}

/// What the EL0 synchronous exception handler does.
#[derive(Clone, Copy, Debug, PartialEq, Eq, Structural)]
pub enum El0SyncAction {
    /// An SVC: dispatch system call `number` (the SVC immediate, ISS[15:0]).
    Syscall { number: u64 },
    /// A user data or instruction abort: try to recover the page fault,
    /// else deliver SIGSEGV.
    UserFault { far: u64, iss: u32, is_data: bool },
    /// Anything else: report and halt.
    Fatal,
}

/// Decide how to handle a synchronous exception taken from EL0.
pub fn el0_sync_action(esr: u64, far: u64) -> (a: El0SyncAction)
    ensures
        a == (if spec_exception_class(esr) == ec::SVC_AARCH64 {
            El0SyncAction::Syscall { number: esr & 0xFFFFu64 }
        } else if spec_exception_class(esr) == ec::DATA_ABORT_EL0
            || spec_exception_class(esr) == ec::INSTRUCTION_ABORT_EL0 {
            El0SyncAction::UserFault {
                far,
                iss: spec_iss(esr),
                is_data: spec_exception_class(esr) == ec::DATA_ABORT_EL0,
            }
        } else {
            El0SyncAction::Fatal
        }),
{
    let class = esr_exception_class(esr);
    if class == ec::SVC_AARCH64 {
        El0SyncAction::Syscall { number: esr & 0xFFFFu64 }
    } else if class == ec::DATA_ABORT_EL0 || class == ec::INSTRUCTION_ABORT_EL0 {
        let iss = esr_instruction_specific_syndrome(esr);
        El0SyncAction::UserFault { far, iss, is_data: class == ec::DATA_ABORT_EL0 }
    } else {
        El0SyncAction::Fatal
    }
}

} // verus!
