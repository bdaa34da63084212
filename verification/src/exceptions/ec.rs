//! Exception Class values of ESR_EL1 (ARM ARM D13.2.36, table D13-3).

use vstd::prelude::*;

verus! {

/// Unknown reason.
pub const UNKNOWN: u8 = 0x00;
/// Trapped WFI/WFE instruction.
pub const WFX_TRAPPED: u8 = 0x01;
/// Illegal execution state.
pub const ILLEGAL_STATE: u8 = 0x0E;
/// SVC instruction executed in AArch64.
pub const SVC_AARCH64: u8 = 0x15;
/// Trapped MSR/MRS/system instruction.
pub const MSR_MRS_SYSTEM: u8 = 0x18;
/// Instruction abort from EL0.
pub const INSTRUCTION_ABORT_EL0: u8 = 0x20;
/// Instruction abort from EL1.
pub const INSTRUCTION_ABORT_EL1: u8 = 0x21;
/// PC alignment fault.
pub const PC_ALIGNMENT: u8 = 0x22;
/// Data abort from EL0.
pub const DATA_ABORT_EL0: u8 = 0x24;
/// Data abort from EL1.
pub const DATA_ABORT_EL1: u8 = 0x25;
/// SP alignment fault.
pub const SP_ALIGNMENT: u8 = 0x26;
/// SError interrupt.
pub const SERROR: u8 = 0x2F;
/// Breakpoint instruction (BRK).
pub const BREAKPOINT: u8 = 0x3C;

/// Human-readable name of an EC value.
pub open spec fn spec_name(ec: u8) -> &'static str {
    if ec == UNKNOWN {
        "Unknown"
    } else if ec == WFX_TRAPPED {
        "WFI/WFE trapped"
    } else if ec == ILLEGAL_STATE {
        "Illegal execution state"
    } else if ec == SVC_AARCH64 {
        "SVC (AArch64)"
    } else if ec == MSR_MRS_SYSTEM {
        "MSR/MRS/System instruction"
    } else if ec == INSTRUCTION_ABORT_EL0 {
        "Instruction abort (EL0)"
    } else if ec == INSTRUCTION_ABORT_EL1 {
        "Instruction abort (EL1)"
    } else if ec == PC_ALIGNMENT {
        "PC alignment fault"
    } else if ec == DATA_ABORT_EL0 {
        "Data abort (EL0)"
    } else if ec == DATA_ABORT_EL1 {
        "Data abort (EL1)"
    } else if ec == SP_ALIGNMENT {
        "SP alignment fault"
    } else if ec == SERROR {
        "SError"
    } else if ec == BREAKPOINT {
        "Breakpoint (BRK)"
    } else {
        "Reserved/unknown EC"
    }
}

/// Human-readable name for an EC value.
pub fn name(ec: u8) -> (s: &'static str)
    ensures
        s == spec_name(ec),
{
    if ec == UNKNOWN {
        "Unknown"
    } else if ec == WFX_TRAPPED {
        "WFI/WFE trapped"
    } else if ec == ILLEGAL_STATE {
        "Illegal execution state"
    } else if ec == SVC_AARCH64 {
        "SVC (AArch64)"
    } else if ec == MSR_MRS_SYSTEM {
        "MSR/MRS/System instruction"
    } else if ec == INSTRUCTION_ABORT_EL0 {
        "Instruction abort (EL0)"
    } else if ec == INSTRUCTION_ABORT_EL1 {
        "Instruction abort (EL1)"
    } else if ec == PC_ALIGNMENT {
        "PC alignment fault"
    } else if ec == DATA_ABORT_EL0 {
        "Data abort (EL0)"
    } else if ec == DATA_ABORT_EL1 {
        "Data abort (EL1)"
    } else if ec == SP_ALIGNMENT {
        "SP alignment fault"
    } else if ec == SERROR {
        "SError"
    } else if ec == BREAKPOINT {
        "Breakpoint (BRK)"
    } else {
        "Reserved/unknown EC"
    }
}

} // verus!
