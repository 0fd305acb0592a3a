//! The decoded form of a CDP1802 instruction, as the executor consumes it.
//!
//! Decoding bytes into these values is the job of the instruction-set crate;
//! the executor receives them already decoded and only relies on the plain
//! values held here.

use vstd::prelude::*;

verus! {

/// One of the sixteen scratchpad registers `R0..RF`.
#[derive(Clone, Copy, Debug, PartialEq, Eq)]
pub struct Reg {
    index: u8,
}

impl Reg {
    #[verifier::type_invariant]
    spec fn wf(self) -> bool {
        self.index < 16
    }

    /// Register `n & 0x0F`.
    pub fn new_masked(n: u8) -> (reg: Reg)
        ensures
            reg@ == n % 16,
    {
        let index = n & 0x0F;
        assert(n & 0x0F == n % 16 && n % 16 < 16) by (bit_vector);
        Reg { index }
    }

    /// The register number, always below 16.
    pub fn index_u8(&self) -> (index: u8)
        ensures
            index == self@,
            index < 16,
    {
        proof {
            use_type_invariant(self);
        }
        self.index
    }
}

impl View for Reg {
    type V = u8;

    closed spec fn view(&self) -> u8 {
        self.index
    }
}

/// The four external flag inputs `EF1..EF4`.
#[derive(Clone, Copy, Debug, PartialEq, Eq)]
pub enum ExternalFlag {
    Ef1,
    Ef2,
    Ef3,
    Ef4,
}

impl ExternalFlag {
    /// Position of the flag in `CpuState::ef` (`EF1` is at 0).
    pub open spec fn slot(self) -> int {
        match self {
            ExternalFlag::Ef1 => 0,
            ExternalFlag::Ef2 => 1,
            ExternalFlag::Ef3 => 2,
            ExternalFlag::Ef4 => 3,
        }
    }

    pub(crate) fn slot_index(&self) -> (i: usize)
        ensures
            i == self.slot(),
            i < 4,
    {
        match self {
            ExternalFlag::Ef1 => 0,
            ExternalFlag::Ef2 => 1,
            ExternalFlag::Ef3 => 2,
            ExternalFlag::Ef4 => 3,
        }
    }
}

/// Condition tested by the long branch group (`LBR`, `LBQ`, ...).
#[derive(Clone, Copy, Debug, PartialEq, Eq)]
pub enum LongBranchCondition {
    Always,
    Q,
    Zero,
    DataFlag,
    NotQ,
    NotZero,
    NotDataFlag,
}

/// Condition tested by the long skip group (`LSKP`, `LSQ`, ...).
#[derive(Clone, Copy, Debug, PartialEq, Eq)]
pub enum LongSkipCondition {
    Always,
    Q,
    Zero,
    DataFlag,
    NotQ,
    NotZero,
    NotDataFlag,
    InterruptEnabled,
}

/// A decoded CDP1802 instruction.
#[allow(inconsistent_fields)]
#[derive(Clone, Copy, Debug, PartialEq, Eq)]
pub enum Instruction {
    Idle,
    Increment { reg: Reg },
    LoadVia { reg: Reg },
    Decrement { reg: Reg },
    Branch { target: u8 },
    BranchQ { expected: bool, target: u8 },
    BranchZero { expected: bool, target: u8 },
    BranchDataFlag { expected: bool, target: u8 },
    BranchExternalFlag { flag: ExternalFlag, expected: bool, target: u8 },
    ShortSkip,
    LoadAdvance { reg: Reg },
    Store { reg: Reg },
    Irx,
    Output { port: u8 },
    Input { port: u8 },
    Reserved68,
    Return,
    DisableInterrupt,
    LoadViaXAdvance,
    StoreViaXDecrement,
    AddWithCarry,
    SubtractDWithBorrow,
    ShiftRightWithCarry,
    SubtractMemoryWithBorrow,
    Save,
    Mark,
    ResetQ,
    SetQ,
    GetLow { reg: Reg },
    GetHigh { reg: Reg },
    PutLow { reg: Reg },
    PutHigh { reg: Reg },
    LoadImmediate { value: u8 },
    AddWithCarryImmediate { value: u8 },
    SubtractDWithBorrowImmediate { value: u8 },
    ShiftLeftWithCarry,
    SubtractMemoryWithBorrowImmediate { value: u8 },
    LongBranch { condition: LongBranchCondition, target: u16 },
    NoOperation,
    LongSkip { condition: LongSkipCondition },
    SetP { reg: Reg },
    SetX { reg: Reg },
    LoadViaX,
    Or,
    And,
    Xor,
    Add,
    SubtractDNoBorrow,
    ShiftRight,
    SubtractMemoryNoBorrow,
    AddImmediate { value: u8 },
    OrImmediate { value: u8 },
    AndImmediate { value: u8 },
    XorImmediate { value: u8 },
    SubtractDImmediateNoBorrow { value: u8 },
    ShiftLeft,
    SubtractMemoryNoBorrowImmediate { value: u8 },
}

/// Bytes that the instruction decoder could not turn into an instruction.
#[derive(Clone, Copy, Debug, PartialEq, Eq)]
pub struct DecodeError {
    pub bytes: [u8; 3],
}

} // verus!
