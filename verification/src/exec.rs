//! Instruction execution.
//!
//! The executor is handed its instruction decoder: a function from the three
//! bytes at the program counter to the decoded instruction and its length.

use vstd::prelude::*;

use crate::board::{BoardIo, FrontPanel, JoystickRcBoard};
use crate::isa::{DecodeError, Instruction, LongBranchCondition, LongSkipCondition};
use crate::memory::{byte_at, stored, window, Memory};
use crate::state::{
    add16, advanced, ef_of, pc_of, reg_of, sub16, with_pc, with_reg, CpuState,
};

verus! {

#[derive(Debug, Clone, Copy, PartialEq, Eq)]
pub enum ExecError {
    /// The CPU executed `IDL` and stays stopped.
    Halted,
    /// The bytes at the program counter do not decode.
    Decode(DecodeError),
}

impl From<DecodeError> for ExecError {
    fn from(value: DecodeError) -> (err: Self) {
        ExecError::Decode(value)
    }
}

impl vstd::std_specs::convert::FromSpecImpl<DecodeError> for ExecError {
    open spec fn obeys_from_spec() -> bool {
        true
    }

    open spec fn from_spec(value: DecodeError) -> Self {
        ExecError::Decode(value)
    }
}

// ---------------------------------------------------------------------------
// The meaning of each instruction.
// ---------------------------------------------------------------------------

/// `R(X)`.
pub open spec fn rx_of(s: CpuState) -> u16 {
    reg_of(s, s.x)
}

/// `M(R(X))`.
pub open spec fn mx_of(s: CpuState, m: Seq<u8>) -> u8 {
    byte_at(m, rx_of(s) as int)
}

/// `s` with `D` replaced by `d`.
pub open spec fn with_d(s: CpuState, d: u8) -> CpuState {
    CpuState { d, ..s }
}

/// 1 for `true`, 0 for `false`.
pub open spec fn bit(b: bool) -> int {
    if b {
        1
    } else {
        0
    }
}

/// `D + value + carry` into `D`, the carry out into `DF`.
pub open spec fn added(s: CpuState, value: u8, carry: bool) -> CpuState {
    let sum = s.d + value + bit(carry);
    CpuState { d: (sum % 256) as u8, df: sum > 255, ..s }
}

/// `minuend - subtrahend - borrow` into `D`; `DF` is set when no borrow
/// out occurred.
pub open spec fn subtracted(s: CpuState, minuend: u8, subtrahend: u8, borrow: bool) -> CpuState {
    let taken = subtrahend + bit(borrow);
    CpuState { d: ((minuend - taken) % 256) as u8, df: minuend >= taken, ..s }
}

/// Short branch: the low byte of the program counter becomes `target`,
/// the page (high byte) stays.
pub open spec fn branched(s: CpuState, target: u8) -> CpuState {
    with_pc(s, ((pc_of(s) / 256) * 256 + target) as u16)
}

/// `s` branched to `target` when `taken`, unchanged otherwise.
pub open spec fn branch_if(s: CpuState, taken: bool, target: u8) -> CpuState {
    if taken {
        branched(s, target)
    } else {
        s
    }
}

pub open spec fn long_branch_taken(s: CpuState, condition: LongBranchCondition) -> bool {
    match condition {
        LongBranchCondition::Always => true,
        LongBranchCondition::Q => s.q,
        LongBranchCondition::Zero => s.d == 0,
        LongBranchCondition::DataFlag => s.df,
        LongBranchCondition::NotQ => !s.q,
        LongBranchCondition::NotZero => s.d != 0,
        LongBranchCondition::NotDataFlag => !s.df,
    }
}

pub open spec fn long_skip_taken(s: CpuState, condition: LongSkipCondition) -> bool {
    match condition {
        LongSkipCondition::Always => true,
        LongSkipCondition::Q => s.q,
        LongSkipCondition::Zero => s.d == 0,
        LongSkipCondition::DataFlag => s.df,
        LongSkipCondition::NotQ => !s.q,
        LongSkipCondition::NotZero => s.d != 0,
        LongSkipCondition::NotDataFlag => !s.df,
        LongSkipCondition::InterruptEnabled => s.interrupt_enabled,
    }
}

/// `RET`/`DIS` without the interrupt-enable update: `X` and `P` are
/// reloaded from the byte at `R(X)` (high and low nibble), after `R(X)` is
/// incremented.
pub open spec fn restored_xp(s: CpuState, m: Seq<u8>) -> CpuState {
    let value = mx_of(s, m);
    let s1 = with_reg(s, s.x, add16(rx_of(s) as int, 1));
    CpuState { x: value / 16, p: value % 16, ..s1 }
}

/// The byte `MARK` saves: `X` in the high nibble, `P` in the low one.
pub open spec fn mark_byte(s: CpuState) -> u8 {
    ((s.x % 16) * 16 + s.p % 16) as u8
}

proof fn lemma_mark_byte(x: u8, p: u8)
    ensures
        ((x & 0x0F) << 4u8) | (p & 0x0F) == ((x % 16) * 16 + p % 16) as u8,
{
    assert(((x & 0x0F) << 4u8) | (p & 0x0F) == (x % 16) * 16 + p % 16) by (bit_vector);
}

/// The byte the board presents to `INP port`; 0 when there is no board.
pub open spec fn input_byte<B: BoardIo>(board: Option<B>, port: u8) -> u8 {
    match board {
        Some(b) => b.input_value(port),
        None => 0,
    }
}

/// The CPU state after `insn`, other than `OUT` and `INP`, runs on `s`
/// with memory `m`.
pub open spec fn cpu_state(s: CpuState, m: Seq<u8>, insn: Instruction) -> CpuState {
    match insn {
        Instruction::Idle => CpuState { halted: true, ..s },
        Instruction::Increment { reg } => with_reg(s, reg@, add16(reg_of(s, reg@) as int, 1)),
        Instruction::LoadVia { reg } => with_d(s, byte_at(m, reg_of(s, reg@) as int)),
        Instruction::Decrement { reg } => with_reg(s, reg@, sub16(reg_of(s, reg@) as int, 1)),
        Instruction::Branch { target } => branched(s, target),
        Instruction::BranchQ { expected, target } => branch_if(s, s.q == expected, target),
        Instruction::BranchZero { expected, target } => branch_if(
            s,
            (s.d == 0) == expected,
            target,
        ),
        Instruction::BranchDataFlag { expected, target } => branch_if(
            s,
            s.df == expected,
            target,
        ),
        Instruction::BranchExternalFlag { flag, expected, target } => branch_if(
            s,
            ef_of(s, flag) == expected,
            target,
        ),
        Instruction::ShortSkip => s,
        Instruction::LoadAdvance { reg } => with_reg(
            with_d(s, byte_at(m, reg_of(s, reg@) as int)),
            reg@,
            add16(reg_of(s, reg@) as int, 1),
        ),
        Instruction::Store { reg } => s,
        Instruction::Irx => with_reg(s, s.x, add16(rx_of(s) as int, 1)),
        Instruction::Reserved68 => s,
        Instruction::Return => CpuState { interrupt_enabled: true, ..restored_xp(s, m) },
        Instruction::DisableInterrupt => CpuState { interrupt_enabled: false, ..restored_xp(s, m) },
        Instruction::LoadViaXAdvance => with_reg(
            with_d(s, mx_of(s, m)),
            s.x,
            add16(rx_of(s) as int, 1),
        ),
        Instruction::StoreViaXDecrement => with_reg(s, s.x, sub16(rx_of(s) as int, 1)),
        Instruction::AddWithCarry => added(s, mx_of(s, m), s.df),
        Instruction::SubtractDWithBorrow => subtracted(s, mx_of(s, m), s.d, !s.df),
        Instruction::ShiftRightWithCarry => CpuState {
            df: s.d % 2 == 1,
            d: (s.d / 2 + 128 * bit(s.df)) as u8,
            ..s
        },
        Instruction::SubtractMemoryWithBorrow => subtracted(s, s.d, mx_of(s, m), !s.df),
        Instruction::Save => s,
        Instruction::Mark => {
            let s1 = CpuState { t: mark_byte(s), x: s.p % 16, ..s };
            with_reg(s1, 2, sub16(reg_of(s, 2) as int, 1))
        },
        Instruction::ResetQ => CpuState { q: false, ..s },
        Instruction::SetQ => CpuState { q: true, ..s },
        Instruction::GetLow { reg } => with_d(s, (reg_of(s, reg@) % 256) as u8),
        Instruction::GetHigh { reg } => with_d(s, (reg_of(s, reg@) / 256) as u8),
        Instruction::PutLow { reg } => with_reg(
            s,
            reg@,
            ((reg_of(s, reg@) / 256) * 256 + s.d) as u16,
        ),
        Instruction::PutHigh { reg } => with_reg(
            s,
            reg@,
            (s.d * 256 + reg_of(s, reg@) % 256) as u16,
        ),
        Instruction::LoadImmediate { value } => with_d(s, value),
        Instruction::AddWithCarryImmediate { value } => added(s, value, s.df),
        Instruction::SubtractDWithBorrowImmediate { value } => subtracted(s, value, s.d, !s.df),
        Instruction::ShiftLeftWithCarry => CpuState {
            df: s.d >= 128,
            d: ((s.d * 2) % 256 + bit(s.df)) as u8,
            ..s
        },
        Instruction::SubtractMemoryWithBorrowImmediate { value } => subtracted(
            s,
            s.d,
            value,
            !s.df,
        ),
        Instruction::LongBranch { condition, target } => if long_branch_taken(s, condition) {
            with_pc(s, target)
        } else {
            s
        },
        Instruction::NoOperation => s,
        Instruction::LongSkip { condition } => if long_skip_taken(s, condition) {
            advanced(s, 2)
        } else {
            s
        },
        Instruction::SetP { reg } => CpuState { p: reg@, ..s },
        Instruction::SetX { reg } => CpuState { x: reg@, ..s },
        Instruction::LoadViaX => with_d(s, mx_of(s, m)),
        Instruction::Or => with_d(s, s.d | mx_of(s, m)),
        Instruction::And => with_d(s, s.d & mx_of(s, m)),
        Instruction::Xor => with_d(s, s.d ^ mx_of(s, m)),
        Instruction::Add => added(s, mx_of(s, m), false),
        Instruction::SubtractDNoBorrow => subtracted(s, mx_of(s, m), s.d, false),
        Instruction::ShiftRight => CpuState { df: s.d % 2 == 1, d: s.d / 2, ..s },
        Instruction::SubtractMemoryNoBorrow => subtracted(s, s.d, mx_of(s, m), false),
        Instruction::AddImmediate { value } => added(s, value, false),
        Instruction::OrImmediate { value } => with_d(s, s.d | value),
        Instruction::AndImmediate { value } => with_d(s, s.d & value),
        Instruction::XorImmediate { value } => with_d(s, s.d ^ value),
        Instruction::SubtractDImmediateNoBorrow { value } => subtracted(s, value, s.d, false),
        Instruction::ShiftLeft => CpuState { df: s.d >= 128, d: ((s.d * 2) % 256) as u8, ..s },
        Instruction::SubtractMemoryNoBorrowImmediate { value } => subtracted(s, s.d, value, false),
        _ => s,
    }
}

/// The CPU state after `insn` runs on `s`, with memory `m` and `board`.
pub open spec fn exec_state<B: BoardIo>(
    s: CpuState,
    m: Seq<u8>,
    board: Option<B>,
    insn: Instruction,
) -> CpuState {
    match insn {
        Instruction::Output { port } => with_reg(s, s.x, add16(rx_of(s) as int, 1)),
        Instruction::Input { port } => with_d(s, input_byte(board, port)),
        _ => cpu_state(s, m, insn),
    }
}

/// The memory after `insn`, other than `INP`, runs on `s` with memory `m`.
pub open spec fn cpu_memory(s: CpuState, m: Seq<u8>, insn: Instruction) -> Seq<u8> {
    match insn {
        Instruction::Store { reg } => stored(m, reg_of(s, reg@) as int, s.d),
        Instruction::StoreViaXDecrement => stored(m, rx_of(s) as int, s.d),
        Instruction::Save => stored(m, rx_of(s) as int, s.t),
        Instruction::Mark => stored(m, reg_of(s, 2) as int, mark_byte(s)),
        _ => m,
    }
}

/// The memory after `insn` runs on `s` with memory `m` and `board`.
pub open spec fn exec_memory<B: BoardIo>(
    s: CpuState,
    m: Seq<u8>,
    board: Option<B>,
    insn: Instruction,
) -> Seq<u8> {
    match insn {
        Instruction::Input { port } => stored(m, rx_of(s) as int, input_byte(board, port)),
        _ => cpu_memory(s, m, insn),
    }
}

/// The board after `insn` runs on `s` with memory `m`: only `OUT` reaches
/// it, handing it `M(R(X))`.
pub open spec fn exec_board<B: BoardIo>(
    s: CpuState,
    m: Seq<u8>,
    board: Option<B>,
    insn: Instruction,
) -> Option<B> {
    match insn {
        Instruction::Output { port } => match board {
            Some(b) => Some(b.after_output(port, mx_of(s, m))),
            None => None,
        },
        _ => board,
    }
}

// ---------------------------------------------------------------------------
// The meaning of a step.
// ---------------------------------------------------------------------------

/// The state a step decodes from: the board has driven its inputs.
pub open spec fn synced<B: BoardIo>(s: CpuState, board: Option<B>) -> CpuState {
    match board {
        Some(b) => b.inputs_synced(s),
        None => s,
    }
}

/// The board after it samples the outputs of `s` and sees the instruction end.
pub open spec fn sampled<B: BoardIo>(board: Option<B>, s: CpuState) -> Option<B> {
    match board {
        Some(b) => Some(b.outputs_synced(s).after_tick()),
        None => None,
    }
}

/// `s` once the instruction has been fetched: the program counter moved past
/// its `size` bytes and the instruction counted.
pub open spec fn fetched_past(s: CpuState, size: u16) -> CpuState {
    CpuState { instr_count: (s.instr_count + 1) as u64, ..advanced(s, size) }
}

/// What a step does from the synced state `s` once the decoder returned
/// `decoded`: `(s2, m2, b2)` is the outcome and `r` the result.
pub open spec fn completes<B: BoardIo>(
    s: CpuState,
    m: Seq<u8>,
    b: Option<B>,
    decoded: Result<(Instruction, u16), DecodeError>,
    s2: CpuState,
    m2: Seq<u8>,
    b2: Option<B>,
    r: Result<(), ExecError>,
) -> bool {
    match decoded {
        Err(e) => s2 == s && m2 == m && b2 == b && r == Err::<(), ExecError>(ExecError::Decode(e)),
        Ok((insn, size)) => {
            let s1 = fetched_past(s, size);
            let se = exec_state(s1, m, b, insn);
            &&& s2 == se
            &&& m2 == exec_memory(s1, m, b, insn)
            &&& b2 == sampled(exec_board(s1, m, b, insn), se)
            &&& r == Ok::<(), ExecError>(())
        },
    }
}

/// `decode` may answer `decoded` for the three bytes of `m` from `addr` on.
pub open spec fn decodes_to<F: Fn([u8; 3]) -> Result<(Instruction, u16), DecodeError>>(
    decode: F,
    m: Seq<u8>,
    addr: u16,
    decoded: Result<(Instruction, u16), DecodeError>,
) -> bool {
    call_ensures(decode, (window(m, addr),), decoded)
}

/// One step of the CPU from `(s, m, b)` to `(s2, m2, b2)` with result `r`: a
/// halted CPU refuses; otherwise the board drives its inputs, the
/// instruction at the program counter is decoded, and it runs. (Opaque:
/// `reveal(steps_once)` to unfold it.)
#[verifier::opaque]
pub open spec fn steps_once<B: BoardIo, F: Fn([u8; 3]) -> Result<(Instruction, u16), DecodeError>>(
    decode: F,
    s: CpuState,
    m: Seq<u8>,
    b: Option<B>,
    s2: CpuState,
    m2: Seq<u8>,
    b2: Option<B>,
    r: Result<(), ExecError>,
) -> bool {
    if s.halted {
        s2 == s && m2 == m && b2 == b && r == Err::<(), ExecError>(ExecError::Halted)
    } else {
        let s0 = synced(s, b);
        exists|d: Result<(Instruction, u16), DecodeError>|
            #[trigger] decodes_to(decode, m, pc_of(s0), d) && completes(s0, m, b, d, s2, m2, b2, r)
    }
}

/// What a caller must ensure for a step not to overflow the instruction
/// counter.
pub open spec fn can_count<B: BoardIo>(s: CpuState, b: Option<B>) -> bool {
    !s.halted ==> synced(s, b).instr_count < u64::MAX
}

/// `decode` accepts every triple of bytes.
pub open spec fn decoder_total<F: Fn([u8; 3]) -> Result<(Instruction, u16), DecodeError>>(decode: F) -> bool {
    forall|b: [u8; 3]| call_requires(decode, (b,))
}

/// `decode` is a function of its bytes: it never gives two answers for the
/// same three bytes.
pub open spec fn decoder_functional<F: Fn([u8; 3]) -> Result<(Instruction, u16), DecodeError>>(decode: F) -> bool {
    forall|b: [u8; 3], d1: Result<(Instruction, u16), DecodeError>, d2: Result<(Instruction, u16), DecodeError>|
        #[trigger] call_ensures(decode, (b,), d1) && #[trigger] call_ensures(decode, (b,), d2) ==> d1 == d2
}

// ---------------------------------------------------------------------------
// Execution.
// ---------------------------------------------------------------------------

proof fn lemma_low_nibble(v: u8)
    ensures
        v & 0x0F == v % 16,
{
    assert(v & 0x0F == v % 16) by (bit_vector);
}

fn add_into_d(state: &mut CpuState, value: u8, carry: bool)
    ensures
        *final(state) == added(*old(state), value, carry),
{
    let c: u16 = if carry { 1 } else { 0 };
    let sum: u16 = state.d as u16 + value as u16 + c;
    assert((sum as u8) == sum % 256) by (bit_vector);
    state.d = sum as u8;
    state.df = sum > 0xFF;
}

fn subtract_into_d(state: &mut CpuState, minuend: u8, subtrahend: u8, borrow: bool)
    ensures
        *final(state) == subtracted(*old(state), minuend, subtrahend, borrow),
{
    let b: u16 = if borrow { 1 } else { 0 };
    let subtrahend: u16 = subtrahend as u16 + b;
    let minuend: u16 = minuend as u16;
    let diff: u16 = minuend.wrapping_sub(subtrahend);
    assert((diff as u8) == diff % 256) by (bit_vector);
    assert(diff % 256 == (minuend - subtrahend) % 256) by {
        if minuend < subtrahend {
            assert(diff == minuend - subtrahend + 0x10000);
            vstd::arithmetic::div_mod::lemma_mod_add_multiples_vanish(
                minuend - subtrahend,
                256,
            );
            assert((minuend - subtrahend + 256 * 256) % 256 == (minuend - subtrahend) % 256) by {
                vstd::arithmetic::div_mod::lemma_mod_multiples_vanish(
                    256,
                    minuend - subtrahend,
                    256,
                );
            }
        }
    }
    state.d = diff as u8;
    state.df = minuend >= subtrahend;
}

fn restore_xp_from_stack(state: &mut CpuState, mem: &Memory)
    ensures
        *final(state) == restored_xp(*old(state), mem@),
{
    let idx = state.x & 0x0F;
    proof {
        lemma_low_nibble(state.x);
        assert(idx % 16 == state.x % 16);
    }
    let value = mem.read_byte(state.read_reg(idx));
    let next = state.read_reg(idx).wrapping_add(1);
    state.write_reg(idx, next);
    assert(value >> 4 == value / 16 && value & 0x0F == value % 16) by (bit_vector);
    state.x = value >> 4;
    state.p = value & 0x0F;
}

fn long_branch_condition_matches(state: &CpuState, condition: LongBranchCondition) -> (taken: bool)
    ensures
        taken == long_branch_taken(*state, condition),
{
    match condition {
        LongBranchCondition::Always => true,
        LongBranchCondition::Q => state.q,
        LongBranchCondition::Zero => state.d == 0,
        LongBranchCondition::DataFlag => state.df,
        LongBranchCondition::NotQ => !state.q,
        LongBranchCondition::NotZero => state.d != 0,
        LongBranchCondition::NotDataFlag => !state.df,
    }
}

fn long_skip_condition_matches(state: &CpuState, condition: LongSkipCondition) -> (taken: bool)
    ensures
        taken == long_skip_taken(*state, condition),
{
    match condition {
        LongSkipCondition::Always => true,
        LongSkipCondition::Q => state.q,
        LongSkipCondition::Zero => state.d == 0,
        LongSkipCondition::DataFlag => state.df,
        LongSkipCondition::NotQ => !state.q,
        LongSkipCondition::NotZero => state.d != 0,
        LongSkipCondition::NotDataFlag => !state.df,
        LongSkipCondition::InterruptEnabled => state.interrupt_enabled,
    }
}

/// Short branch to `target` within the current page.
fn branch_in_page(state: &mut CpuState, target: u8)
    ensures
        *final(state) == branched(*old(state), target),
{
    let pc = state.pc();
    let high = pc & 0xFF00;
    let dest = high | target as u16;
    assert(dest == (pc / 256) * 256 + target) by (bit_vector)
        requires
            high == pc & 0xFF00,
            dest == high | target as u16,
    ;
    state.set_pc(dest);
}

/// Instructions that work on `D` and `DF` only.
pub open spec fn is_alu(insn: Instruction) -> bool {
    match insn {
        Instruction::AddWithCarry
        | Instruction::SubtractDWithBorrow
        | Instruction::ShiftRightWithCarry
        | Instruction::SubtractMemoryWithBorrow
        | Instruction::AddWithCarryImmediate { .. }
        | Instruction::SubtractDWithBorrowImmediate { .. }
        | Instruction::ShiftLeftWithCarry
        | Instruction::SubtractMemoryWithBorrowImmediate { .. }
        | Instruction::LoadViaX
        | Instruction::Or
        | Instruction::And
        | Instruction::Xor
        | Instruction::Add
        | Instruction::SubtractDNoBorrow
        | Instruction::ShiftRight
        | Instruction::SubtractMemoryNoBorrow
        | Instruction::AddImmediate { .. }
        | Instruction::OrImmediate { .. }
        | Instruction::AndImmediate { .. }
        | Instruction::XorImmediate { .. }
        | Instruction::SubtractDImmediateNoBorrow { .. }
        | Instruction::ShiftLeft
        | Instruction::SubtractMemoryNoBorrowImmediate { .. }
        | Instruction::LoadImmediate { .. } => true,
        _ => false,
    }
}

/// Instructions that move data between registers and memory.
pub open spec fn is_transfer(insn: Instruction) -> bool {
    match insn {
        Instruction::LoadVia { .. }
        | Instruction::LoadAdvance { .. }
        | Instruction::Store { .. }
        | Instruction::LoadViaXAdvance
        | Instruction::StoreViaXDecrement
        | Instruction::Save
        | Instruction::Mark
        | Instruction::Return
        | Instruction::DisableInterrupt => true,
        _ => false,
    }
}

/// Runs an arithmetic, logic, shift or load-into-`D` instruction.
#[verifier::spinoff_prover]
fn exec_alu(state: &mut CpuState, mem: &Memory, insn: Instruction)
    requires
        is_alu(insn),
    ensures
        *final(state) == cpu_state(*old(state), mem@, insn),
{
    proof {
        lemma_low_nibble(state.x);
        lemma_low_nibble(state.p);
    }
    match insn {
        Instruction::AddWithCarry => {
            let value = mem.read_byte(state.read_reg(state.x));
            let carry = state.df;
            add_into_d(state, value, carry);
        },
        Instruction::SubtractDWithBorrow => {
            let value = mem.read_byte(state.read_reg(state.x));
            let d = state.d;
            let borrow = !state.df;
            subtract_into_d(state, value, d, borrow);
        },
        Instruction::ShiftRightWithCarry => {
            let carry_in = state.df;
            let d = state.d;
            let high: u8 = if carry_in { 0x80 } else { 0 };
            assert((d & 0x01 != 0) == (d % 2 == 1)) by (bit_vector);
            assert(((d >> 1) | 0x80u8) == d / 2 + 128 && ((d >> 1) | 0u8) == d / 2) by (bit_vector);
            state.df = d & 0x01 != 0;
            state.d = (d >> 1) | high;
        },
        Instruction::SubtractMemoryWithBorrow => {
            let value = mem.read_byte(state.read_reg(state.x));
            let d = state.d;
            let borrow = !state.df;
            subtract_into_d(state, d, value, borrow);
        },
        Instruction::AddWithCarryImmediate { value } => {
            let carry = state.df;
            add_into_d(state, value, carry);
        },
        Instruction::SubtractDWithBorrowImmediate { value } => {
            let d = state.d;
            let borrow = !state.df;
            subtract_into_d(state, value, d, borrow);
        },
        Instruction::ShiftLeftWithCarry => {
            let carry_in = state.df;
            let d = state.d;
            let low: u8 = if carry_in { 1 } else { 0 };
            assert((d & 0x80 != 0) == (d >= 128)) by (bit_vector);
            assert((d << 1u32) == (d * 2) % 256) by (bit_vector);
            assert(low <= 1 ==> ((d << 1u32) | low) == (d * 2) % 256 + low) by (bit_vector);
            state.df = d & 0x80 != 0;
            state.d = d.wrapping_shl(1) | low;
        },
        Instruction::SubtractMemoryWithBorrowImmediate { value } => {
            let d = state.d;
            let borrow = !state.df;
            subtract_into_d(state, d, value, borrow);
        },
        Instruction::LoadViaX => {
            state.d = mem.read_byte(state.read_reg(state.x));
        },
        Instruction::Or => {
            state.d = state.d | mem.read_byte(state.read_reg(state.x));
        },
        Instruction::And => {
            state.d = state.d & mem.read_byte(state.read_reg(state.x));
        },
        Instruction::Xor => {
            state.d = state.d ^ mem.read_byte(state.read_reg(state.x));
        },
        Instruction::Add => {
            let value = mem.read_byte(state.read_reg(state.x));
            add_into_d(state, value, false);
        },
        Instruction::SubtractDNoBorrow => {
            let value = mem.read_byte(state.read_reg(state.x));
            let d = state.d;
            subtract_into_d(state, value, d, false);
        },
        Instruction::ShiftRight => {
            let d = state.d;
            assert((d & 0x01 != 0) == (d % 2 == 1) && d >> 1 == d / 2) by (bit_vector);
            state.df = d & 0x01 != 0;
            state.d = d >> 1;
        },
        Instruction::SubtractMemoryNoBorrow => {
            let value = mem.read_byte(state.read_reg(state.x));
            let d = state.d;
            subtract_into_d(state, d, value, false);
        },
        Instruction::AddImmediate { value } => {
            add_into_d(state, value, false);
        },
        Instruction::OrImmediate { value } => {
            state.d = state.d | value;
        },
        Instruction::AndImmediate { value } => {
            state.d = state.d & value;
        },
        Instruction::XorImmediate { value } => {
            state.d = state.d ^ value;
        },
        Instruction::SubtractDImmediateNoBorrow { value } => {
            let d = state.d;
            subtract_into_d(state, value, d, false);
        },
        Instruction::ShiftLeft => {
            let d = state.d;
            assert((d & 0x80 != 0) == (d >= 128)) by (bit_vector);
            assert((d << 1u32) == (d * 2) % 256) by (bit_vector);
            state.df = d & 0x80 != 0;
            state.d = d.wrapping_shl(1);
        },
        Instruction::SubtractMemoryNoBorrowImmediate { value } => {
            let d = state.d;
            subtract_into_d(state, d, value, false);
        },
        Instruction::LoadImmediate { value } => {
            state.d = value;
        },
        _ => {},
    }
}

/// Runs a memory transfer instruction.
#[verifier::spinoff_prover]
fn exec_transfer(state: &mut CpuState, mem: &mut Memory, insn: Instruction)
    requires
        is_transfer(insn),
    ensures
        *final(state) == cpu_state(*old(state), old(mem)@, insn),
        final(mem)@ == cpu_memory(*old(state), old(mem)@, insn),
{
    proof {
        lemma_low_nibble(state.x);
        lemma_low_nibble(state.p);
    }
    match insn {
        Instruction::LoadVia { reg } => {
            state.d = mem.read_byte(state.read_reg(reg.index_u8()));
        },
        Instruction::LoadAdvance { reg } => {
            let idx = reg.index_u8();
            let addr = state.read_reg(idx);
            state.d = mem.read_byte(addr);
            state.write_reg(idx, addr.wrapping_add(1));
        },
        Instruction::Store { reg } => {
            mem.write_byte(state.read_reg(reg.index_u8()), state.d);
        },
        Instruction::LoadViaXAdvance => {
            let idx = state.x & 0x0F;
            let addr = state.read_reg(idx);
            state.d = mem.read_byte(addr);
            state.write_reg(idx, addr.wrapping_add(1));
        },
        Instruction::StoreViaXDecrement => {
            let idx = state.x & 0x0F;
            let addr = state.read_reg(idx);
            mem.write_byte(addr, state.d);
            state.write_reg(idx, addr.wrapping_sub(1));
        },
        Instruction::Save => {
            mem.write_byte(state.read_reg(state.x), state.t);
        },
        Instruction::Mark => {
            let x: u8 = state.x;
            let p: u8 = state.p;
            let t: u8 = ((x & 0x0F) << 4u8) | (p & 0x0F);
            proof {
                lemma_mark_byte(x, p);
            }
            state.t = t;
            mem.write_byte(state.read_reg(2), t);
            state.x = state.p & 0x0F;
            let sp = state.read_reg(2).wrapping_sub(1);
            state.write_reg(2, sp);
        },
        Instruction::Return => {
            restore_xp_from_stack(state, mem);
            state.interrupt_enabled = true;
        },
        Instruction::DisableInterrupt => {
            restore_xp_from_stack(state, mem);
            state.interrupt_enabled = false;
        },
        _ => {},
    }
}

/// Instructions that touch neither memory nor `D`'s arithmetic: control
/// flow, register halves, `Q` and the selectors.
pub open spec fn is_control(insn: Instruction) -> bool {
    !is_alu(insn) && !is_transfer(insn) && !(insn is Output) && !(insn is Input)
}

/// Runs a control or register instruction.
#[verifier::spinoff_prover]
fn exec_control(state: &mut CpuState, mem: &Memory, insn: Instruction)
    requires
        is_control(insn),
    ensures
        *final(state) == cpu_state(*old(state), mem@, insn),
{
    proof {
        lemma_low_nibble(state.x);
        lemma_low_nibble(state.p);
    }
    match insn {
        Instruction::Idle => {
            state.halted = true;
        },
        Instruction::Increment { reg } => {
            let idx = reg.index_u8();
            let value = state.read_reg(idx).wrapping_add(1);
            state.write_reg(idx, value);
        },
        Instruction::Decrement { reg } => {
            let idx = reg.index_u8();
            let value = state.read_reg(idx).wrapping_sub(1);
            state.write_reg(idx, value);
        },
        Instruction::Branch { target } => {
            branch_in_page(state, target);
        },
        Instruction::BranchQ { expected, target } => {
            if state.q == expected {
                branch_in_page(state, target);
            }
        },
        Instruction::BranchZero { expected, target } => {
            if (state.d == 0) == expected {
                branch_in_page(state, target);
            }
        },
        Instruction::BranchDataFlag { expected, target } => {
            if state.df == expected {
                branch_in_page(state, target);
            }
        },
        Instruction::BranchExternalFlag { flag, expected, target } => {
            if state.external_flag(flag) == expected {
                branch_in_page(state, target);
            }
        },
        Instruction::ShortSkip => {},
        Instruction::Irx => {
            let idx = state.x & 0x0F;
            let value = state.read_reg(idx).wrapping_add(1);
            state.write_reg(idx, value);
        },
        Instruction::Reserved68 => {},
        Instruction::ResetQ => {
            state.q = false;
        },
        Instruction::SetQ => {
            state.q = true;
        },
        Instruction::GetLow { reg } => {
            let v = state.read_reg(reg.index_u8());
            assert((v & 0x00FF) as u8 == v % 256) by (bit_vector);
            state.d = (v & 0x00FF) as u8;
        },
        Instruction::GetHigh { reg } => {
            let v = state.read_reg(reg.index_u8());
            assert((v >> 8) as u8 == v / 256) by (bit_vector);
            state.d = (v >> 8) as u8;
        },
        Instruction::PutLow { reg } => {
            let idx = reg.index_u8();
            let v = state.read_reg(idx);
            let d = state.d;
            let value = (v & 0xFF00) | d as u16;
            assert(value == (v / 256) * 256 + d) by (bit_vector)
                requires
                    value == (v & 0xFF00) | d as u16,
            ;
            state.write_reg(idx, value);
        },
        Instruction::PutHigh { reg } => {
            let idx = reg.index_u8();
            let v = state.read_reg(idx);
            let d = state.d;
            let value = ((d as u16) << 8) | (v & 0x00FF);
            assert(value == d * 256 + v % 256) by (bit_vector)
                requires
                    value == ((d as u16) << 8) | (v & 0x00FF),
            ;
            state.write_reg(idx, value);
        },
        Instruction::LongBranch { condition, target } => {
            if long_branch_condition_matches(state, condition) {
                state.set_pc(target);
            }
        },
        Instruction::NoOperation => {},
        Instruction::LongSkip { condition } => {
            if long_skip_condition_matches(state, condition) {
                state.advance_pc(2);
            }
        },
        Instruction::SetP { reg } => {
            state.p = reg.index_u8();
        },
        Instruction::SetX { reg } => {
            state.x = reg.index_u8();
        },
        _ => {},
    }
}

fn is_alu_insn(insn: &Instruction) -> (r: bool)
    ensures
        r == is_alu(*insn),
{
    match insn {
        Instruction::AddWithCarry
        | Instruction::SubtractDWithBorrow
        | Instruction::ShiftRightWithCarry
        | Instruction::SubtractMemoryWithBorrow
        | Instruction::AddWithCarryImmediate { .. }
        | Instruction::SubtractDWithBorrowImmediate { .. }
        | Instruction::ShiftLeftWithCarry
        | Instruction::SubtractMemoryWithBorrowImmediate { .. }
        | Instruction::LoadViaX
        | Instruction::Or
        | Instruction::And
        | Instruction::Xor
        | Instruction::Add
        | Instruction::SubtractDNoBorrow
        | Instruction::ShiftRight
        | Instruction::SubtractMemoryNoBorrow
        | Instruction::AddImmediate { .. }
        | Instruction::OrImmediate { .. }
        | Instruction::AndImmediate { .. }
        | Instruction::XorImmediate { .. }
        | Instruction::SubtractDImmediateNoBorrow { .. }
        | Instruction::ShiftLeft
        | Instruction::SubtractMemoryNoBorrowImmediate { .. }
        | Instruction::LoadImmediate { .. } => true,
        _ => false,
    }
}

fn is_transfer_insn(insn: &Instruction) -> (r: bool)
    ensures
        r == is_transfer(*insn),
{
    match insn {
        Instruction::LoadVia { .. }
        | Instruction::LoadAdvance { .. }
        | Instruction::Store { .. }
        | Instruction::LoadViaXAdvance
        | Instruction::StoreViaXDecrement
        | Instruction::Save
        | Instruction::Mark
        | Instruction::Return
        | Instruction::DisableInterrupt => true,
        _ => false,
    }
}

/// `(s2, m2, b2)` is what `insn` makes of `(s, m, b)`.
pub open spec fn exec_holds<B: BoardIo>(
    s: CpuState,
    m: Seq<u8>,
    b: Option<B>,
    insn: Instruction,
    s2: CpuState,
    m2: Seq<u8>,
    b2: Option<B>,
) -> bool {
    &&& s2 == exec_state(s, m, b, insn)
    &&& m2 == exec_memory(s, m, b, insn)
    &&& b2 == exec_board(s, m, b, insn)
}

/// Runs `insn`: `OUT` and `INP` reach the board, everything else the CPU and
/// memory only.
fn exec_instruction<B: BoardIo>(
    state: &mut CpuState,
    mem: &mut Memory,
    board: Option<&mut B>,
    insn: Instruction,
)
    ensures
        match board {
            Some(b) => exec_holds(
                *old(state),
                old(mem)@,
                Some(*b),
                insn,
                *final(state),
                final(mem)@,
                Some(*final(b)),
            ),
            None => exec_holds(
                *old(state),
                old(mem)@,
                None::<B>,
                insn,
                *final(state),
                final(mem)@,
                None::<B>,
            ),
        },
{
    proof {
        lemma_low_nibble(state.x);
    }
    match insn {
        Instruction::Output { port } => {
            let idx = state.x & 0x0F;
            let addr = state.read_reg(idx);
            let value = mem.read_byte(addr);
            match board {
                Some(b) => b.output_port(port, value),
                None => {},
            }
            state.write_reg(idx, addr.wrapping_add(1));
        },
        Instruction::Input { port } => {
            let value = match board {
                Some(b) => b.input_port(port),
                None => 0,
            };
            mem.write_byte(state.read_reg(state.x), value);
            state.d = value;
        },
        _ => {
            if is_alu_insn(&insn) {
                exec_alu(state, mem, insn);
            } else if is_transfer_insn(&insn) {
                exec_transfer(state, mem, insn);
            } else {
                exec_control(state, mem, insn);
            }
        },
    }
}

// ---------------------------------------------------------------------------
// Stepping and running.
// ---------------------------------------------------------------------------

/// From `s` with memory `m` and `b`, the decoder's answer `decoded` leads to
/// `(s2, m2, b2)` and result `r`, before the board samples the outputs.
pub open spec fn runs_decoded<B: BoardIo>(
    s: CpuState,
    m: Seq<u8>,
    b: Option<B>,
    decoded: Result<(Instruction, u16), DecodeError>,
    s2: CpuState,
    m2: Seq<u8>,
    b2: Option<B>,
    r: Result<(), ExecError>,
) -> bool {
    match decoded {
        Err(e) => s2 == s && m2 == m && b2 == b && r == Err::<(), ExecError>(ExecError::Decode(e)),
        Ok((insn, size)) => exec_holds(fetched_past(s, size), m, b, insn, s2, m2, b2) && r == Ok::<
            (),
            ExecError,
        >(()),
    }
}

/// Decodes the instruction at the program counter, moves the program
/// counter past it, counts it and runs it.
fn fetch_and_execute<B: BoardIo, F: Fn([u8; 3]) -> Result<(Instruction, u16), DecodeError>>(
    state: &mut CpuState,
    mem: &mut Memory,
    board: Option<&mut B>,
    decode: &F,
) -> (r: Result<(), ExecError>)
    requires
        decoder_total(*decode),
        old(state).instr_count < u64::MAX,
    ensures
        match board {
            Some(b) => exists|d: Result<(Instruction, u16), DecodeError>|
                #[trigger] decodes_to(*decode, old(mem)@, pc_of(*old(state)), d) && runs_decoded(
                    *old(state),
                    old(mem)@,
                    Some(*b),
                    d,
                    *final(state),
                    final(mem)@,
                    Some(*final(b)),
                    r,
                ),
            None => exists|d: Result<(Instruction, u16), DecodeError>|
                #[trigger] decodes_to(*decode, old(mem)@, pc_of(*old(state)), d) && runs_decoded(
                    *old(state),
                    old(mem)@,
                    None::<B>,
                    d,
                    *final(state),
                    final(mem)@,
                    None::<B>,
                    r,
                ),
        },
{
    let pc = state.pc();
    let decoded = mem.decode_at(pc, decode);
    let ghost d = decoded;
    assert(decodes_to(*decode, mem@, pc, d));
    match decoded {
        Err(e) => Err(ExecError::Decode(e)),
        Ok((insn, size)) => {
            state.advance_pc(size);
            state.instr_count = state.instr_count + 1;
            exec_instruction(state, mem, board, insn);
            Ok(())
        },
    }
}

/// One step with an optional board: a halted CPU refuses; otherwise the board
/// drives its inputs, the instruction at the program counter is decoded and
/// run, and the board samples the outputs and sees the instruction end.
fn step_with_board<B: BoardIo, F: Fn([u8; 3]) -> Result<(Instruction, u16), DecodeError>>(
    state: &mut CpuState,
    mem: &mut Memory,
    board: Option<&mut B>,
    decode: &F,
) -> (r: Result<(), ExecError>)
    requires
        decoder_total(*decode),
        match board {
            Some(b) => can_count(*old(state), Some(*b)),
            None => can_count(*old(state), None::<B>),
        },
    ensures
        match board {
            Some(b) => steps_once(
                *decode,
                *old(state),
                old(mem)@,
                Some(*b),
                *final(state),
                final(mem)@,
                Some(*final(b)),
                r,
            ),
            None => steps_once(
                *decode,
                *old(state),
                old(mem)@,
                None::<B>,
                *final(state),
                final(mem)@,
                None::<B>,
                r,
            ),
        },
{
    reveal(steps_once);
    if state.halted {
        return Err(ExecError::Halted);
    }
    match board {
        Some(b) => {
            b.sync_inputs_to_cpu(state);
            let r = fetch_and_execute(state, mem, Some(&mut *b), decode);
            if r.is_ok() {
                b.sync_outputs_from_cpu(state);
                b.after_instruction();
            }
            r
        },
        None => fetch_and_execute::<B, F>(state, mem, None, decode),
    }
}

/// No instruction changes the instruction counter or the size of memory,
/// only `IDL` halts, and only `OUT` reaches the board.
pub proof fn lemma_exec_frame<B: BoardIo>(s: CpuState, m: Seq<u8>, b: Option<B>, insn: Instruction)
    ensures
        exec_state(s, m, b, insn).instr_count == s.instr_count,
        exec_state(s, m, b, insn).halted == (s.halted || insn is Idle),
        !(insn is Output) ==> exec_board(s, m, b, insn) == b,
        exec_memory(s, m, b, insn).len() == m.len(),
{
}

/// A successful step starts from a running CPU, counts one instruction and
/// keeps the size of memory.
pub proof fn lemma_step_counts_one<B: BoardIo, F: Fn([u8; 3]) -> Result<(Instruction, u16), DecodeError>>(
    decode: F,
    s: CpuState,
    m: Seq<u8>,
    b: Option<B>,
    s2: CpuState,
    m2: Seq<u8>,
    b2: Option<B>,
)
    requires
        steps_once(decode, s, m, b, s2, m2, b2, Ok(())),
        can_count(s, b),
    ensures
        !s.halted,
        s2.instr_count == synced(s, b).instr_count + 1,
        m2.len() == m.len(),
{
    reveal(steps_once);
    let s0 = synced(s, b);
    let d = choose|d: Result<(Instruction, u16), DecodeError>|
        #[trigger] decodes_to(decode, m, pc_of(s0), d) && completes(s0, m, b, d, s2, m2, b2, Ok(()));
    match d {
        Ok((insn, size)) => {
            lemma_exec_frame(fetched_past(s0, size), m, b, insn);
        },
        Err(e) => {},
    }
}

/// One step without a board: `INP` reads 0 and `OUT` reaches nothing.
pub fn step<F: Fn([u8; 3]) -> Result<(Instruction, u16), DecodeError>>(
    state: &mut CpuState,
    mem: &mut Memory,
    decode: &F,
) -> (r: Result<(), ExecError>)
    requires
        decoder_total(*decode),
        can_count(*old(state), None::<FrontPanel>),
    ensures
        steps_once(
            *decode,
            *old(state),
            old(mem)@,
            None::<FrontPanel>,
            *final(state),
            final(mem)@,
            None::<FrontPanel>,
            r,
        ),
{
    step_with_board::<FrontPanel, F>(state, mem, None, decode)
}

/// One step with an optional front panel.
pub fn step_with_front_panel<F: Fn([u8; 3]) -> Result<(Instruction, u16), DecodeError>>(
    state: &mut CpuState,
    mem: &mut Memory,
    board: Option<&mut FrontPanel>,
    decode: &F,
) -> (r: Result<(), ExecError>)
    requires
        decoder_total(*decode),
        match board {
            Some(b) => can_count(*old(state), Some(*b)),
            None => can_count(*old(state), None::<FrontPanel>),
        },
    ensures
        match board {
            Some(b) => steps_once(
                *decode,
                *old(state),
                old(mem)@,
                Some(*b),
                *final(state),
                final(mem)@,
                Some(*final(b)),
                r,
            ),
            None => steps_once(
                *decode,
                *old(state),
                old(mem)@,
                None::<FrontPanel>,
                *final(state),
                final(mem)@,
                None::<FrontPanel>,
                r,
            ),
        },
{
    step_with_board(state, mem, board, decode)
}

/// One step with an optional joystick board.
pub fn step_with_joystick<F: Fn([u8; 3]) -> Result<(Instruction, u16), DecodeError>>(
    state: &mut CpuState,
    mem: &mut Memory,
    board: Option<&mut JoystickRcBoard>,
    decode: &F,
) -> (r: Result<(), ExecError>)
    requires
        decoder_total(*decode),
        match board {
            Some(b) => can_count(*old(state), Some(*b)),
            None => can_count(*old(state), None::<JoystickRcBoard>),
        },
    ensures
        match board {
            Some(b) => steps_once(
                *decode,
                *old(state),
                old(mem)@,
                Some(*b),
                *final(state),
                final(mem)@,
                Some(*final(b)),
                r,
            ),
            None => steps_once(
                *decode,
                *old(state),
                old(mem)@,
                None::<JoystickRcBoard>,
                *final(state),
                final(mem)@,
                None::<JoystickRcBoard>,
                r,
            ),
        },
{
    step_with_board(state, mem, board, decode)
}

/// One step with an optional board of any kind.
pub fn step_with_io<B: BoardIo, F: Fn([u8; 3]) -> Result<(Instruction, u16), DecodeError>>(
    state: &mut CpuState,
    mem: &mut Memory,
    board: Option<&mut B>,
    decode: &F,
) -> (r: Result<(), ExecError>)
    requires
        decoder_total(*decode),
        match board {
            Some(b) => can_count(*old(state), Some(*b)),
            None => can_count(*old(state), None::<B>),
        },
    ensures
        match board {
            Some(b) => steps_once(
                *decode,
                *old(state),
                old(mem)@,
                Some(*b),
                *final(state),
                final(mem)@,
                Some(*final(b)),
                r,
            ),
            None => steps_once(
                *decode,
                *old(state),
                old(mem)@,
                None::<B>,
                *final(state),
                final(mem)@,
                None::<B>,
                r,
            ),
        },
{
    step_with_board(state, mem, board, decode)
}

/// The machine as a step sees it: CPU state, memory contents and board.
pub type Machine<B> = (CpuState, Seq<u8>, Option<B>);

/// Entry `i` of `trace` steps successfully to entry `i + 1`.
pub open spec fn link<B: BoardIo, F: Fn([u8; 3]) -> Result<(Instruction, u16), DecodeError>>(
    decode: F,
    trace: Seq<Machine<B>>,
    i: int,
) -> bool {
    steps_once(
        decode,
        trace[i].0,
        trace[i].1,
        trace[i].2,
        trace[i + 1].0,
        trace[i + 1].1,
        trace[i + 1].2,
        Ok(()),
    )
}

/// `trace` runs `k` successful steps from `(s0, m0, b0)` to `(s, m, b)`.
pub open spec fn is_trace<B: BoardIo, F: Fn([u8; 3]) -> Result<(Instruction, u16), DecodeError>>(
    decode: F,
    trace: Seq<Machine<B>>,
    s0: CpuState,
    m0: Seq<u8>,
    b0: Option<B>,
    k: nat,
    s: CpuState,
    m: Seq<u8>,
    b: Option<B>,
) -> bool {
    &&& trace.len() == k + 1
    &&& trace[0] == (s0, m0, b0)
    &&& trace[k as int] == (s, m, b)
    &&& forall|i: int| 0 <= i < k ==> #[trigger] link(decode, trace, i)
}

/// `(s, m, b)` is reached from `(s0, m0, b0)` by `k` successful steps.
pub open spec fn reaches<B: BoardIo, F: Fn([u8; 3]) -> Result<(Instruction, u16), DecodeError>>(
    decode: F,
    s0: CpuState,
    m0: Seq<u8>,
    b0: Option<B>,
    k: nat,
    s: CpuState,
    m: Seq<u8>,
    b: Option<B>,
) -> bool {
    exists|trace: Seq<Machine<B>>| #[trigger] is_trace(decode, trace, s0, m0, b0, k, s, m, b)
}

/// Zero steps reach the start.
proof fn lemma_reaches_start<B: BoardIo, F: Fn([u8; 3]) -> Result<(Instruction, u16), DecodeError>>(
    decode: F,
    s0: CpuState,
    m0: Seq<u8>,
    b0: Option<B>,
)
    ensures
        reaches(decode, s0, m0, b0, 0, s0, m0, b0),
{
    let trace = seq![(s0, m0, b0)];
    assert(is_trace(decode, trace, s0, m0, b0, 0, s0, m0, b0));
}

/// One more successful step extends a run.
proof fn lemma_reaches_extend<B: BoardIo, F: Fn([u8; 3]) -> Result<(Instruction, u16), DecodeError>>(
    decode: F,
    s0: CpuState,
    m0: Seq<u8>,
    b0: Option<B>,
    k: nat,
    s1: CpuState,
    m1: Seq<u8>,
    b1: Option<B>,
    s: CpuState,
    m: Seq<u8>,
    b: Option<B>,
)
    requires
        reaches(decode, s0, m0, b0, k, s1, m1, b1),
        steps_once(decode, s1, m1, b1, s, m, b, Ok(())),
    ensures
        reaches(decode, s0, m0, b0, k + 1, s, m, b),
{
    let trace = choose|trace: Seq<Machine<B>>| #[trigger] is_trace(decode, trace, s0, m0, b0, k, s1, m1, b1);
    let longer = trace.push((s, m, b));
    assert forall|i: int| 0 <= i < k + 1 implies #[trigger] link(decode, longer, i) by {
        if i < k {
            assert(link(decode, trace, i));
        }
    }
    assert(is_trace(decode, longer, s0, m0, b0, k + 1, s, m, b));
}

/// What `run` promises: on `Ok(n)`, `n` successful steps were taken, no more
/// than `max_steps`, and the CPU halted or the budget ran out; on an error,
/// fewer than `max_steps` steps succeeded and the next one, from a running
/// CPU, failed with that error.
pub open spec fn runs<B: BoardIo, F: Fn([u8; 3]) -> Result<(Instruction, u16), DecodeError>>(
    decode: F,
    s0: CpuState,
    m0: Seq<u8>,
    b0: Option<B>,
    max_steps: u64,
    s: CpuState,
    m: Seq<u8>,
    b: Option<B>,
    r: Result<u64, ExecError>,
) -> bool {
    match r {
        Ok(n) => n <= max_steps && reaches(decode, s0, m0, b0, n as nat, s, m, b) && (s.halted || n
            == max_steps),
        Err(e) => exists|k: nat, s1: CpuState, m1: Seq<u8>, b1: Option<B>|
            #[trigger] reaches(decode, s0, m0, b0, k, s1, m1, b1) && k < max_steps && !s1.halted
                && steps_once(decode, s1, m1, b1, s, m, b, Err::<(), ExecError>(e)),
    }
}

/// The number of steps a run from `s` may take: `max_steps`, cut down to
/// what the instruction counter has room for.
pub open spec fn step_budget(s: CpuState, max_steps: u64) -> u64 {
    if max_steps <= u64::MAX - s.instr_count {
        max_steps
    } else {
        (u64::MAX - s.instr_count) as u64
    }
}

/// Steps until the CPU halts, a step fails, or `max_steps` steps have run
/// (no more than the instruction counter can count); returns the number of
/// steps taken.
pub fn run<F: Fn([u8; 3]) -> Result<(Instruction, u16), DecodeError>>(
    state: &mut CpuState,
    mem: &mut Memory,
    max_steps: u64,
    decode: &F,
) -> (r: Result<u64, ExecError>)
    requires
        decoder_total(*decode),
    ensures
        runs(
            *decode,
            *old(state),
            old(mem)@,
            None::<FrontPanel>,
            step_budget(*old(state), max_steps),
            *final(state),
            final(mem)@,
            None::<FrontPanel>,
            r,
        ),
{
    let start = state.instr_count;
    let budget: u64 = if max_steps <= u64::MAX - start {
        max_steps
    } else {
        u64::MAX - start
    };
    let ghost s0 = *state;
    let ghost m0 = mem@;
    proof {
        lemma_reaches_start(*decode, s0, m0, None::<FrontPanel>);
    }
    while !state.halted && state.instr_count - start < budget
        invariant
            decoder_total(*decode),
            s0 == *old(state),
            m0 == old(mem)@,
            start == s0.instr_count,
            budget == step_budget(s0, max_steps),
            start + budget <= u64::MAX,
            start <= state.instr_count <= start + budget,
            reaches(
                *decode,
                s0,
                m0,
                None::<FrontPanel>,
                (state.instr_count - start) as nat,
                *state,
                mem@,
                None::<FrontPanel>,
            ),
        decreases budget - (state.instr_count - start),
    {
        let ghost k = (state.instr_count - start) as nat;
        let ghost s1 = *state;
        let ghost m1 = mem@;
        let res = step(state, mem, decode);
        match res {
            Ok(u) => {
                assert(u == ());
                proof {
                    lemma_step_counts_one(*decode, s1, m1, None::<FrontPanel>, *state, mem@, None::<FrontPanel>);
                    lemma_reaches_extend(*decode, s0, m0, None::<FrontPanel>, k, s1, m1, None::<FrontPanel>, *state, mem@, None::<FrontPanel>);
                }
            },
            Err(e) => {
                assert(runs(*decode, s0, m0, None::<FrontPanel>, budget, *state, mem@, None::<FrontPanel>, Err(e)));
                return Err(e);
            },
        }
    }
    Ok(state.instr_count - start)
}

/// A board whose input hooks leave the instruction counter alone.
pub open spec fn keeps_count<B: BoardIo>() -> bool {
    forall|b: B, s: CpuState| #[trigger] b.inputs_synced(s).instr_count == s.instr_count
}

/// `run` with a board attached for the whole run.
fn run_with_board<B: BoardIo, F: Fn([u8; 3]) -> Result<(Instruction, u16), DecodeError>>(
    state: &mut CpuState,
    mem: &mut Memory,
    board: &mut B,
    max_steps: u64,
    decode: &F,
) -> (r: Result<u64, ExecError>)
    requires
        decoder_total(*decode),
        keeps_count::<B>(),
    ensures
        runs(
            *decode,
            *old(state),
            old(mem)@,
            Some(*old(board)),
            step_budget(*old(state), max_steps),
            *final(state),
            final(mem)@,
            Some(*final(board)),
            r,
        ),
{
    let start = state.instr_count;
    let budget: u64 = if max_steps <= u64::MAX - start {
        max_steps
    } else {
        u64::MAX - start
    };
    let ghost s0 = *state;
    let ghost m0 = mem@;
    let ghost b0 = *board;
    proof {
        lemma_reaches_start(*decode, s0, m0, Some(b0));
    }
    while !state.halted && state.instr_count - start < budget
        invariant
            decoder_total(*decode),
            keeps_count::<B>(),
            s0 == *old(state),
            m0 == old(mem)@,
            b0 == *old(board),
            start == s0.instr_count,
            budget == step_budget(s0, max_steps),
            start + budget <= u64::MAX,
            start <= state.instr_count <= start + budget,
            reaches(
                *decode,
                s0,
                m0,
                Some(b0),
                (state.instr_count - start) as nat,
                *state,
                mem@,
                Some(*board),
            ),
        decreases budget - (state.instr_count - start),
    {
        let ghost k = (state.instr_count - start) as nat;
        let ghost s1 = *state;
        let ghost m1 = mem@;
        let ghost b1 = *board;
        assert(board.inputs_synced(*state).instr_count == state.instr_count);
        let res = step_with_board(state, mem, Some(&mut *board), decode);
        match res {
            Ok(u) => {
                assert(u == ());
                proof {
                    lemma_step_counts_one(*decode, s1, m1, Some(b1), *state, mem@, Some(*board));
                    lemma_reaches_extend(*decode, s0, m0, Some(b0), k, s1, m1, Some(b1), *state, mem@, Some(*board));
                }
            },
            Err(e) => {
                assert(runs(*decode, s0, m0, Some(b0), budget, *state, mem@, Some(*board), Err(e)));
                return Err(e);
            },
        }
    }
    Ok(state.instr_count - start)
}

/// `run` with the front panel attached.
pub fn run_with_front_panel<F: Fn([u8; 3]) -> Result<(Instruction, u16), DecodeError>>(
    state: &mut CpuState,
    mem: &mut Memory,
    board: &mut FrontPanel,
    max_steps: u64,
    decode: &F,
) -> (r: Result<u64, ExecError>)
    requires
        decoder_total(*decode),
    ensures
        runs(
            *decode,
            *old(state),
            old(mem)@,
            Some(*old(board)),
            step_budget(*old(state), max_steps),
            *final(state),
            final(mem)@,
            Some(*final(board)),
            r,
        ),
{
    run_with_board(state, mem, board, max_steps, decode)
}

/// `run` with the joystick board attached.
pub fn run_with_joystick<F: Fn([u8; 3]) -> Result<(Instruction, u16), DecodeError>>(
    state: &mut CpuState,
    mem: &mut Memory,
    board: &mut JoystickRcBoard,
    max_steps: u64,
    decode: &F,
) -> (r: Result<u64, ExecError>)
    requires
        decoder_total(*decode),
    ensures
        runs(
            *decode,
            *old(state),
            old(mem)@,
            Some(*old(board)),
            step_budget(*old(state), max_steps),
            *final(state),
            final(mem)@,
            Some(*final(board)),
            r,
        ),
{
    run_with_board(state, mem, board, max_steps, decode)
}

} // verus!
