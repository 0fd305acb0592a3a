//! What each instruction does, stated over the raw fields of the CPU state
//! and the raw bytes of memory.

use vstd::prelude::*;

use crate::board::BoardIo;
use crate::exec::{
    can_count, decodes_to, exec_board, exec_memory, exec_state, fetched_past, long_branch_taken,
    long_skip_taken, steps_once, synced,
};
use crate::isa::{DecodeError, ExternalFlag, Instruction, LongBranchCondition, LongSkipCondition, Reg};
use crate::laws::lemma_step_decoded;
use crate::state::pc_of;
use crate::state::CpuState;

verus! {

/// Register `n & 0xF` of `s`, read from the register file.
pub open spec fn reg_at(s: CpuState, n: u8) -> u16 {
    s.r@[(n % 16) as int]
}

/// The register file of `s` with register `n & 0xF` set to `v`.
pub open spec fn regs_with(s: CpuState, n: u8, v: u16) -> Seq<u16> {
    s.r@.update((n % 16) as int, v)
}

/// The byte of `m` at address `a`; 0 past the end of `m`.
pub open spec fn mem_at(m: Seq<u8>, a: u16) -> u8 {
    if (a as int) < m.len() {
        m[a as int]
    } else {
        0
    }
}

/// `m` with the byte at address `a` set to `v`; `m` itself past its end.
pub open spec fn mem_with(m: Seq<u8>, a: u16, v: u8) -> Seq<u8> {
    if (a as int) < m.len() {
        m.update(a as int, v)
    } else {
        m
    }
}

/// `t` differs from `s` in the register file at most.
pub open spec fn only_regs(s: CpuState, t: CpuState) -> bool {
    (CpuState { r: s.r, ..t }) == s
}

/// `t` differs from `s` in `D` at most.
pub open spec fn only_d(s: CpuState, t: CpuState) -> bool {
    (CpuState { d: s.d, ..t }) == s
}

/// `t` differs from `s` in the register file and `D` at most.
pub open spec fn only_regs_d(s: CpuState, t: CpuState) -> bool {
    (CpuState { r: s.r, d: s.d, ..t }) == s
}

/// `t` differs from `s` in `D` and `DF` at most.
pub open spec fn only_d_df(s: CpuState, t: CpuState) -> bool {
    (CpuState { d: s.d, df: s.df, ..t }) == s
}

/// The instruction touches neither memory nor the board.
pub open spec fn keeps_outside<B: BoardIo>(s: CpuState, m: Seq<u8>, b: Option<B>, insn: Instruction) -> bool {
    exec_memory(s, m, b, insn) == m && exec_board(s, m, b, insn) == b
}

/// `INC Rn` adds 1 to `Rn` modulo 2^16; nothing else changes.
pub proof fn lemma_inc<B: BoardIo>(s: CpuState, m: Seq<u8>, b: Option<B>, reg: Reg)
    ensures
        ({
            let t = exec_state(s, m, b, Instruction::Increment { reg });
            &&& t.r@ == regs_with(s, reg@, ((reg_at(s, reg@) + 1) % 0x10000) as u16)
            &&& only_regs(s, t)
        }),
        keeps_outside(s, m, b, Instruction::Increment { reg }),
{
}

/// `DEC Rn` takes 1 from `Rn` modulo 2^16; nothing else changes.
pub proof fn lemma_dec<B: BoardIo>(s: CpuState, m: Seq<u8>, b: Option<B>, reg: Reg)
    ensures
        ({
            let t = exec_state(s, m, b, Instruction::Decrement { reg });
            &&& t.r@ == regs_with(s, reg@, ((reg_at(s, reg@) + 0xFFFF) % 0x10000) as u16)
            &&& only_regs(s, t)
        }),
        keeps_outside(s, m, b, Instruction::Decrement { reg }),
{
    let v = reg_at(s, reg@) as int;
    assert((v - 1) % 0x10000 == (v + 0xFFFF) % 0x10000) by (nonlinear_arith);
}

/// `IRX` adds 1 to `R(X)` modulo 2^16; nothing else changes.
pub proof fn lemma_irx<B: BoardIo>(s: CpuState, m: Seq<u8>, b: Option<B>)
    ensures
        ({
            let t = exec_state(s, m, b, Instruction::Irx);
            &&& t.r@ == regs_with(s, s.x, ((reg_at(s, s.x) + 1) % 0x10000) as u16)
            &&& only_regs(s, t)
        }),
        keeps_outside(s, m, b, Instruction::Irx),
{
}

/// `GLO Rn` and `GHI Rn` copy the low and the high byte of `Rn` into `D`;
/// nothing else changes.
pub proof fn lemma_get_halves<B: BoardIo>(s: CpuState, m: Seq<u8>, b: Option<B>, reg: Reg)
    ensures
        exec_state(s, m, b, Instruction::GetLow { reg }).d == (reg_at(s, reg@) & 0xFF) as u8,
        only_d(s, exec_state(s, m, b, Instruction::GetLow { reg })),
        exec_state(s, m, b, Instruction::GetHigh { reg }).d == (reg_at(s, reg@) >> 8u16) as u8,
        only_d(s, exec_state(s, m, b, Instruction::GetHigh { reg })),
        keeps_outside(s, m, b, Instruction::GetLow { reg }),
        keeps_outside(s, m, b, Instruction::GetHigh { reg }),
{
    let v = reg_at(s, reg@);
    assert((v & 0xFF) as u8 == v % 256 && (v >> 8u16) as u8 == v / 256) by (bit_vector);
}

/// `PLO Rn` and `PHI Rn` replace the low and the high byte of `Rn` with
/// `D`, keeping its other byte; nothing else changes.
pub proof fn lemma_put_halves<B: BoardIo>(s: CpuState, m: Seq<u8>, b: Option<B>, reg: Reg)
    ensures
        exec_state(s, m, b, Instruction::PutLow { reg }).r@ == regs_with(
            s,
            reg@,
            (reg_at(s, reg@) & 0xFF00) | (s.d as u16),
        ),
        only_regs(s, exec_state(s, m, b, Instruction::PutLow { reg })),
        exec_state(s, m, b, Instruction::PutHigh { reg }).r@ == regs_with(
            s,
            reg@,
            ((s.d as u16) << 8u16) | (reg_at(s, reg@) & 0x00FF),
        ),
        only_regs(s, exec_state(s, m, b, Instruction::PutHigh { reg })),
        keeps_outside(s, m, b, Instruction::PutLow { reg }),
        keeps_outside(s, m, b, Instruction::PutHigh { reg }),
{
    let v = reg_at(s, reg@);
    let d = s.d as u16;
    assert(d < 256 ==> (v & 0xFF00) | d == (v / 256) * 256 + d && (d << 8u16) | (v & 0x00FF) == d
        * 256 + v % 256) by (bit_vector);
}

/// `SEP Rn` makes `Rn` the program counter (`P := n`), `SEX Rn` makes it
/// the index register (`X := n`); nothing else changes.
pub proof fn lemma_selectors<B: BoardIo>(s: CpuState, m: Seq<u8>, b: Option<B>, reg: Reg)
    ensures
        exec_state(s, m, b, Instruction::SetP { reg }) == (CpuState { p: reg@, ..s }),
        exec_state(s, m, b, Instruction::SetX { reg }) == (CpuState { x: reg@, ..s }),
        keeps_outside(s, m, b, Instruction::SetP { reg }),
        keeps_outside(s, m, b, Instruction::SetX { reg }),
{
}

/// `SEQ` sets `Q`, `REQ` clears it, `IDL` halts the CPU; `NOP`, `SKP` and
/// the reserved opcode change nothing (a skip's work is done by its
/// length).
pub proof fn lemma_flags_and_idle<B: BoardIo>(s: CpuState, m: Seq<u8>, b: Option<B>)
    ensures
        exec_state(s, m, b, Instruction::SetQ) == (CpuState { q: true, ..s }),
        exec_state(s, m, b, Instruction::ResetQ) == (CpuState { q: false, ..s }),
        exec_state(s, m, b, Instruction::Idle) == (CpuState { halted: true, ..s }),
        exec_state(s, m, b, Instruction::NoOperation) == s,
        exec_state(s, m, b, Instruction::ShortSkip) == s,
        exec_state(s, m, b, Instruction::Reserved68) == s,
        keeps_outside(s, m, b, Instruction::SetQ),
        keeps_outside(s, m, b, Instruction::ResetQ),
        keeps_outside(s, m, b, Instruction::Idle),
        keeps_outside(s, m, b, Instruction::NoOperation),
        keeps_outside(s, m, b, Instruction::ShortSkip),
        keeps_outside(s, m, b, Instruction::Reserved68),
{
}

/// `LDN Rn` loads the byte addressed by `Rn` into `D`, `LDX` the byte
/// addressed by `R(X)`, and `LDI` its immediate byte; nothing else changes.
pub proof fn lemma_loads<B: BoardIo>(s: CpuState, m: Seq<u8>, b: Option<B>, reg: Reg, value: u8)
    ensures
        exec_state(s, m, b, Instruction::LoadVia { reg }) == (CpuState {
            d: mem_at(m, reg_at(s, reg@)),
            ..s
        }),
        exec_state(s, m, b, Instruction::LoadViaX) == (CpuState { d: mem_at(m, reg_at(s, s.x)), ..s }),
        exec_state(s, m, b, Instruction::LoadImmediate { value }) == (CpuState { d: value, ..s }),
        keeps_outside(s, m, b, Instruction::LoadVia { reg }),
        keeps_outside(s, m, b, Instruction::LoadViaX),
        keeps_outside(s, m, b, Instruction::LoadImmediate { value }),
{
}

/// `LDA Rn` loads the byte addressed by `Rn` into `D` and then adds 1 to
/// `Rn`; `LDXA` does the same through `R(X)`. Nothing else changes.
pub proof fn lemma_load_advance<B: BoardIo>(s: CpuState, m: Seq<u8>, b: Option<B>, reg: Reg)
    ensures
        exec_state(s, m, b, Instruction::LoadAdvance { reg }).d == mem_at(m, reg_at(s, reg@)),
        exec_state(s, m, b, Instruction::LoadAdvance { reg }).r@ == regs_with(
            s,
            reg@,
            ((reg_at(s, reg@) + 1) % 0x10000) as u16,
        ),
        only_regs_d(s, exec_state(s, m, b, Instruction::LoadAdvance { reg })),
        exec_state(s, m, b, Instruction::LoadViaXAdvance).d == mem_at(m, reg_at(s, s.x)),
        exec_state(s, m, b, Instruction::LoadViaXAdvance).r@ == regs_with(
            s,
            s.x,
            ((reg_at(s, s.x) + 1) % 0x10000) as u16,
        ),
        only_regs_d(s, exec_state(s, m, b, Instruction::LoadViaXAdvance)),
        keeps_outside(s, m, b, Instruction::LoadAdvance { reg }),
        keeps_outside(s, m, b, Instruction::LoadViaXAdvance),
{
}

/// `STR Rn` writes `D` at the address in `Rn`, and `SAV` writes `T` at the
/// address in `R(X)`; neither changes the CPU state or the board.
pub proof fn lemma_store_save<B: BoardIo>(s: CpuState, m: Seq<u8>, b: Option<B>, reg: Reg)
    ensures
        exec_state(s, m, b, Instruction::Store { reg }) == s,
        exec_memory(s, m, b, Instruction::Store { reg }) == mem_with(m, reg_at(s, reg@), s.d),
        exec_board(s, m, b, Instruction::Store { reg }) == b,
        exec_state(s, m, b, Instruction::Save) == s,
        exec_memory(s, m, b, Instruction::Save) == mem_with(m, reg_at(s, s.x), s.t),
        exec_board(s, m, b, Instruction::Save) == b,
{
}

/// `STXD` writes `D` at the address in `R(X)` and then takes 1 from `R(X)`
/// modulo 2^16; nothing else changes.
pub proof fn lemma_stxd<B: BoardIo>(s: CpuState, m: Seq<u8>, b: Option<B>)
    ensures
        exec_state(s, m, b, Instruction::StoreViaXDecrement).r@ == regs_with(
            s,
            s.x,
            ((reg_at(s, s.x) + 0xFFFF) % 0x10000) as u16,
        ),
        only_regs(s, exec_state(s, m, b, Instruction::StoreViaXDecrement)),
        exec_memory(s, m, b, Instruction::StoreViaXDecrement) == mem_with(m, reg_at(s, s.x), s.d),
        exec_board(s, m, b, Instruction::StoreViaXDecrement) == b,
{
    let v = reg_at(s, s.x) as int;
    assert((v - 1) % 0x10000 == (v + 0xFFFF) % 0x10000) by (nonlinear_arith);
}

/// `OR`, `AND` and `XOR` combine `D` bit by bit with the byte addressed by
/// `R(X)`; `ORI`, `ANI` and `XRI` with their immediate byte. Only `D`
/// changes.
pub proof fn lemma_logic<B: BoardIo>(s: CpuState, m: Seq<u8>, b: Option<B>, value: u8)
    ensures
        exec_state(s, m, b, Instruction::Or) == (CpuState { d: s.d | mem_at(m, reg_at(s, s.x)), ..s }),
        exec_state(s, m, b, Instruction::And) == (CpuState { d: s.d & mem_at(m, reg_at(s, s.x)), ..s }),
        exec_state(s, m, b, Instruction::Xor) == (CpuState { d: s.d ^ mem_at(m, reg_at(s, s.x)), ..s }),
        exec_state(s, m, b, Instruction::OrImmediate { value }) == (CpuState { d: s.d | value, ..s }),
        exec_state(s, m, b, Instruction::AndImmediate { value }) == (CpuState { d: s.d & value, ..s }),
        exec_state(s, m, b, Instruction::XorImmediate { value }) == (CpuState { d: s.d ^ value, ..s }),
        keeps_outside(s, m, b, Instruction::Or),
        keeps_outside(s, m, b, Instruction::And),
        keeps_outside(s, m, b, Instruction::Xor),
        keeps_outside(s, m, b, Instruction::OrImmediate { value }),
        keeps_outside(s, m, b, Instruction::AndImmediate { value }),
        keeps_outside(s, m, b, Instruction::XorImmediate { value }),
{
}

/// `OUT p` hands the byte addressed by `R(X)` to the board's port `p` and
/// adds 1 to `R(X)`; memory stays. `INP p` puts the byte the board shows on
/// port `p` (0 with no board) into `D` and at the address in `R(X)`.
pub proof fn lemma_io<B: BoardIo>(s: CpuState, m: Seq<u8>, b: Option<B>, port: u8)
    ensures
        exec_state(s, m, b, Instruction::Output { port }).r@ == regs_with(
            s,
            s.x,
            ((reg_at(s, s.x) + 1) % 0x10000) as u16,
        ),
        only_regs(s, exec_state(s, m, b, Instruction::Output { port })),
        exec_memory(s, m, b, Instruction::Output { port }) == m,
        exec_board(s, m, b, Instruction::Output { port }) == match b {
            Some(bb) => Some(bb.after_output(port, mem_at(m, reg_at(s, s.x)))),
            None => None,
        },
        exec_state(s, m, b, Instruction::Input { port }) == (CpuState {
            d: match b {
                Some(bb) => bb.input_value(port),
                None => 0,
            },
            ..s
        }),
        exec_memory(s, m, b, Instruction::Input { port }) == mem_with(
            m,
            reg_at(s, s.x),
            match b {
                Some(bb) => bb.input_value(port),
                None => 0,
            },
        ),
        exec_board(s, m, b, Instruction::Input { port }) == b,
{
}

/// `RET` and `DIS` read the byte addressed by `R(X)`: its high nibble
/// becomes `X` and its low nibble `P`, and `R(X)` then steps past it
/// (modulo 2^16). `RET` enables interrupts, `DIS` disables them. Nothing
/// else changes.
pub proof fn lemma_ret_dis<B: BoardIo>(s: CpuState, m: Seq<u8>, b: Option<B>)
    ensures
        ({
            let v = mem_at(m, reg_at(s, s.x));
            let regs = regs_with(s, s.x, ((reg_at(s, s.x) + 1) % 0x10000) as u16);
            let ret = exec_state(s, m, b, Instruction::Return);
            let dis = exec_state(s, m, b, Instruction::DisableInterrupt);
            &&& ret.r@ == regs && dis.r@ == regs
            &&& ret.x == v >> 4u8 && dis.x == v >> 4u8
            &&& ret.p == v & 0x0F && dis.p == v & 0x0F
            &&& ret.interrupt_enabled && !dis.interrupt_enabled
            &&& (CpuState { r: s.r, x: s.x, p: s.p, interrupt_enabled: s.interrupt_enabled, ..ret })
                == s
            &&& (CpuState { r: s.r, x: s.x, p: s.p, interrupt_enabled: s.interrupt_enabled, ..dis })
                == s
        }),
        keeps_outside(s, m, b, Instruction::Return),
        keeps_outside(s, m, b, Instruction::DisableInterrupt),
{
    let v = mem_at(m, reg_at(s, s.x));
    assert(v >> 4u8 == v / 16 && v & 0x0F == v % 16) by (bit_vector);
}

/// `MARK` packs `X` (high nibble) and `P` (low nibble) into `T`, writes
/// that byte at the address in `R(2)`, sets `X` to `P` and takes 1 from
/// `R(2)` modulo 2^16. Nothing else changes.
pub proof fn lemma_mark_fields<B: BoardIo>(s: CpuState, m: Seq<u8>, b: Option<B>)
    ensures
        ({
            let packed = ((s.x & 0x0F) << 4u8) | (s.p & 0x0F);
            let t = exec_state(s, m, b, Instruction::Mark);
            &&& t.t == packed
            &&& t.x == s.p & 0x0F
            &&& t.r@ == regs_with(s, 2, ((reg_at(s, 2) + 0xFFFF) % 0x10000) as u16)
            &&& (CpuState { r: s.r, x: s.x, t: s.t, ..t }) == s
            &&& exec_memory(s, m, b, Instruction::Mark) == mem_with(m, reg_at(s, 2), packed)
        }),
        exec_board(s, m, b, Instruction::Mark) == b,
{
    let x = s.x;
    let p = s.p;
    assert(((x & 0x0F) << 4u8) | (p & 0x0F) == ((x % 16) * 16 + p % 16) as u8 && p & 0x0F == p % 16)
        by (bit_vector);
    let v = reg_at(s, 2) as int;
    assert((v - 1) % 0x10000 == (v + 0xFFFF) % 0x10000) by (nonlinear_arith);
}

/// Whether a long branch on `condition` is taken, read off the flags.
pub open spec fn long_branch_holds(s: CpuState, condition: LongBranchCondition) -> bool {
    match condition {
        LongBranchCondition::Always => true,
        LongBranchCondition::Q => s.q,
        LongBranchCondition::Zero => s.d == 0,
        LongBranchCondition::DataFlag => s.df,
        LongBranchCondition::NotQ => !s.q,
        LongBranchCondition::NotZero => s.d != 0,
        LongBranchCondition::NotDataFlag => !s.df,
    }
}

/// Whether a long skip on `condition` is taken, read off the flags.
pub open spec fn long_skip_holds(s: CpuState, condition: LongSkipCondition) -> bool {
    match condition {
        LongSkipCondition::Always => true,
        LongSkipCondition::Q => s.q,
        LongSkipCondition::Zero => s.d == 0,
        LongSkipCondition::DataFlag => s.df,
        LongSkipCondition::NotQ => !s.q,
        LongSkipCondition::NotZero => s.d != 0,
        LongSkipCondition::NotDataFlag => !s.df,
        LongSkipCondition::InterruptEnabled => s.interrupt_enabled,
    }
}

/// The conditions of the long branches: `LBR` always, `LBQ`/`LBNQ` on `Q`
/// set/clear, `LBZ`/`LBNZ` on `D` zero/non-zero, `LBDF`/`LBNF` on `DF`
/// set/clear.
pub proof fn lemma_long_branch_conditions(s: CpuState)
    ensures
        long_branch_taken(s, LongBranchCondition::Always),
        long_branch_taken(s, LongBranchCondition::Q) == s.q,
        long_branch_taken(s, LongBranchCondition::NotQ) == !s.q,
        long_branch_taken(s, LongBranchCondition::Zero) == (s.d == 0),
        long_branch_taken(s, LongBranchCondition::NotZero) == (s.d != 0),
        long_branch_taken(s, LongBranchCondition::DataFlag) == s.df,
        long_branch_taken(s, LongBranchCondition::NotDataFlag) == !s.df,
{
}

/// The conditions of the long skips: `LSKP` always, `LSQ`/`LSNQ` on `Q`
/// set/clear, `LSZ`/`LSNZ` on `D` zero/non-zero, `LSDF`/`LSNF` on `DF`
/// set/clear, `LSIE` on interrupts enabled.
pub proof fn lemma_long_skip_conditions(s: CpuState)
    ensures
        long_skip_taken(s, LongSkipCondition::Always),
        long_skip_taken(s, LongSkipCondition::Q) == s.q,
        long_skip_taken(s, LongSkipCondition::NotQ) == !s.q,
        long_skip_taken(s, LongSkipCondition::Zero) == (s.d == 0),
        long_skip_taken(s, LongSkipCondition::NotZero) == (s.d != 0),
        long_skip_taken(s, LongSkipCondition::DataFlag) == s.df,
        long_skip_taken(s, LongSkipCondition::NotDataFlag) == !s.df,
        long_skip_taken(s, LongSkipCondition::InterruptEnabled) == s.interrupt_enabled,
{
}

/// A long branch whose condition holds loads its target into the program
/// counter `R(P)`; one whose condition fails changes nothing. A long skip
/// whose condition holds adds 2 to `R(P)` (modulo 2^16), stepping over the
/// next two bytes; otherwise nothing changes. Only `R(P)` can change.
pub proof fn lemma_long_jumps<B: BoardIo>(
    s: CpuState,
    m: Seq<u8>,
    b: Option<B>,
    bc: LongBranchCondition,
    sc: LongSkipCondition,
    target: u16,
)
    ensures
        exec_state(s, m, b, Instruction::LongBranch { condition: bc, target }).r@ == if long_branch_holds(s, bc) {
            regs_with(s, s.p, target)
        } else {
            s.r@
        },
        only_regs(s, exec_state(s, m, b, Instruction::LongBranch { condition: bc, target })),
        exec_state(s, m, b, Instruction::LongSkip { condition: sc }).r@ == if long_skip_holds(s, sc) {
            regs_with(s, s.p, ((reg_at(s, s.p) + 2) % 0x10000) as u16)
        } else {
            s.r@
        },
        only_regs(s, exec_state(s, m, b, Instruction::LongSkip { condition: sc })),
        keeps_outside(s, m, b, Instruction::LongBranch { condition: bc, target }),
        keeps_outside(s, m, b, Instruction::LongSkip { condition: sc }),
{
}

/// The external flag line `flag` of `s`: `EF1` is `ef[0]`, `EF4` is `ef[3]`.
pub open spec fn ef_line(s: CpuState, flag: ExternalFlag) -> bool {
    match flag {
        ExternalFlag::Ef1 => s.ef@[0],
        ExternalFlag::Ef2 => s.ef@[1],
        ExternalFlag::Ef3 => s.ef@[2],
        ExternalFlag::Ef4 => s.ef@[3],
    }
}

/// The register file after a short branch to `target` is taken: the low
/// byte of `R(P)` becomes `target`, its high byte (the page) stays.
pub open spec fn in_page(s: CpuState, target: u8) -> Seq<u16> {
    regs_with(s, s.p, (reg_at(s, s.p) & 0xFF00) | (target as u16))
}

/// Short branches: `BR` always, `BQ`/`BNQ` when `Q` is as expected,
/// `BZ`/`BNZ` when `D == 0` is, `BDF`/`BNF` when `DF` is, and `B1`..`B4` /
/// `BN1`..`BN4` when the `EF` line is; a taken branch stays in the page of
/// `R(P)`, one not taken changes nothing. Only `R(P)` can change.
pub proof fn lemma_short_jumps<B: BoardIo>(
    s: CpuState,
    m: Seq<u8>,
    b: Option<B>,
    flag: ExternalFlag,
    expected: bool,
    target: u8,
)
    ensures
        exec_state(s, m, b, Instruction::Branch { target }).r@ == in_page(s, target),
        exec_state(s, m, b, Instruction::BranchQ { expected, target }).r@ == if s.q == expected {
            in_page(s, target)
        } else {
            s.r@
        },
        exec_state(s, m, b, Instruction::BranchZero { expected, target }).r@ == if (s.d == 0)
            == expected {
            in_page(s, target)
        } else {
            s.r@
        },
        exec_state(s, m, b, Instruction::BranchDataFlag { expected, target }).r@ == if s.df
            == expected {
            in_page(s, target)
        } else {
            s.r@
        },
        exec_state(s, m, b, Instruction::BranchExternalFlag { flag, expected, target }).r@ == if ef_line(s, flag)
            == expected {
            in_page(s, target)
        } else {
            s.r@
        },
        only_regs(s, exec_state(s, m, b, Instruction::Branch { target })),
        only_regs(s, exec_state(s, m, b, Instruction::BranchQ { expected, target })),
        only_regs(s, exec_state(s, m, b, Instruction::BranchZero { expected, target })),
        only_regs(s, exec_state(s, m, b, Instruction::BranchDataFlag { expected, target })),
        only_regs(s, exec_state(s, m, b, Instruction::BranchExternalFlag { flag, expected, target })),
        keeps_outside(s, m, b, Instruction::Branch { target }),
        keeps_outside(s, m, b, Instruction::BranchQ { expected, target }),
        keeps_outside(s, m, b, Instruction::BranchZero { expected, target }),
        keeps_outside(s, m, b, Instruction::BranchDataFlag { expected, target }),
        keeps_outside(s, m, b, Instruction::BranchExternalFlag { flag, expected, target }),
{
    let pc = reg_at(s, s.p);
    assert((pc & 0xFF00) | (target as u16) == (pc / 256) * 256 + target) by (bit_vector);
}

/// A successful step, where the decoder has the single answer
/// `(insn, size)`: the board drives its inputs; then the program counter
/// moves past the `size` bytes (modulo 2^16) and the instruction is
/// counted, and nothing else changes before `insn` runs; after it, the
/// board samples the outputs and sees the instruction end.
pub proof fn lemma_step_outline<B: BoardIo, F: Fn([u8; 3]) -> Result<(Instruction, u16), DecodeError>>(
    decode: F,
    s: CpuState,
    m: Seq<u8>,
    b: Option<B>,
    insn: Instruction,
    size: u16,
    s2: CpuState,
    m2: Seq<u8>,
    b2: Option<B>,
)
    requires
        !s.halted,
        can_count(s, b),
        forall|d: Result<(Instruction, u16), DecodeError>|
            #[trigger] decodes_to(decode, m, pc_of(synced(s, b)), d) ==> d == Ok::<
                (Instruction, u16),
                DecodeError,
            >((insn, size)),
        steps_once(decode, s, m, b, s2, m2, b2, Ok(())),
    ensures
        synced(s, b) == match b {
            Some(bb) => bb.inputs_synced(s),
            None => s,
        },
        ({
            let s0 = synced(s, b);
            let s1 = fetched_past(s0, size);
            &&& s1.r@ == regs_with(s0, s0.p, ((reg_at(s0, s0.p) + size) % 0x10000) as u16)
            &&& s1.instr_count == s0.instr_count + 1
            &&& (CpuState { r: s0.r, instr_count: s0.instr_count, ..s1 }) == s0
            &&& s2 == exec_state(s1, m, b, insn)
            &&& m2 == exec_memory(s1, m, b, insn)
            &&& b2 == match exec_board(s1, m, b, insn) {
                Some(x) => Some(x.outputs_synced(s2).after_tick()),
                None => None,
            }
        }),
{
    lemma_step_decoded(decode, s, m, b, Ok((insn, size)), s2, m2, b2, Ok(()));
}

} // verus!
