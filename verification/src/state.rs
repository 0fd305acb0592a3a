//! CDP1802 CPU state.

use vstd::prelude::*;

use crate::isa::ExternalFlag;

verus! {

/// The architectural state of the CPU: sixteen 16-bit scratchpad registers,
/// the accumulator `D`, data flag `DF`, selectors `P` and `X`, the `T`
/// register, the `Q` output, the four external flags, the interrupt latches,
/// and the emulator's halt flag and instruction counter.
#[derive(Debug, Clone, Eq, PartialEq)]
pub struct CpuState {
    pub r: [u16; 16],
    pub d: u8,
    pub df: bool,
    pub p: u8,
    pub x: u8,
    pub t: u8,
    pub q: bool,
    pub ef: [bool; 4],
    pub interrupt_enabled: bool,
    pub interrupt_pending: bool,
    pub halted: bool,
    pub instr_count: u64,
}

/// Register `R(idx & 0xF)` of `s`.
pub open spec fn reg_of(s: CpuState, idx: u8) -> u16 {
    s.r@[(idx % 16) as int]
}

/// `s` with register `R(idx & 0xF)` replaced by `value`.
pub open spec fn with_reg(s: CpuState, idx: u8, value: u16) -> CpuState {
    CpuState { r: vstd::array::spec_array_update(s.r, (idx % 16) as int, value), ..s }
}

/// The program counter: the register selected by `P`.
pub open spec fn pc_of(s: CpuState) -> u16 {
    reg_of(s, s.p)
}

/// `s` with the register selected by `P` replaced by `value`.
pub open spec fn with_pc(s: CpuState, value: u16) -> CpuState {
    with_reg(s, s.p, value)
}

/// `a + b` modulo 2^16.
pub open spec fn add16(a: int, b: int) -> u16 {
    ((a + b) % 0x10000) as u16
}

/// `a - b` modulo 2^16.
pub open spec fn sub16(a: int, b: int) -> u16 {
    ((a - b) % 0x10000) as u16
}

/// `s` with its program counter advanced by `n`, wrapping at 2^16.
pub open spec fn advanced(s: CpuState, n: u16) -> CpuState {
    with_pc(s, add16(pc_of(s) as int, n as int))
}

/// External flag `flag` of `s`.
pub open spec fn ef_of(s: CpuState, flag: ExternalFlag) -> bool {
    s.ef@[flag.slot()]
}

/// `s` with external flag `flag` set to `value`.
pub open spec fn with_ef(s: CpuState, flag: ExternalFlag, value: bool) -> CpuState {
    CpuState { ef: vstd::array::spec_array_update(s.ef, flag.slot(), value), ..s }
}

/// The reset state: all registers zero, interrupts enabled, not halted.
pub open spec fn is_reset_state(s: CpuState) -> bool {
    &&& forall|i: int| 0 <= i < 16 ==> s.r@[i] == 0u16
    &&& forall|i: int| 0 <= i < 4 ==> !s.ef@[i]
    &&& s.d == 0
    &&& !s.df
    &&& s.p == 0
    &&& s.x == 0
    &&& s.t == 0
    &&& !s.q
    &&& s.interrupt_enabled
    &&& !s.interrupt_pending
    &&& !s.halted
    &&& s.instr_count == 0
}

proof fn lemma_mask_low_nibble(idx: u8)
    ensures
        idx & 0x0F == idx % 16,
        idx % 16 < 16,
{
    assert(idx & 0x0F == idx % 16) by (bit_vector);
}

/// Reading a register after writing one gives the written value when both
/// name the same register (their low nibbles agree) and the old value
/// otherwise; nothing but the registers changes.
pub proof fn lemma_reg_write_read(s: CpuState, written: u8, value: u16, read: u8)
    ensures
        reg_of(with_reg(s, written, value), read) == if written % 16 == read % 16 {
            value
        } else {
            reg_of(s, read)
        },
        with_reg(s, written, value).d == s.d,
        with_reg(s, written, value).p == s.p,
        with_reg(s, written, value).x == s.x,
        with_reg(s, written, value).ef == s.ef,
{
}

/// The program counter reads back what `set_pc` wrote, and `advance_pc(n)`
/// adds `n` modulo 2^16.
pub proof fn lemma_pc_write_read(s: CpuState, value: u16, n: u16)
    ensures
        pc_of(with_pc(s, value)) == value,
        pc_of(advanced(s, n)) == (pc_of(s) + n) % 0x10000,
        with_pc(s, value).p == s.p,
{
}

/// An external flag reads back what was written; the other flags keep
/// their values.
pub proof fn lemma_ef_write_read(s: CpuState, written: ExternalFlag, value: bool, read: ExternalFlag)
    ensures
        ef_of(with_ef(s, written, value), read) == if written == read {
            value
        } else {
            ef_of(s, read)
        },
        with_ef(s, written, value).r == s.r,
{
}

/// Register `idx` is entry `idx & 0xF` of the register file, and the
/// program counter is entry `P & 0xF`; writing a register replaces that
/// entry alone and leaves every other field as it was. Advancing the
/// program counter by `n` adds `n` to that entry modulo 2^16.
pub proof fn lemma_register_file(s: CpuState, idx: u8, value: u16, n: u16)
    ensures
        reg_of(s, idx) == s.r@[(idx & 0x0F) as int],
        pc_of(s) == s.r@[(s.p & 0x0F) as int],
        with_reg(s, idx, value).r@ == s.r@.update((idx & 0x0F) as int, value),
        (CpuState { r: s.r, ..with_reg(s, idx, value) }) == s,
        advanced(s, n).r@ == s.r@.update(
            (s.p & 0x0F) as int,
            ((s.r@[(s.p & 0x0F) as int] + n) % 0x10000) as u16,
        ),
        (CpuState { r: s.r, ..advanced(s, n) }) == s,
{
    let p = s.p;
    assert(idx & 0x0F == idx % 16 && p & 0x0F == p % 16) by (bit_vector);
}

/// `EF1` to `EF4` are entries 0 to 3 of `ef`; setting a flag replaces that
/// entry alone and leaves every other field as it was.
pub proof fn lemma_flag_lines(s: CpuState, flag: ExternalFlag, value: bool)
    ensures
        ef_of(s, ExternalFlag::Ef1) == s.ef@[0],
        ef_of(s, ExternalFlag::Ef2) == s.ef@[1],
        ef_of(s, ExternalFlag::Ef3) == s.ef@[2],
        ef_of(s, ExternalFlag::Ef4) == s.ef@[3],
        with_ef(s, flag, value).ef@ == s.ef@.update(
            match flag {
                ExternalFlag::Ef1 => 0,
                ExternalFlag::Ef2 => 1,
                ExternalFlag::Ef3 => 2,
                ExternalFlag::Ef4 => 3,
            },
            value,
        ),
        (CpuState { ef: s.ef, ..with_ef(s, flag, value) }) == s,
{
}

impl CpuState {
    pub fn new() -> (state: Self)
        ensures
            is_reset_state(state),
    {
        Self::default()
    }

    /// The program counter `R(P)`.
    pub fn pc(&self) -> (pc: u16)
        ensures
            pc == pc_of(*self),
    {
        self.read_reg(self.p)
    }

    pub fn set_pc(&mut self, value: u16)
        ensures
            *final(self) == with_pc(*old(self), value),
    {
        let p = self.p;
        self.write_reg(p, value);
    }

    /// Adds `n` to the program counter, wrapping at 2^16.
    pub fn advance_pc(&mut self, n: u16)
        ensures
            *final(self) == advanced(*old(self), n),
    {
        let pc = self.pc().wrapping_add(n);
        self.set_pc(pc);
    }

    /// Register `R(index & 0xF)`.
    pub fn read_reg(&self, index: u8) -> (value: u16)
        ensures
            value == reg_of(*self, index),
    {
        proof {
            lemma_mask_low_nibble(index);
        }
        self.r[(index & 0x0F) as usize]
    }

    /// Writes register `R(index & 0xF)`.
    pub fn write_reg(&mut self, index: u8, value: u16)
        ensures
            *final(self) == with_reg(*old(self), index, value),
    {
        proof {
            lemma_mask_low_nibble(index);
        }
        self.r[(index & 0x0F) as usize] = value;
    }

    pub fn data_flag(&self) -> (df: bool)
        ensures
            df == self.df,
    {
        self.df
    }

    pub fn set_data_flag(&mut self, value: bool)
        ensures
            *final(self) == (CpuState { df: value, ..*old(self) }),
    {
        self.df = value;
    }

    pub fn set_interrupt_enabled(&mut self, value: bool)
        ensures
            *final(self) == (CpuState { interrupt_enabled: value, ..*old(self) }),
    {
        self.interrupt_enabled = value;
    }

    /// Latches an interrupt request.
    pub fn request_interrupt(&mut self)
        ensures
            *final(self) == (CpuState { interrupt_pending: true, ..*old(self) }),
    {
        self.interrupt_pending = true;
    }

    pub fn clear_interrupt_request(&mut self)
        ensures
            *final(self) == (CpuState { interrupt_pending: false, ..*old(self) }),
    {
        self.interrupt_pending = false;
    }

    pub fn external_flag(&self, flag: ExternalFlag) -> (value: bool)
        ensures
            value == ef_of(*self, flag),
    {
        self.ef[flag.slot_index()]
    }

    pub fn set_external_flag(&mut self, flag: ExternalFlag, value: bool)
        ensures
            *final(self) == with_ef(*old(self), flag, value),
    {
        self.ef[flag.slot_index()] = value;
    }
}

impl Default for CpuState {
    fn default() -> (state: Self)
        ensures
            is_reset_state(state),
    {
        Self {
            r: [0; 16],
            d: 0,
            df: false,
            p: 0,
            x: 0,
            t: 0,
            q: false,
            ef: [false; 4],
            interrupt_enabled: true,
            interrupt_pending: false,
            halted: false,
            instr_count: 0,
        }
    }
}

} // verus!
