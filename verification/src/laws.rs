//! Properties of the executor that span instructions and steps.

use vstd::prelude::*;

use crate::board::{
    delay_bucket, lemma_joystick_wiring, lemma_pulse, lemma_tick, BoardIo, FrontPanel, JoystickAxis,
    JoystickRcBoard,
};
use crate::exec::{
    added, bit, branched, completes, cpu_state, decoder_functional, decodes_to, exec_board, input_byte, is_trace, keeps_count,
    lemma_step_counts_one, link, mx_of, reaches, runs, sampled, step_budget, steps_once, subtracted, synced,
    with_d, ExecError, Machine, exec_state, exec_memory, long_branch_taken, long_skip_taken, mark_byte, rx_of,
};
use crate::isa::{DecodeError, Instruction, Reg};
use crate::instruction_laws::{mem_at, reg_at};
use crate::memory::stored;
use crate::state::{ef_of, pc_of, reg_of, with_pc, with_reg, CpuState};

verus! {

/// Addition leaves the carry in `DF`: `D' + 256 * DF' == D + value + carry`.
pub proof fn lemma_add_carry(s: CpuState, value: u8, carry: bool)
    ensures
        added(s, value, carry).d + 256 * bit(added(s, value, carry).df) == s.d + value + bit(carry),
        added(s, value, carry).r == s.r,
        added(s, value, carry).p == s.p,
        added(s, value, carry).x == s.x,
{
}

/// Subtraction sets `DF` exactly when no borrow occurs, and `D` holds the
/// difference modulo 256: `D' - 256 * (1 - DF') == minuend - subtrahend - borrow`.
pub proof fn lemma_subtract_borrow(s: CpuState, minuend: u8, subtrahend: u8, borrow: bool)
    ensures
        subtracted(s, minuend, subtrahend, borrow).df <==> minuend >= subtrahend + bit(borrow),
        subtracted(s, minuend, subtrahend, borrow).d - 256 * (1 - bit(
            subtracted(s, minuend, subtrahend, borrow).df,
        )) == minuend - subtrahend - bit(borrow),
{
}

/// A halted CPU refuses to step and nothing changes.
pub proof fn lemma_halted_refuses<B: BoardIo, F: Fn([u8; 3]) -> Result<(Instruction, u16), DecodeError>>(
    decode: F,
    s: CpuState,
    m: Seq<u8>,
    b: Option<B>,
    s2: CpuState,
    m2: Seq<u8>,
    b2: Option<B>,
    r: Result<(), ExecError>,
)
    requires
        s.halted,
    ensures
        steps_once(decode, s, m, b, s2, m2, b2, r) <==> (s2 == s && m2 == m && b2 == b && r == Err::<
            (),
            ExecError,
        >(ExecError::Halted)),
{
    reveal(steps_once);
}

/// Where the decoder has a single answer `d` for the bytes at the program
/// counter, a step from a running CPU is exactly what that answer makes of
/// it.
pub proof fn lemma_step_decoded<B: BoardIo, F: Fn([u8; 3]) -> Result<(Instruction, u16), DecodeError>>(
    decode: F,
    s: CpuState,
    m: Seq<u8>,
    b: Option<B>,
    d: Result<(Instruction, u16), DecodeError>,
    s2: CpuState,
    m2: Seq<u8>,
    b2: Option<B>,
    r: Result<(), ExecError>,
)
    requires
        !s.halted,
        forall|d2: Result<(Instruction, u16), DecodeError>|
            #[trigger] decodes_to(decode, m, pc_of(synced(s, b)), d2) ==> d2 == d,
        steps_once(decode, s, m, b, s2, m2, b2, r),
    ensures
        completes(synced(s, b), m, b, d, s2, m2, b2, r),
{
    reveal(steps_once);
}

/// Where the decoder rejects the bytes at the program counter with `e`, the
/// step reports `e`; the board has driven its inputs, and nothing else has
/// changed: not the program counter, the counter, memory or the board.
pub proof fn lemma_decode_error_step<B: BoardIo, F: Fn([u8; 3]) -> Result<(Instruction, u16), DecodeError>>(
    decode: F,
    s: CpuState,
    m: Seq<u8>,
    b: Option<B>,
    e: DecodeError,
    s2: CpuState,
    m2: Seq<u8>,
    b2: Option<B>,
    r: Result<(), ExecError>,
)
    requires
        !s.halted,
        forall|d2: Result<(Instruction, u16), DecodeError>|
            #[trigger] decodes_to(decode, m, pc_of(synced(s, b)), d2) ==> d2 == Err::<
                (Instruction, u16),
                DecodeError,
            >(e),
        steps_once(decode, s, m, b, s2, m2, b2, r),
    ensures
        r == Err::<(), ExecError>(ExecError::Decode(e)),
        s2 == synced(s, b),
        m2 == m,
        b2 == b,
{
    lemma_step_decoded(decode, s, m, b, Err(e), s2, m2, b2, r);
}

/// Across a successful step the joystick board sees one instruction end: a
/// step that runs `OUT 2` (`OUT 3`) starts a charge cycle on X (Y) with its
/// delay bucket left to go; any other step counts the running cycle down by
/// one, stopping at 0. The positions stay, and the LED shows `Q`.
pub proof fn lemma_joystick_step<F: Fn([u8; 3]) -> Result<(Instruction, u16), DecodeError>>(
    decode: F,
    s: CpuState,
    m: Seq<u8>,
    b: JoystickRcBoard,
    insn: Instruction,
    size: u16,
    s2: CpuState,
    m2: Seq<u8>,
    b2: JoystickRcBoard,
)
    requires
        forall|d2: Result<(Instruction, u16), DecodeError>|
            #[trigger] decodes_to(decode, m, pc_of(b.inputs_synced(s)), d2) ==> d2 == Ok::<
                (Instruction, u16),
                DecodeError,
            >((insn, size)),
        steps_once(decode, s, m, Some(b), s2, m2, Some(b2), Ok(())),
    ensures
        b2.x_pos() == b.x_pos(),
        b2.y_pos() == b.y_pos(),
        b2.led() == s2.q,
        insn == (Instruction::Output { port: 2 }) ==> b2.active() == Some(JoystickAxis::X)
            && b2.remaining() == delay_bucket(b.x_pos()),
        insn == (Instruction::Output { port: 3 }) ==> b2.active() == Some(JoystickAxis::Y)
            && b2.remaining() == delay_bucket(b.y_pos()),
        insn != (Instruction::Output { port: 2 }) && insn != (Instruction::Output { port: 3 })
            ==> b2.active() == b.active() && b2.remaining() == if b.remaining() > 0 {
            b.remaining() - 1
        } else {
            0
        },
{
    reveal(steps_once);
    assert(!s.halted);
    lemma_step_decoded(decode, s, m, Some(b), Ok((insn, size)), s2, m2, Some(b2), Ok(()));
    let s1 = crate::exec::fetched_past(b.inputs_synced(s), size);
    let out = exec_board(s1, m, Some(b), insn);
    let bo = out.unwrap();
    assert(Some(b2) == sampled(out, s2));
    lemma_joystick_wiring(b, s1, 2, mx_of(s1, m));
    lemma_joystick_wiring(b, s1, 3, mx_of(s1, m));
    lemma_joystick_wiring(bo, s2, 0, 0);
    lemma_tick(bo.outputs_synced(s2));
    lemma_pulse(b, JoystickAxis::X);
    lemma_pulse(b, JoystickAxis::Y);
    match insn {
        Instruction::Output { port } => {
            lemma_joystick_wiring(b, s1, port, mx_of(s1, m));
        },
        _ => {},
    }
}

/// A short branch stays in the page of the program counter and lands on
/// the target byte.
pub proof fn lemma_short_branch_in_page(s: CpuState, target: u8)
    ensures
        pc_of(branched(s, target)) / 256 == pc_of(s) / 256,
        pc_of(branched(s, target)) % 256 == target,
{
}

/// `PHI` then `GHI` on a register gives back `D`; likewise `PLO` then `GLO`.
pub proof fn lemma_register_halves_read_back(s: CpuState, m: Seq<u8>, reg: Reg)
    ensures
        cpu_state(cpu_state(s, m, Instruction::PutHigh { reg }), m, Instruction::GetHigh { reg }).d
            == s.d,
        cpu_state(cpu_state(s, m, Instruction::PutLow { reg }), m, Instruction::GetLow { reg }).d
            == s.d,
{
}

/// `PHI` with `D = hi` and then `PLO` with `D = lo` leave `hi * 256 + lo` in
/// the register.
pub proof fn lemma_register_halves_compose(s: CpuState, m: Seq<u8>, reg: Reg, hi: u8, lo: u8)
    ensures
        ({
            let s1 = cpu_state(with_d(s, hi), m, Instruction::PutHigh { reg });
            let s2 = cpu_state(with_d(s1, lo), m, Instruction::PutLow { reg });
            reg_of(s2, reg@) == hi * 256 + lo
        }),
{
}

/// On the front panel, `INP 1` reads the input latch and other ports read
/// 0, `OUT 1` shows its byte on the hex display and other ports leave it,
/// the input button drives `EF4`, and after each instruction the LED shows `Q`.
pub proof fn lemma_front_panel_wiring(fp: FrontPanel, s: CpuState, m: Seq<u8>, port: u8)
    ensures
        input_byte(Some(fp), port) == if port == 1 {
            fp.input_latch
        } else {
            0
        },
        synced(s, Some(fp)).ef@[3] == fp.input_pressed,
        synced(s, Some(fp)).r == s.r,
        sampled(Some(fp), s) == Some(FrontPanel { q_led: s.q, ..fp }),
        exec_board(s, m, Some(fp), Instruction::Output { port }) == Some(
            if port == 1 {
                FrontPanel { hex_display: mx_of(s, m), ..fp }
            } else {
                fp
            },
        ),
{
}

proof fn lemma_trace_counts<B: BoardIo, F: Fn([u8; 3]) -> Result<(Instruction, u16), DecodeError>>(
    decode: F,
    trace: Seq<Machine<B>>,
    k: nat,
    i: nat,
)
    requires
        keeps_count::<B>(),
        trace.len() == k + 1,
        forall|j: int| 0 <= j < k ==> #[trigger] link(decode, trace, j),
        i <= k,
        trace[0].0.instr_count + k <= u64::MAX,
    ensures
        trace[i as int].0.instr_count == trace[0].0.instr_count + i,
    decreases i,
{
    if i > 0 {
        let j = (i - 1) as int;
        lemma_trace_counts(decode, trace, k, (i - 1) as nat);
        assert(link(decode, trace, j));
        let b = trace[j].2;
        match b {
            Some(bb) => {
                assert(bb.inputs_synced(trace[j].0).instr_count == trace[j].0.instr_count);
            },
            None => {},
        }
        lemma_step_counts_one(
            decode,
            trace[j].0,
            trace[j].1,
            trace[j].2,
            trace[j + 1].0,
            trace[j + 1].1,
            trace[j + 1].2,
        );
    }
}

/// With a board that leaves the counter alone, `k` successful steps add
/// exactly `k` to the instruction counter.
pub proof fn lemma_steps_count<B: BoardIo, F: Fn([u8; 3]) -> Result<(Instruction, u16), DecodeError>>(
    decode: F,
    s0: CpuState,
    m0: Seq<u8>,
    b0: Option<B>,
    k: nat,
    s: CpuState,
    m: Seq<u8>,
    b: Option<B>,
)
    requires
        keeps_count::<B>(),
        reaches(decode, s0, m0, b0, k, s, m, b),
        s0.instr_count + k <= u64::MAX,
    ensures
        s.instr_count == s0.instr_count + k,
{
    let trace = choose|trace: Seq<Machine<B>>| #[trigger] is_trace(decode, trace, s0, m0, b0, k, s, m, b);
    lemma_trace_counts(decode, trace, k, k);
}

/// The number `run` returns is the number of instructions it executed: the
/// counter grew by exactly that much, and it stopped early only on a halt.
pub proof fn lemma_run_result_is_count<B: BoardIo, F: Fn([u8; 3]) -> Result<(Instruction, u16), DecodeError>>(
    decode: F,
    s0: CpuState,
    m0: Seq<u8>,
    b0: Option<B>,
    max_steps: u64,
    s: CpuState,
    m: Seq<u8>,
    b: Option<B>,
    n: u64,
)
    requires
        keeps_count::<B>(),
        runs(decode, s0, m0, b0, step_budget(s0, max_steps), s, m, b, Ok(n)),
    ensures
        s.instr_count == s0.instr_count + n,
        n <= max_steps,
        s.halted || n == step_budget(s0, max_steps),
{
    lemma_steps_count(decode, s0, m0, b0, n as nat, s, m, b);
}

/// Runs chain: `k1` steps to `(s1, m1, b1)` and `k2` steps on from there
/// are `k1 + k2` steps.
proof fn lemma_reaches_concat<B: BoardIo, F: Fn([u8; 3]) -> Result<(Instruction, u16), DecodeError>>(
    decode: F,
    s0: CpuState,
    m0: Seq<u8>,
    b0: Option<B>,
    k1: nat,
    s1: CpuState,
    m1: Seq<u8>,
    b1: Option<B>,
    k2: nat,
    s2: CpuState,
    m2: Seq<u8>,
    b2: Option<B>,
)
    requires
        reaches(decode, s0, m0, b0, k1, s1, m1, b1),
        reaches(decode, s1, m1, b1, k2, s2, m2, b2),
    ensures
        reaches(decode, s0, m0, b0, k1 + k2, s2, m2, b2),
{
    let t1 = choose|t: Seq<Machine<B>>| #[trigger] is_trace(decode, t, s0, m0, b0, k1, s1, m1, b1);
    let t2 = choose|t: Seq<Machine<B>>| #[trigger] is_trace(decode, t, s1, m1, b1, k2, s2, m2, b2);
    let t = t1 + t2.subrange(1, k2 as int + 1);
    assert(t.len() == k1 + k2 + 1);
    assert forall|i: int| 0 <= i < k1 + k2 implies #[trigger] link(decode, t, i) by {
        if i < k1 {
            assert(link(decode, t1, i));
            assert(t[i] == t1[i] && t[i + 1] == t1[i + 1]);
        } else {
            assert(link(decode, t2, i - k1));
            assert(t[i] == t2[i - k1] && t[i + 1] == t2[i - k1 + 1]);
        }
    }
    assert(t[(k1 + k2) as int] == t2[k2 as int]);
    assert(is_trace(decode, t, s0, m0, b0, k1 + k2, s2, m2, b2));
}

/// From a halted CPU no step succeeds: a run from it takes no step.
proof fn lemma_halted_reaches<B: BoardIo, F: Fn([u8; 3]) -> Result<(Instruction, u16), DecodeError>>(
    decode: F,
    s0: CpuState,
    m0: Seq<u8>,
    b0: Option<B>,
    k: nat,
    s: CpuState,
    m: Seq<u8>,
    b: Option<B>,
)
    requires
        s0.halted,
        reaches(decode, s0, m0, b0, k, s, m, b),
    ensures
        k == 0,
        s == s0,
        m == m0,
        b == b0,
{
    let t = choose|t: Seq<Machine<B>>| #[trigger] is_trace(decode, t, s0, m0, b0, k, s, m, b);
    if k > 0 {
        assert(link(decode, t, 0));
        reveal(steps_once);
    }
}

/// What a run of `a` steps followed by a run with budget `b` gives, as one
/// run with budget `a + b`: the step counts add up, and an error of the
/// second run is the error of the whole.
pub open spec fn chained(first: u64, second: Result<u64, ExecError>) -> Result<u64, ExecError> {
    match second {
        Ok(n) => Ok((first + n) as u64),
        Err(e) => Err(e),
    }
}

proof fn lemma_runs_compose<B: BoardIo, F: Fn([u8; 3]) -> Result<(Instruction, u16), DecodeError>>(
    decode: F,
    a: u64,
    b: u64,
    s0: CpuState,
    m0: Seq<u8>,
    b0: Option<B>,
    n1: u64,
    s1: CpuState,
    m1: Seq<u8>,
    b1: Option<B>,
    r2: Result<u64, ExecError>,
    s2: CpuState,
    m2: Seq<u8>,
    b2: Option<B>,
)
    requires
        a + b <= u64::MAX,
        runs(decode, s0, m0, b0, a, s1, m1, b1, Ok(n1)),
        runs(decode, s1, m1, b1, b, s2, m2, b2, r2),
    ensures
        runs(decode, s0, m0, b0, (a + b) as u64, s2, m2, b2, chained(n1, r2)),
{
    let ab = (a + b) as u64;
    if n1 < a {
        assert(s1.halted);
        match r2 {
            Ok(n2) => {
                lemma_halted_reaches(decode, s1, m1, b1, n2 as nat, s2, m2, b2);
                assert(n1 + n2 == n1);
            },
            Err(e) => {
                let (k, sx, mx, bx) = choose|k: nat, sx: CpuState, mx: Seq<u8>, bx: Option<B>|
                    #[trigger] reaches(decode, s1, m1, b1, k, sx, mx, bx) && k < b && !sx.halted
                        && steps_once(decode, sx, mx, bx, s2, m2, b2, Err::<(), ExecError>(e));
                lemma_halted_reaches(decode, s1, m1, b1, k, sx, mx, bx);
            },
        }
    } else {
        assert(n1 == a);
        match r2 {
            Ok(n2) => {
                lemma_reaches_concat(decode, s0, m0, b0, n1 as nat, s1, m1, b1, n2 as nat, s2, m2, b2);
                assert((n1 + n2) as nat == n1 as nat + n2 as nat);
            },
            Err(e) => {
                let (k, sx, mx, bx) = choose|k: nat, sx: CpuState, mx: Seq<u8>, bx: Option<B>|
                    #[trigger] reaches(decode, s1, m1, b1, k, sx, mx, bx) && k < b && !sx.halted
                        && steps_once(decode, sx, mx, bx, s2, m2, b2, Err::<(), ExecError>(e));
                lemma_reaches_concat(decode, s0, m0, b0, n1 as nat, s1, m1, b1, k, sx, mx, bx);
                assert(reaches(decode, s0, m0, b0, (n1 + k) as nat, sx, mx, bx) && n1 + k < ab);
            },
        }
    }
}

/// Running `a` steps and then `b` more is running `a + b` steps: the
/// machine ends the same, the counts add up, and an error of the second
/// run is the error of the whole (while the counter has room for both).
pub proof fn lemma_run_then_run<B: BoardIo, F: Fn([u8; 3]) -> Result<(Instruction, u16), DecodeError>>(
    decode: F,
    a: u64,
    b: u64,
    s0: CpuState,
    m0: Seq<u8>,
    b0: Option<B>,
    n1: u64,
    s1: CpuState,
    m1: Seq<u8>,
    b1: Option<B>,
    r2: Result<u64, ExecError>,
    s2: CpuState,
    m2: Seq<u8>,
    b2: Option<B>,
)
    requires
        keeps_count::<B>(),
        s0.instr_count + a + b <= u64::MAX,
        runs(decode, s0, m0, b0, step_budget(s0, a), s1, m1, b1, Ok(n1)),
        runs(decode, s1, m1, b1, step_budget(s1, b), s2, m2, b2, r2),
    ensures
        runs(decode, s0, m0, b0, step_budget(s0, (a + b) as u64), s2, m2, b2, chained(n1, r2)),
{
    lemma_steps_count(decode, s0, m0, b0, n1 as nat, s1, m1, b1);
    assert(step_budget(s1, b) == b);
    lemma_runs_compose(decode, a, b, s0, m0, b0, n1, s1, m1, b1, r2, s2, m2, b2);
}

/// With a decoder that is a function of its bytes, a step is a function of
/// the machine it starts from: two steps from the same machine end in the
/// same machine with the same result.
pub proof fn lemma_step_deterministic<B: BoardIo, F: Fn([u8; 3]) -> Result<(Instruction, u16), DecodeError>>(
    decode: F,
    s: CpuState,
    m: Seq<u8>,
    b: Option<B>,
    s2: CpuState,
    m2: Seq<u8>,
    b2: Option<B>,
    r2: Result<(), ExecError>,
    s3: CpuState,
    m3: Seq<u8>,
    b3: Option<B>,
    r3: Result<(), ExecError>,
)
    requires
        decoder_functional(decode),
        steps_once(decode, s, m, b, s2, m2, b2, r2),
        steps_once(decode, s, m, b, s3, m3, b3, r3),
    ensures
        s2 == s3,
        m2 == m3,
        b2 == b3,
        r2 == r3,
{
    reveal(steps_once);
    if !s.halted {
        let s0 = synced(s, b);
        let d2 = choose|d: Result<(Instruction, u16), DecodeError>|
            #[trigger] decodes_to(decode, m, pc_of(s0), d) && completes(s0, m, b, d, s2, m2, b2, r2);
        let d3 = choose|d: Result<(Instruction, u16), DecodeError>|
            #[trigger] decodes_to(decode, m, pc_of(s0), d) && completes(s0, m, b, d, s3, m3, b3, r3);
        assert(d2 == d3);
    }
}

/// Two traces from the same machine agree entry by entry as far as both go.
proof fn lemma_traces_agree<B: BoardIo, F: Fn([u8; 3]) -> Result<(Instruction, u16), DecodeError>>(
    decode: F,
    t1: Seq<Machine<B>>,
    k1: nat,
    t2: Seq<Machine<B>>,
    k2: nat,
    i: nat,
)
    requires
        decoder_functional(decode),
        t1.len() == k1 + 1,
        t2.len() == k2 + 1,
        t1[0] == t2[0],
        forall|j: int| 0 <= j < k1 ==> #[trigger] link(decode, t1, j),
        forall|j: int| 0 <= j < k2 ==> #[trigger] link(decode, t2, j),
        i <= k1,
        i <= k2,
    ensures
        t1[i as int] == t2[i as int],
    decreases i,
{
    if i > 0 {
        let j = (i - 1) as int;
        lemma_traces_agree(decode, t1, k1, t2, k2, (i - 1) as nat);
        assert(link(decode, t1, j));
        assert(link(decode, t2, j));
        lemma_step_deterministic(
            decode,
            t1[j].0,
            t1[j].1,
            t1[j].2,
            t1[j + 1].0,
            t1[j + 1].1,
            t1[j + 1].2,
            Ok(()),
            t2[j + 1].0,
            t2[j + 1].1,
            t2[j + 1].2,
            Ok(()),
        );
    }
}

/// A step from a halted CPU never succeeds, and a step that fails is not a
/// step that succeeds.
proof fn lemma_no_ok_step<B: BoardIo, F: Fn([u8; 3]) -> Result<(Instruction, u16), DecodeError>>(
    decode: F,
    s: CpuState,
    m: Seq<u8>,
    b: Option<B>,
    s2: CpuState,
    m2: Seq<u8>,
    b2: Option<B>,
)
    requires
        s.halted,
    ensures
        !steps_once(decode, s, m, b, s2, m2, b2, Ok(())),
{
    reveal(steps_once);
}

/// With a decoder that is a function of its bytes, a run is a function of
/// the machine it starts from and its budget: two runs from the same
/// machine with the same budget end in the same machine with the same
/// result.
pub proof fn lemma_runs_deterministic<B: BoardIo, F: Fn([u8; 3]) -> Result<(Instruction, u16), DecodeError>>(
    decode: F,
    s0: CpuState,
    m0: Seq<u8>,
    b0: Option<B>,
    budget: u64,
    s1: CpuState,
    m1: Seq<u8>,
    b1: Option<B>,
    r1: Result<u64, ExecError>,
    s2: CpuState,
    m2: Seq<u8>,
    b2: Option<B>,
    r2: Result<u64, ExecError>,
)
    requires
        decoder_functional(decode),
        runs(decode, s0, m0, b0, budget, s1, m1, b1, r1),
        runs(decode, s0, m0, b0, budget, s2, m2, b2, r2),
    ensures
        s1 == s2,
        m1 == m2,
        b1 == b2,
        r1 == r2,
{
    // Each outcome is the end of a trace of `k` successful steps, followed
    // (on an error) by one failing step; compare the two traces.
    let (k1, e1) = the_run(decode, s0, m0, b0, budget, s1, m1, b1, r1);
    let (k2, e2) = the_run(decode, s0, m0, b0, budget, s2, m2, b2, r2);
    let t1 = choose|t: Seq<Machine<B>>| #[trigger] is_trace(decode, t, s0, m0, b0, k1, e1.0, e1.1, e1.2);
    let t2 = choose|t: Seq<Machine<B>>| #[trigger] is_trace(decode, t, s0, m0, b0, k2, e2.0, e2.1, e2.2);
    if k1 < k2 {
        lemma_traces_agree(decode, t1, k1, t2, k2, k1);
        assert(link(decode, t2, k1 as int));
        if r1 is Ok {
            lemma_no_ok_step(decode, e1.0, e1.1, e1.2, t2[k1 as int + 1].0, t2[k1 as int + 1].1, t2[k1 as int + 1].2);
        } else {
            lemma_step_deterministic(
                decode, e1.0, e1.1, e1.2, s1, m1, b1, Err(r1->Err_0),
                t2[k1 as int + 1].0, t2[k1 as int + 1].1, t2[k1 as int + 1].2, Ok(()),
            );
        }
    } else if k2 < k1 {
        lemma_traces_agree(decode, t2, k2, t1, k1, k2);
        assert(link(decode, t1, k2 as int));
        if r2 is Ok {
            lemma_no_ok_step(decode, e2.0, e2.1, e2.2, t1[k2 as int + 1].0, t1[k2 as int + 1].1, t1[k2 as int + 1].2);
        } else {
            lemma_step_deterministic(
                decode, e2.0, e2.1, e2.2, s2, m2, b2, Err(r2->Err_0),
                t1[k2 as int + 1].0, t1[k2 as int + 1].1, t1[k2 as int + 1].2, Ok(()),
            );
        }
    } else {
        lemma_traces_agree(decode, t1, k1, t2, k2, k1);
        assert(e1 == e2);
        match (r1, r2) {
            (Ok(n1), Ok(n2)) => {},
            (Err(x1), Err(x2)) => {
                lemma_step_deterministic(decode, e1.0, e1.1, e1.2, s1, m1, b1, Err(x1), s2, m2, b2, Err(x2));
            },
            (Ok(n1), Err(x2)) => {},
            (Err(x1), Ok(n2)) => {},
        }
    }
}

/// How a run went: the number of successful steps and the machine they
/// reached; on an error, a running CPU that the next step failed from.
proof fn the_run<B: BoardIo, F: Fn([u8; 3]) -> Result<(Instruction, u16), DecodeError>>(
    decode: F,
    s0: CpuState,
    m0: Seq<u8>,
    b0: Option<B>,
    budget: u64,
    s: CpuState,
    m: Seq<u8>,
    b: Option<B>,
    r: Result<u64, ExecError>,
) -> (out: (nat, Machine<B>))
    requires
        runs(decode, s0, m0, b0, budget, s, m, b, r),
    ensures
        reaches(decode, s0, m0, b0, out.0, out.1.0, out.1.1, out.1.2),
        out.0 <= budget,
        r is Ok ==> out.0 == r->Ok_0 && out.1 == (s, m, b) && (s.halted || out.0 == budget),
        r is Err ==> out.0 < budget && !out.1.0.halted && steps_once(
            decode,
            out.1.0,
            out.1.1,
            out.1.2,
            s,
            m,
            b,
            Err::<(), ExecError>(r->Err_0),
        ),
{
    match r {
        Ok(n) => (n as nat, (s, m, b)),
        Err(e) => {
            let (k, sx, mx, bx) = choose|k: nat, sx: CpuState, mx: Seq<u8>, bx: Option<B>|
                #[trigger] reaches(decode, s0, m0, b0, k, sx, mx, bx) && k < budget && !sx.halted
                    && steps_once(decode, sx, mx, bx, s, m, b, Err::<(), ExecError>(e));
            (k, (sx, mx, bx))
        },
    }
}

/// Running `a` steps and then `b` more gives what one run of `a + b` steps
/// from the same machine gives: the same machine, the counts added up, and
/// an error of the second run as the error of the whole (with a decoder
/// that is a function of its bytes, a board that leaves the counter alone,
/// and room in the counter for both runs).
pub proof fn lemma_run_split<B: BoardIo, F: Fn([u8; 3]) -> Result<(Instruction, u16), DecodeError>>(
    decode: F,
    a: u64,
    b: u64,
    s0: CpuState,
    m0: Seq<u8>,
    b0: Option<B>,
    n1: u64,
    s1: CpuState,
    m1: Seq<u8>,
    b1: Option<B>,
    r2: Result<u64, ExecError>,
    s2: CpuState,
    m2: Seq<u8>,
    b2: Option<B>,
    r: Result<u64, ExecError>,
    s: CpuState,
    m: Seq<u8>,
    bd: Option<B>,
)
    requires
        decoder_functional(decode),
        keeps_count::<B>(),
        s0.instr_count + a + b <= u64::MAX,
        runs(decode, s0, m0, b0, step_budget(s0, a), s1, m1, b1, Ok(n1)),
        runs(decode, s1, m1, b1, step_budget(s1, b), s2, m2, b2, r2),
        runs(decode, s0, m0, b0, step_budget(s0, (a + b) as u64), s, m, bd, r),
    ensures
        r == chained(n1, r2),
        s == s2,
        m == m2,
        bd == b2,
{
    lemma_run_then_run(decode, a, b, s0, m0, b0, n1, s1, m1, b1, r2, s2, m2, b2);
    lemma_runs_deterministic(
        decode,
        s0,
        m0,
        b0,
        step_budget(s0, (a + b) as u64),
        s,
        m,
        bd,
        r,
        s2,
        m2,
        b2,
        chained(n1, r2),
    );
}

/// The arithmetic instructions that add: `ADD`, `ADI`, `ADC`, `ADCI`.
pub open spec fn is_add_form(insn: Instruction) -> bool {
    insn is Add || insn is AddImmediate || insn is AddWithCarry || insn is AddWithCarryImmediate
}

/// The arithmetic instructions that compute operand minus `D`: `SD`, `SDI`,
/// `SDB`, `SDBI`.
pub open spec fn is_sd_form(insn: Instruction) -> bool {
    insn is SubtractDNoBorrow || insn is SubtractDImmediateNoBorrow || insn is SubtractDWithBorrow
        || insn is SubtractDWithBorrowImmediate
}

/// The arithmetic instructions that compute `D` minus operand: `SM`, `SMI`,
/// `SMB`, `SMBI`.
pub open spec fn is_sm_form(insn: Instruction) -> bool {
    insn is SubtractMemoryNoBorrow || insn is SubtractMemoryNoBorrowImmediate
        || insn is SubtractMemoryWithBorrow || insn is SubtractMemoryWithBorrowImmediate
}

/// Whether an arithmetic instruction takes `DF` in, as carry or as borrow.
pub open spec fn takes_df(insn: Instruction) -> bool {
    insn is AddWithCarry || insn is AddWithCarryImmediate || insn is SubtractDWithBorrow
        || insn is SubtractDWithBorrowImmediate || insn is SubtractMemoryWithBorrow
        || insn is SubtractMemoryWithBorrowImmediate
}

/// The operand of an arithmetic instruction: its immediate byte, or
/// `M(R(X))` for the memory forms.
pub open spec fn operand(s: CpuState, m: Seq<u8>, insn: Instruction) -> u8 {
    match insn {
        Instruction::AddImmediate { value } => value,
        Instruction::AddWithCarryImmediate { value } => value,
        Instruction::SubtractDImmediateNoBorrow { value } => value,
        Instruction::SubtractDWithBorrowImmediate { value } => value,
        Instruction::SubtractMemoryNoBorrowImmediate { value } => value,
        Instruction::SubtractMemoryWithBorrowImmediate { value } => value,
        _ => mem_at(m, reg_at(s, s.x)),
    }
}

/// The carry an add takes in: `DF` for `ADC`/`ADCI`, else 0.
pub open spec fn carry_in(s: CpuState, insn: Instruction) -> int {
    if takes_df(insn) && s.df {
        1
    } else {
        0
    }
}

/// The borrow a subtraction takes in: `!DF` for the borrow forms, else 0.
pub open spec fn borrow_in(s: CpuState, insn: Instruction) -> int {
    if takes_df(insn) && !s.df {
        1
    } else {
        0
    }
}

/// Arithmetic: an add leaves `(D + v + c) mod 256` in `D` and the carry out
/// in `DF`; `SD` forms leave `(v - D - b) mod 256` and `SM` forms
/// `(D - v - b) mod 256`, with `DF` set when nothing was borrowed. Nothing
/// else changes: not a register, `P`, `X`, `T`, `Q`, `IE`, memory or the
/// board.
pub proof fn lemma_arithmetic<B: BoardIo>(s: CpuState, m: Seq<u8>, b: Option<B>, insn: Instruction)
    requires
        is_add_form(insn) || is_sd_form(insn) || is_sm_form(insn),
    ensures
        is_add_form(insn) ==> exec_state(s, m, b, insn) == (CpuState {
            d: ((s.d + operand(s, m, insn) + carry_in(s, insn)) % 256) as u8,
            df: s.d + operand(s, m, insn) + carry_in(s, insn) > 255,
            ..s
        }),
        is_sd_form(insn) ==> exec_state(s, m, b, insn) == (CpuState {
            d: ((operand(s, m, insn) - s.d - borrow_in(s, insn)) % 256) as u8,
            df: operand(s, m, insn) >= s.d + borrow_in(s, insn),
            ..s
        }),
        is_sm_form(insn) ==> exec_state(s, m, b, insn) == (CpuState {
            d: ((s.d - operand(s, m, insn) - borrow_in(s, insn)) % 256) as u8,
            df: s.d >= operand(s, m, insn) + borrow_in(s, insn),
            ..s
        }),
        exec_memory(s, m, b, insn) == m,
        exec_board(s, m, b, insn) == b,
{
    match insn {
        Instruction::Add => {},
        Instruction::AddImmediate { value } => {},
        Instruction::AddWithCarry => {},
        Instruction::AddWithCarryImmediate { value } => {},
        Instruction::SubtractDNoBorrow => {},
        Instruction::SubtractDImmediateNoBorrow { value } => {},
        Instruction::SubtractDWithBorrow => {},
        Instruction::SubtractDWithBorrowImmediate { value } => {},
        Instruction::SubtractMemoryNoBorrow => {},
        Instruction::SubtractMemoryNoBorrowImmediate { value } => {},
        Instruction::SubtractMemoryWithBorrow => {},
        Instruction::SubtractMemoryWithBorrowImmediate { value } => {},
        _ => {},
    }
}

/// Shifts: `SHR` and `SHRC` shift `D` right, the bit shifted out landing in
/// `DF` and `SHRC` shifting the old `DF` in at the top; `SHL` and `SHLC`
/// shift left, the top bit landing in `DF` and `SHLC` shifting the old `DF`
/// in at the bottom. Nothing else changes.
pub proof fn lemma_shifts<B: BoardIo>(s: CpuState, m: Seq<u8>, b: Option<B>, insn: Instruction)
    requires
        insn is ShiftRight || insn is ShiftRightWithCarry || insn is ShiftLeft
            || insn is ShiftLeftWithCarry,
    ensures
        insn is ShiftRight ==> exec_state(s, m, b, insn) == (CpuState {
            d: s.d >> 1u8,
            df: s.d & 1 == 1,
            ..s
        }),
        insn is ShiftRightWithCarry ==> exec_state(s, m, b, insn) == (CpuState {
            d: (s.d >> 1u8) | (if s.df { 0x80u8 } else { 0u8 }),
            df: s.d & 1 == 1,
            ..s
        }),
        insn is ShiftLeft ==> exec_state(s, m, b, insn) == (CpuState {
            d: s.d << 1u8,
            df: s.d & 0x80 != 0,
            ..s
        }),
        insn is ShiftLeftWithCarry ==> exec_state(s, m, b, insn) == (CpuState {
            d: (s.d << 1u8) | (if s.df { 1u8 } else { 0u8 }),
            df: s.d & 0x80 != 0,
            ..s
        }),
        exec_memory(s, m, b, insn) == m,
        exec_board(s, m, b, insn) == b,
{
    let d = s.d;
    assert(d >> 1u8 == d / 2 && (d & 1 == 1) == (d % 2 == 1)) by (bit_vector);
    assert((d >> 1u8) | 0x80u8 == d / 2 + 128 && (d >> 1u8) | 0u8 == d / 2) by (bit_vector);
    assert(d << 1u8 == (d * 2) % 256 && (d & 0x80 != 0) == (d >= 128)) by (bit_vector);
    assert((d << 1u8) | 1u8 == (d * 2) % 256 + 1 && (d << 1u8) | 0u8 == (d * 2) % 256) by (bit_vector);
}

/// Whether a short branch is taken: always for `BR`, else when its flag
/// (`Q`, `D == 0`, `DF` or an `EF` line) is as expected. `SKP` never jumps.
pub open spec fn short_branch_taken(s: CpuState, insn: Instruction) -> bool {
    match insn {
        Instruction::Branch { target } => true,
        Instruction::BranchQ { expected, target } => s.q == expected,
        Instruction::BranchZero { expected, target } => (s.d == 0) == expected,
        Instruction::BranchDataFlag { expected, target } => s.df == expected,
        Instruction::BranchExternalFlag { flag, expected, target } => ef_of(s, flag) == expected,
        _ => false,
    }
}

/// The target byte of a short branch.
pub open spec fn short_target(insn: Instruction) -> u8 {
    match insn {
        Instruction::Branch { target } => target,
        Instruction::BranchQ { expected, target } => target,
        Instruction::BranchZero { expected, target } => target,
        Instruction::BranchDataFlag { expected, target } => target,
        Instruction::BranchExternalFlag { flag, expected, target } => target,
        _ => 0,
    }
}

/// Short branches: a taken branch replaces the low byte of the program
/// counter (already past the instruction) with the target and keeps its
/// page; one not taken changes nothing. Only `R(P)` can change.
pub proof fn lemma_short_branches<B: BoardIo>(s: CpuState, m: Seq<u8>, b: Option<B>, insn: Instruction)
    requires
        insn is Branch || insn is BranchQ || insn is BranchZero || insn is BranchDataFlag
            || insn is BranchExternalFlag || insn is ShortSkip,
    ensures
        exec_state(s, m, b, insn) == if short_branch_taken(s, insn) {
            with_pc(s, (pc_of(s) & 0xFF00u16) | (short_target(insn) as u16))
        } else {
            s
        },
        exec_memory(s, m, b, insn) == m,
        exec_board(s, m, b, insn) == b,
{
    let pc = pc_of(s);
    let t = short_target(insn);
    assert((pc & 0xFF00u16) | (t as u16) == (pc / 256) * 256 + t) by (bit_vector);
}

/// Long branches, long skips and `NOP`: a taken long branch loads its
/// target into the program counter, a taken long skip steps it over two
/// more bytes, and otherwise (and for `NOP`) nothing changes. Only `R(P)`
/// can change.
pub proof fn lemma_long_branches<B: BoardIo>(s: CpuState, m: Seq<u8>, b: Option<B>, insn: Instruction)
    requires
        insn is LongBranch || insn is LongSkip || insn is NoOperation,
    ensures
        exec_state(s, m, b, insn) == match insn {
            Instruction::LongBranch { condition, target } => if long_branch_taken(s, condition) {
                with_pc(s, target)
            } else {
                s
            },
            Instruction::LongSkip { condition } => if long_skip_taken(s, condition) {
                with_pc(s, pc_of(s).wrapping_add(2))
            } else {
                s
            },
            _ => s,
        },
        exec_memory(s, m, b, insn) == m,
        exec_board(s, m, b, insn) == b,
{
}

/// `RET` and `DIS`: `R(X)` steps past the byte it points at, whose high
/// nibble becomes `X` and low nibble `P`; `RET` enables interrupts and `DIS`
/// disables them. Nothing else changes.
pub proof fn lemma_return<B: BoardIo>(s: CpuState, m: Seq<u8>, b: Option<B>, insn: Instruction)
    requires
        insn is Return || insn is DisableInterrupt,
    ensures
        exec_state(s, m, b, insn) == (CpuState {
            x: mx_of(s, m) >> 4u8,
            p: mx_of(s, m) & 0x0F,
            interrupt_enabled: insn is Return,
            ..with_reg(s, s.x, rx_of(s).wrapping_add(1))
        }),
        exec_memory(s, m, b, insn) == m,
        exec_board(s, m, b, insn) == b,
{
    let v = mx_of(s, m);
    assert(v >> 4u8 == v / 16 && v & 0x0F == v % 16) by (bit_vector);
}

/// `MARK`: `T` takes `X` in its high nibble and `P` in its low one, is
/// saved at `R(2)`, `X` takes the value of `P`, and `R(2)` steps down.
pub proof fn lemma_mark<B: BoardIo>(s: CpuState, m: Seq<u8>, b: Option<B>)
    ensures
        ({
            let t = ((s.x & 0x0F) << 4u8) | (s.p & 0x0F);
            &&& exec_state(s, m, b, Instruction::Mark) == with_reg(
                CpuState { t, x: s.p & 0x0F, ..s },
                2,
                reg_of(s, 2).wrapping_sub(1),
            )
            &&& exec_memory(s, m, b, Instruction::Mark) == stored(m, reg_of(s, 2) as int, t)
        }),
        exec_board(s, m, b, Instruction::Mark) == b,
{
    let x = s.x;
    let p = s.p;
    assert(((x & 0x0F) << 4u8) | (p & 0x0F) == ((x % 16) * 16 + p % 16) as u8 && p & 0x0F == p % 16)
        by (bit_vector);
}

/// Memory without a board: `STR`, `STXD`, `SAV` and `MARK` write one byte
/// (`D`, `D`, `T` and the new `T`), `INP` writes the 0 it read at `R(X)`,
/// and every other instruction leaves memory as it was. Its size never
/// changes.
pub proof fn lemma_memory_effects(s: CpuState, m: Seq<u8>, insn: Instruction)
    ensures
        exec_memory(s, m, None::<FrontPanel>, insn) == match insn {
            Instruction::Store { reg } => stored(m, reg_of(s, reg@) as int, s.d),
            Instruction::StoreViaXDecrement => stored(m, rx_of(s) as int, s.d),
            Instruction::Save => stored(m, rx_of(s) as int, s.t),
            Instruction::Input { port } => stored(m, rx_of(s) as int, 0),
            Instruction::Mark => stored(m, reg_of(s, 2) as int, mark_byte(s)),
            _ => m,
        },
        exec_memory(s, m, None::<FrontPanel>, insn).len() == m.len(),
{
}

} // verus!
