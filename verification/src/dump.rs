//! Human-readable CPU state and memory dumps.

use vstd::prelude::*;

use crate::state::CpuState;
use crate::text::{
    bool_text, dec_text, digits, hex_text, lemma_number_reads_back, line, number_text,
    push_bool_line, push_char, push_number, push_number_line, text_value,
};

verus! {

/// Upper-case hexadecimal digit for `d` (below 16), as in register names.
pub open spec fn upper_digit(d: nat) -> char {
    if d < 10 {
        (48 + d) as char
    } else {
        (55 + d) as char
    }
}

/// Lines `EF1` to `EFk`.
pub open spec fn ef_lines(s: CpuState, k: nat) -> Seq<char>
    decreases k,
{
    if k == 0 {
        Seq::empty()
    } else {
        ef_lines(s, (k - 1) as nat) + line("EF"@ + dec_text(k) + "         = "@, bool_text(s.ef@[k - 1]))
    }
}

/// Lines `R0` to `R(k-1)`, names padded to eleven columns.
pub open spec fn reg_lines(s: CpuState, k: nat) -> Seq<char>
    decreases k,
{
    if k == 0 {
        Seq::empty()
    } else {
        reg_lines(s, (k - 1) as nat) + line(
            seq!['R', upper_digit((k - 1) as nat)] + "         = 0x"@,
            hex_text(s.r@[k - 1] as nat, 4),
        )
    }
}

/// The lines for `D`, `DF`, `P`, `X`, `T` and `Q`.
pub open spec fn head_lines(s: CpuState) -> Seq<char> {
    line("D           = 0x"@, hex_text(s.d as nat, 2)) + line("DF          = "@, bool_text(s.df))
        + line("P           = 0x"@, hex_text(s.p as nat, 0)) + line(
        "X           = 0x"@,
        hex_text(s.x as nat, 0),
    ) + line("T           = 0x"@, hex_text(s.t as nat, 2)) + line("Q           = "@, bool_text(s.q))
}

/// The lines for the interrupt latches, the halt flag and the counter.
pub open spec fn tail_lines(s: CpuState) -> Seq<char> {
    line("IE          = "@, bool_text(s.interrupt_enabled)) + line(
        "IRQ pending = "@,
        bool_text(s.interrupt_pending),
    ) + line("halted      = "@, bool_text(s.halted)) + line(
        "instr_count = "@,
        dec_text(s.instr_count as nat),
    )
}

/// The dump of `s`: one `NAME = value` line per field, then the registers.
pub open spec fn cpu_text(s: CpuState) -> Seq<char> {
    head_lines(s) + ef_lines(s, 4) + tail_lines(s) + reg_lines(s, 16)
}

fn upper_digit_char(d: u8) -> (c: char)
    requires
        d < 16,
    ensures
        c == upper_digit(d as nat),
{
    if d < 10 {
        (48u8 + d) as char
    } else {
        (55u8 + d) as char
    }
}

fn push_head(out: &mut String, state: &CpuState)
    ensures
        final(out)@ == old(out)@ + head_lines(*state),
{
    let ghost start = out@;
    push_number_line(out, "D           = 0x", state.d as u64, 16, 2);
    push_bool_line(out, "DF          = ", state.df);
    push_number_line(out, "P           = 0x", state.p as u64, 16, 0);
    push_number_line(out, "X           = 0x", state.x as u64, 16, 0);
    push_number_line(out, "T           = 0x", state.t as u64, 16, 2);
    push_bool_line(out, "Q           = ", state.q);
    assert(out@ =~= start + head_lines(*state));
}

fn push_tail(out: &mut String, state: &CpuState)
    ensures
        final(out)@ == old(out)@ + tail_lines(*state),
{
    let ghost start = out@;
    push_bool_line(out, "IE          = ", state.interrupt_enabled);
    push_bool_line(out, "IRQ pending = ", state.interrupt_pending);
    push_bool_line(out, "halted      = ", state.halted);
    push_number_line(out, "instr_count = ", state.instr_count, 10, 0);
    assert(out@ =~= start + tail_lines(*state));
}

fn push_ef_lines(out: &mut String, state: &CpuState)
    ensures
        final(out)@ == old(out)@ + ef_lines(*state, 4),
{
    let ghost start = out@;
    let mut i: usize = 0;
    while i < 4
        invariant
            i <= 4,
            out@ == start + ef_lines(*state, i as nat),
        decreases 4 - i,
    {
        let ghost before = out@;
        out.append("EF");
        push_number(out, (i + 1) as u64, 10, 0);
        push_bool_line(out, "         = ", state.ef[i]);
        assert(out@ =~= start + ef_lines(*state, (i + 1) as nat));
        i = i + 1;
    }
}

fn push_reg_lines(out: &mut String, state: &CpuState)
    ensures
        final(out)@ == old(out)@ + reg_lines(*state, 16),
{
    let ghost start = out@;
    let mut k: usize = 0;
    while k < 16
        invariant
            k <= 16,
            out@ == start + reg_lines(*state, k as nat),
        decreases 16 - k,
    {
        push_char(out, 'R');
        push_char(out, upper_digit_char(k as u8));
        push_number_line(out, "         = 0x", state.r[k] as u64, 16, 4);
        assert(out@ =~= start + reg_lines(*state, (k + 1) as nat));
        k = k + 1;
    }
}

/// The CPU state as text, one `NAME = value` line per field.
pub fn format_cpu_state(state: &CpuState) -> (text: String)
    ensures
        text@ == cpu_text(*state),
{
    let mut out = String::new();
    push_head(&mut out, state);
    push_ef_lines(&mut out, state);
    push_tail(&mut out, state);
    push_reg_lines(&mut out, state);
    assert(out@ =~= cpu_text(*state));
    out
}

/// How a byte shows in the text column: itself when it is printable ASCII
/// (space to `~`), `.` otherwise.
pub open spec fn shown_char(b: u8) -> char {
    if 0x20 <= b <= 0x7e {
        b as char
    } else {
        '.'
    }
}

/// Each byte of `c` as two hex digits and a space.
pub open spec fn hex_bytes(c: Seq<u8>) -> Seq<char>
    decreases c.len(),
{
    if c.len() == 0 {
        Seq::empty()
    } else {
        hex_bytes(c.drop_last()) + hex_text(c.last() as nat, 2) + seq![' ']
    }
}

/// Three spaces for each of `k` missing bytes.
pub open spec fn gap(k: nat) -> Seq<char>
    decreases k,
{
    if k == 0 {
        Seq::empty()
    } else {
        gap((k - 1) as nat) + "   "@
    }
}

/// The text column of `c`.
pub open spec fn shown(c: Seq<u8>) -> Seq<char> {
    Seq::new(c.len(), |j: int| shown_char(c[j]))
}

/// Chunk `i` of `bytes`: sixteen bytes from `16 * i`, fewer at the end.
pub open spec fn chunk_of(bytes: Seq<u8>, i: nat) -> Seq<u8> {
    let start: int = 16 * i as int;
    let end: int = if start + 16 <= bytes.len() {
        start + 16
    } else {
        bytes.len() as int
    };
    bytes.subrange(start as int, end)
}

/// The dump line of chunk `i`: address, hex bytes padded to sixteen
/// columns, and the text column between bars.
pub open spec fn dump_line(base: u16, bytes: Seq<u8>, i: nat) -> Seq<char> {
    let c = chunk_of(bytes, i);
    "  "@ + hex_text((base + 16 * i) as nat, 4) + ": "@ + hex_bytes(c) + gap((16 - c.len()) as nat)
        + " |"@ + shown(c) + "|\n"@
}

/// The dump lines of the first `k` chunks.
pub open spec fn dump_lines(base: u16, bytes: Seq<u8>, k: nat) -> Seq<char>
    decreases k,
{
    if k == 0 {
        Seq::empty()
    } else {
        dump_lines(base, bytes, (k - 1) as nat) + dump_line(base, bytes, (k - 1) as nat)
    }
}

/// The dump of `bytes` as if they were loaded at `base`: one line per
/// sixteen bytes.
pub open spec fn hex_dump_text(base: u16, bytes: Seq<u8>) -> Seq<char> {
    dump_lines(base, bytes, ((bytes.len() + 15) / 16) as nat)
}

fn shown_byte(b: u8) -> (c: char)
    ensures
        c == shown_char(b),
{
    if b >= 0x20 && b <= 0x7e {
        crate::text::byte_char(b)
    } else {
        '.'
    }
}

/// Appends the dump line of the chunk `bytes[start..end]`, `i`-th of the dump.
fn push_dump_line(out: &mut String, base: u16, bytes: &[u8], i: usize, start: usize, end: usize)
    requires
        start == 16 * i,
        start < end <= bytes@.len(),
        end == start + 16 || end == bytes@.len(),
        end <= start + 16,
        bytes@.len() + 0x10000 <= usize::MAX,
    ensures
        final(out)@ == old(out)@ + dump_line(base, bytes@, i as nat),
{
    let ghost c = chunk_of(bytes@, i as nat);
    assert(c =~= bytes@.subrange(start as int, end as int));
    out.append("  ");
    push_number(out, (base as usize + start) as u64, 16, 4);
    out.append(": ");
    let ghost before_hex = out@;
    let mut j = start;
    while j < end
        invariant
            start <= j <= end,
            end <= bytes@.len(),
            out@ == before_hex + hex_bytes(bytes@.subrange(start as int, j as int)),
        decreases end - j,
    {
        push_number(out, bytes[j] as u64, 16, 2);
        push_char(out, ' ');
        assert(bytes@.subrange(start as int, j + 1).drop_last() =~= bytes@.subrange(
            start as int,
            j as int,
        ));
        assert(out@ =~= before_hex + hex_bytes(bytes@.subrange(start as int, j + 1)));
        j = j + 1;
    }
    let ghost before_gap = out@;
    let mut p = end - start;
    while p < 16
        invariant
            end - start <= p <= 16,
            out@ == before_gap + gap((p - (end - start)) as nat),
        decreases 16 - p,
    {
        out.append("   ");
        assert(out@ =~= before_gap + gap((p + 1 - (end - start)) as nat));
        p = p + 1;
    }
    out.append(" |");
    let ghost before_text = out@;
    let mut q = start;
    while q < end
        invariant
            start <= q <= end,
            end <= bytes@.len(),
            out@ =~= before_text + shown(bytes@.subrange(start as int, q as int)),
        decreases end - q,
    {
        push_char(out, shown_byte(bytes[q]));
        q = q + 1;
    }
    out.append("|\n");
    assert(out@ =~= old(out)@ + dump_line(base, bytes@, i as nat));
}

/// The bytes as a hex dump with addresses from `base`, sixteen per line,
/// each line followed by its printable-ASCII column.
pub fn format_hex_dump(base: u16, bytes: &[u8]) -> (text: String)
    requires
        bytes@.len() + 0x10000 <= usize::MAX,
    ensures
        text@ == hex_dump_text(base, bytes@),
{
    let mut out = String::new();
    let n = bytes.len();
    let mut start: usize = 0;
    let mut i: usize = 0;
    while start < n
        invariant
            n == bytes@.len(),
            n + 0x10000 <= usize::MAX,
            start == 16 * i,
            start < n ==> i < (n + 15) / 16,
            start >= n ==> i == (n + 15) / 16,
            start <= n || (start < n + 16 && i == (n + 15) / 16),
            out@ == dump_lines(base, bytes@, i as nat),
        decreases n + 16 - start,
    {
        let end = if n - start <= 16 {
            n
        } else {
            start + 16
        };
        push_dump_line(&mut out, base, bytes, i, start, end);
        start = start + 16;
        i = i + 1;
    }
    out
}

proof fn lemma_byte_hex_width(v: nat)
    requires
        v < 256,
    ensures
        hex_text(v, 2).len() == 2,
{
    reveal(number_text);
    if v >= 16 {
        assert(v / 16 < 16);
        assert(digits(v / 16, 16).len() == 1);
    }
}

/// The hex column reads back as the bytes: byte `j` of `c` is written as
/// the two hex digits at `3 * j` and `3 * j + 1`, which spell it, followed
/// by a space.
pub proof fn lemma_hex_bytes_read_back(c: Seq<u8>)
    ensures
        hex_bytes(c).len() == 3 * c.len(),
        forall|j: int|
            0 <= j < c.len() ==> text_value(#[trigger] hex_bytes(c).subrange(3 * j, 3 * j + 2), 16)
                == c[j] && hex_bytes(c)[3 * j + 2] == ' ',
    decreases c.len(),
{
    if c.len() > 0 {
        let front = c.drop_last();
        lemma_hex_bytes_read_back(front);
        let v = c.last() as nat;
        lemma_byte_hex_width(v);
        lemma_number_reads_back(v, 16, 2);
        let h = hex_bytes(c);
        let hf = hex_bytes(front);
        let last = hex_text(v, 2);
        assert(h == hf + last + seq![' ']);
        assert forall|j: int| 0 <= j < c.len() implies text_value(
            #[trigger] h.subrange(3 * j, 3 * j + 2),
            16,
        ) == c[j] && h[3 * j + 2] == ' ' by {
            if j < front.len() {
                assert(h.subrange(3 * j, 3 * j + 2) =~= hf.subrange(3 * j, 3 * j + 2));
                assert(h[3 * j + 2] == hf[3 * j + 2]);
                assert(c[j] == front[j]);
            } else {
                assert(h.subrange(3 * j, 3 * j + 2) =~= last);
            }
        }
    }
}

} // verus!
