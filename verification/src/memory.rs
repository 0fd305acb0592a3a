//! Byte-addressed memory.

use vstd::prelude::*;

use crate::instruction_laws::{mem_at, mem_with};
use crate::isa::{DecodeError, Instruction};

verus! {

/// Byte-addressed RAM. Reads outside the memory give 0 and writes outside it
/// are ignored.
#[derive(Debug, Clone, Eq, PartialEq)]
pub struct Memory {
    bytes: Vec<u8>,
}

impl View for Memory {
    type V = Seq<u8>;

    closed spec fn view(&self) -> Seq<u8> {
        self.bytes@
    }
}

/// The byte at `addr`, or 0 when `addr` lies outside `m`.
pub open spec fn byte_at(m: Seq<u8>, addr: int) -> u8 {
    if 0 <= addr < m.len() {
        m[addr]
    } else {
        0
    }
}

/// `m` with the byte at `addr` set to `value`; unchanged when `addr` lies
/// outside `m`.
pub open spec fn stored(m: Seq<u8>, addr: int, value: u8) -> Seq<u8> {
    if 0 <= addr < m.len() {
        m.update(addr, value)
    } else {
        m
    }
}

/// `m` with `bytes` copied in from `start`, cut off at the end of `m`.
pub open spec fn loaded(m: Seq<u8>, start: int, bytes: Seq<u8>) -> Seq<u8> {
    Seq::new(
        m.len(),
        |j: int|
            if start <= j < start + bytes.len() {
                bytes[j - start]
            } else {
                m[j]
            },
    )
}

/// The `len` bytes read from `start` on, the address wrapping at 2^16.
pub open spec fn range_at(m: Seq<u8>, start: int, len: nat) -> Seq<u8> {
    Seq::new(len, |i: int| byte_at(m, (start + i) % 0x10000))
}

/// The two bytes at `addr` and at the next address (wrapping at 2^16).
pub open spec fn fetch_seq(m: Seq<u8>, addr: u16) -> Seq<u8> {
    seq![byte_at(m, addr as int), byte_at(m, (addr + 1) % 0x10000)]
}

/// The array that `fetch_bytes` returns.
pub open spec fn fetched(m: Seq<u8>, addr: u16) -> [u8; 2] {
    choose|b: [u8; 2]| b@ == fetch_seq(m, addr)
}

/// The three bytes from `addr` on (wrapping at 2^16): enough for the
/// longest instruction.
pub open spec fn window_seq(m: Seq<u8>, addr: u16) -> Seq<u8> {
    seq![
        byte_at(m, addr as int),
        byte_at(m, (addr + 1) % 0x10000),
        byte_at(m, (addr + 2) % 0x10000),
    ]
}

/// The array that `fetch_window` returns.
pub open spec fn window(m: Seq<u8>, addr: u16) -> [u8; 3] {
    choose|b: [u8; 3]| b@ == window_seq(m, addr)
}

/// A read after a write gives the written byte at the written address when
/// it lies in memory, and what was there before everywhere else; outside
/// the memory a write changes nothing and a read gives 0.
pub proof fn lemma_write_read(m: Seq<u8>, written: int, value: u8, read: int)
    ensures
        byte_at(stored(m, written, value), read) == if written == read && 0 <= read < m.len() {
            value
        } else {
            byte_at(m, read)
        },
        stored(m, written, value).len() == m.len(),
        !(0 <= written < m.len()) ==> stored(m, written, value) == m,
        !(0 <= read < m.len()) ==> byte_at(m, read) == 0,
{
}

/// Bytes loaded where they fit, below 64 KiB, read back unchanged.
pub proof fn lemma_load_read_back(m: Seq<u8>, start: u16, bytes: Seq<u8>)
    requires
        start + bytes.len() <= m.len(),
        start + bytes.len() <= 0x10000,
    ensures
        range_at(loaded(m, start as int, bytes), start as int, bytes.len()) == bytes,
        loaded(m, start as int, bytes).len() == m.len(),
{
    assert(range_at(loaded(m, start as int, bytes), start as int, bytes.len()) =~= bytes);
}

/// Loading keeps every byte outside the loaded window.
pub proof fn lemma_load_keeps_rest(m: Seq<u8>, start: u16, bytes: Seq<u8>, addr: int)
    requires
        0 <= addr < m.len(),
        !(start <= addr < start + bytes.len()),
    ensures
        byte_at(loaded(m, start as int, bytes), addr) == byte_at(m, addr),
{
}

/// Reads and writes at a 16-bit address touch entry `addr` of the bytes
/// when it exists: a read past the end gives 0 and a write past the end
/// changes nothing. A range read from `start` gives, at position `i`, the
/// byte at `(start + i) mod 2^16`; a fetch gives the bytes at `addr`,
/// `addr + 1` (and `addr + 2`), each modulo 2^16. A load copies `bytes` to
/// the entries from `start` on that exist and keeps all others.
pub proof fn lemma_memory_access(m: Seq<u8>, addr: u16, value: u8, len: nat, bytes: Seq<u8>)
    ensures
        byte_at(m, addr as int) == mem_at(m, addr),
        stored(m, addr as int, value) == mem_with(m, addr, value),
        range_at(m, addr as int, len).len() == len,
        forall|i: int|
            0 <= i < len ==> #[trigger] range_at(m, addr as int, len)[i] == mem_at(
                m,
                ((addr + i) % 0x10000) as u16,
            ),
        fetch_seq(m, addr) == seq![mem_at(m, addr), mem_at(m, ((addr + 1) % 0x10000) as u16)],
        window_seq(m, addr) == seq![
            mem_at(m, addr),
            mem_at(m, ((addr + 1) % 0x10000) as u16),
            mem_at(m, ((addr + 2) % 0x10000) as u16),
        ],
        loaded(m, addr as int, bytes).len() == m.len(),
        forall|j: int|
            0 <= j < m.len() ==> #[trigger] loaded(m, addr as int, bytes)[j] == if addr <= j < addr
                + bytes.len() {
                bytes[j - addr]
            } else {
                m[j]
            },
{
}

impl Memory {
    /// A zero-filled memory of `size_bytes` bytes.
    pub fn new(size_bytes: usize) -> (mem: Self)
        ensures
            mem@.len() == size_bytes,
            forall|i: int| 0 <= i < size_bytes ==> mem@[i] == 0u8,
    {
        let mut bytes: Vec<u8> = Vec::new();
        let mut i: usize = 0;
        while i < size_bytes
            invariant
                i <= size_bytes,
                bytes@.len() == i,
                forall|j: int| 0 <= j < i ==> bytes@[j] == 0u8,
            decreases size_bytes - i,
        {
            bytes.push(0);
            i = i + 1;
        }
        Memory { bytes }
    }

    pub fn size_bytes(&self) -> (n: usize)
        ensures
            n == self@.len(),
    {
        self.bytes.len()
    }

    /// The byte at `addr`, or 0 outside the memory.
    pub fn read_byte(&self, addr: u16) -> (value: u8)
        ensures
            value == byte_at(self@, addr as int),
    {
        let a = addr as usize;
        if a < self.bytes.len() {
            self.bytes[a]
        } else {
            0
        }
    }

    /// Stores `value` at `addr`; does nothing outside the memory.
    pub fn write_byte(&mut self, addr: u16, value: u8)
        ensures
            final(self)@ == stored(old(self)@, addr as int, value),
    {
        let a = addr as usize;
        if a < self.bytes.len() {
            self.bytes.set(a, value);
        }
    }

    /// Copies `bytes` into memory from `start` on, dropping what does not fit.
    pub fn load_bytes(&mut self, start: u16, bytes: &[u8])
        ensures
            final(self)@ == loaded(old(self)@, start as int, bytes@),
    {
        let start = start as usize;
        let len = self.bytes.len();
        if start >= len {
            assert(loaded(old(self)@, start as int, bytes@) =~= old(self)@);
            return;
        }
        let available = len - start;
        let n = if available < bytes.len() { available } else { bytes.len() };
        let mut i: usize = 0;
        while i < n
            invariant
                len == old(self)@.len(),
                self.bytes@.len() == len,
                start < len,
                n <= len - start,
                n <= bytes@.len(),
                n == len - start || n == bytes@.len(),
                i <= n,
                forall|j: int|
                    0 <= j < len ==> self.bytes@[j] == (if start <= j < start + i {
                        bytes@[j - start]
                    } else {
                        old(self)@[j]
                    }),
            decreases n - i,
        {
            self.bytes.set(start + i, bytes[i]);
            i = i + 1;
        }
        assert(self@ =~= loaded(old(self)@, start as int, bytes@));
    }

    /// `len` bytes from `start` on, the address wrapping at 2^16.
    pub fn read_range(&self, start: u16, len: usize) -> (out: Vec<u8>)
        ensures
            out@ == range_at(self@, start as int, len as nat),
    {
        let mut out: Vec<u8> = Vec::new();
        let mut i: usize = 0;
        while i < len
            invariant
                i <= len,
                out@ =~= range_at(self@, start as int, i as nat),
            decreases len - i,
        {
            let offset = (i % 0x10000) as u16;
            let addr = start.wrapping_add(offset);
            assert(addr == (start + i) % 0x10000) by {
                assert(offset == i % 0x10000);
                assert(addr == (start + offset) % 0x10000);
                vstd::arithmetic::div_mod::lemma_add_mod_noop(start as int, i as int, 0x10000);
                vstd::arithmetic::div_mod::lemma_mod_twice(i as int, 0x10000);
            }
            out.push(self.read_byte(addr));
            i = i + 1;
        }
        out
    }

    /// The bytes at `addr` and `addr + 1` (wrapping).
    pub fn fetch_bytes(&self, addr: u16) -> (out: [u8; 2])
        ensures
            out@ == fetch_seq(self@, addr),
            out == fetched(self@, addr),
    {
        let out = [self.read_byte(addr), self.read_byte(addr.wrapping_add(1))];
        assert(out@ =~= fetch_seq(self@, addr));
        let ghost other = fetched(self@, addr);
        assert(other@ == fetch_seq(self@, addr));
        assert(out =~= other);
        out
    }

    /// The bytes at `addr`, `addr + 1` and `addr + 2` (wrapping): what an
    /// instruction at `addr` can occupy.
    pub fn fetch_window(&self, addr: u16) -> (out: [u8; 3])
        ensures
            out@ == window_seq(self@, addr),
            out == window(self@, addr),
    {
        let out = [
            self.read_byte(addr),
            self.read_byte(addr.wrapping_add(1)),
            self.read_byte(addr.wrapping_add(2)),
        ];
        assert(out@ =~= window_seq(self@, addr));
        let ghost other = window(self@, addr);
        assert(other@ == window_seq(self@, addr));
        assert(out =~= other);
        out
    }

    /// Decodes the instruction at `addr` with `decode`, which receives the
    /// three bytes from `addr` on and returns the instruction and its length.
    pub fn decode_at<F: Fn([u8; 3]) -> Result<(Instruction, u16), DecodeError>>(
        &self,
        addr: u16,
        decode: &F,
    ) -> (res: Result<(Instruction, u16), DecodeError>)
        requires
            forall|b: [u8; 3]| decode.requires((b,)),
        ensures
            decode.ensures((window(self@, addr),), res),
    {
        let bytes = self.fetch_window(addr);
        decode(bytes)
    }
}

impl Default for Memory {
    /// 64 KiB of zeroed memory.
    fn default() -> (mem: Self)
        ensures
            mem@.len() == 65536,
            forall|i: int| 0 <= i < 65536 ==> mem@[i] == 0u8,
    {
        Self::new(65_536)
    }
}

} // verus!
