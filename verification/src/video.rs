//! RAM-backed monochrome video view.

use vstd::prelude::*;

use crate::instruction_laws::mem_at;
use crate::memory::{byte_at, Memory};
use crate::text::push_char;

verus! {

pub const VIDEO_BASE: u16 = 0x2000;

pub const VIDEO_WIDTH: usize = 64;

pub const VIDEO_HEIGHT: usize = 32;

pub const VIDEO_BYTES_PER_ROW: usize = VIDEO_WIDTH / 8;

pub const VIDEO_SIZE_BYTES: usize = VIDEO_BYTES_PER_ROW * VIDEO_HEIGHT;

/// A 64 x 32 one-bit frame buffer in memory: eight bytes per row, rows one
/// after another, the most significant bit of each byte leftmost.
#[derive(Copy, Clone, Debug, Eq, PartialEq)]
pub struct VideoView {
    base: u16,
    width: usize,
    height: usize,
}

/// The pixel at `(x, y)` of a `width` x `height` frame at `base`: `None`
/// outside the frame, otherwise bit `7 - x % 8` of byte
/// `base + y * width / 8 + x / 8` (the address wrapping at 2^16).
pub open spec fn pixel_at(m: Seq<u8>, base: u16, width: nat, height: nat, x: nat, y: nat) -> Option<
    bool,
> {
    if x >= width || y >= height {
        None
    } else {
        let byte = byte_at(m, (base + y * (width / 8) + x / 8) % 0x10000);
        Some((byte >> ((7 - x % 8) as u8)) & 1u8 == 1u8)
    }
}

/// The character of a pixel: `#` when set, `.` otherwise.
pub open spec fn pixel_char(p: Option<bool>) -> char {
    if p == Some(true) {
        '#'
    } else {
        '.'
    }
}

impl VideoView {
    #[verifier::type_invariant]
    spec fn wf(self) -> bool {
        self.width == VIDEO_WIDTH && self.height == VIDEO_HEIGHT
    }

    /// Address of the first frame byte.
    pub closed spec fn base_addr(self) -> u16 {
        self.base
    }

    /// Width in pixels.
    pub closed spec fn cols(self) -> nat {
        self.width as nat
    }

    /// Height in pixels.
    pub closed spec fn rows(self) -> nat {
        self.height as nat
    }

    /// The pixel at `(x, y)` in memory `m`.
    pub open spec fn pixel_in(self, m: Seq<u8>, x: nat, y: nat) -> Option<bool> {
        pixel_at(m, self.base_addr(), self.cols(), self.rows(), x, y)
    }

    /// Row `y` as text, one character per pixel.
    pub open spec fn row_text(self, m: Seq<u8>, y: nat) -> Seq<char> {
        Seq::new(self.cols(), |x: int| pixel_char(self.pixel_in(m, x as nat, y)))
    }

    /// The first `k` rows as text, each followed by a newline unless it is
    /// the last row of the frame.
    pub open spec fn rows_text(self, m: Seq<u8>, k: nat) -> Seq<char>
        decreases k,
    {
        if k == 0 {
            Seq::empty()
        } else {
            let text = self.rows_text(m, (k - 1) as nat) + self.row_text(m, (k - 1) as nat);
            if k < self.rows() {
                text.push('\n')
            } else {
                text
            }
        }
    }

    /// The whole frame as text.
    pub open spec fn frame_text(self, m: Seq<u8>) -> Seq<char> {
        self.rows_text(m, self.rows())
    }

    /// A 64 x 32 view whose first byte is at `base`.
    pub fn new(base: u16) -> (view: Self)
        ensures
            view.base_addr() == base,
            view.cols() == VIDEO_WIDTH,
            view.rows() == VIDEO_HEIGHT,
    {
        Self { base, width: VIDEO_WIDTH, height: VIDEO_HEIGHT }
    }

    /// The ELF layout: 64 x 32 at `VIDEO_BASE`.
    pub fn elf_64x32() -> (view: Self)
        ensures
            view.base_addr() == VIDEO_BASE,
            view.cols() == VIDEO_WIDTH,
            view.rows() == VIDEO_HEIGHT,
    {
        Self::new(VIDEO_BASE)
    }

    pub fn base(self) -> (base: u16)
        ensures
            base == self.base_addr(),
    {
        self.base
    }

    pub fn width(self) -> (width: usize)
        ensures
            width == self.cols(),
            width == VIDEO_WIDTH,
    {
        proof {
            use_type_invariant(&self);
        }
        self.width
    }

    pub fn height(self) -> (height: usize)
        ensures
            height == self.rows(),
            height == VIDEO_HEIGHT,
    {
        proof {
            use_type_invariant(&self);
        }
        self.height
    }

    /// Bytes the frame occupies.
    pub fn size_bytes(self) -> (n: usize)
        ensures
            n == (self.cols() / 8) * self.rows(),
            n == VIDEO_SIZE_BYTES,
    {
        proof {
            use_type_invariant(&self);
        }
        (self.width / 8) * self.height
    }

    /// The pixel at `(x, y)`, or `None` outside the frame.
    pub fn pixel(self, mem: &Memory, x: usize, y: usize) -> (p: Option<bool>)
        ensures
            p == self.pixel_in(mem@, x as nat, y as nat),
    {
        proof {
            use_type_invariant(&self);
        }
        if x >= self.width || y >= self.height {
            return None;
        }
        let bytes_per_row = self.width / 8;
        let byte_offset = y * bytes_per_row + x / 8;
        let bit = (7 - (x % 8)) as u8;
        let addr = self.base.wrapping_add(byte_offset as u16);
        let byte = mem.read_byte(addr);
        assert(bit < 8);
        assert((byte & (1u8 << bit) != 0) == ((byte >> bit) & 1u8 == 1u8)) by (bit_vector)
            requires
                bit < 8,
        ;
        Some(byte & (1u8 << bit) != 0)
    }
}

impl VideoView {
    /// The frame as text: `#` for a set pixel, `.` for a clear one, rows
    /// separated by newlines, no newline after the last row.
    pub fn render_text(self, mem: &Memory) -> (text: String)
        ensures
            text@ == self.frame_text(mem@),
    {
        let mut out = String::new();
        self.write_text(mem, &mut out);
        assert(out@ =~= self.frame_text(mem@));
        out
    }

    /// Appends the frame text to `out`.
    pub fn write_text(self, mem: &Memory, out: &mut String)
        ensures
            final(out)@ == old(out)@ + self.frame_text(mem@),
    {
        proof {
            use_type_invariant(&self);
        }
        let ghost start = out@;
        let mut y: usize = 0;
        while y < self.height
            invariant
                self.width == VIDEO_WIDTH,
                self.height == VIDEO_HEIGHT,
                y <= self.height,
                out@ =~= start + self.rows_text(mem@, y as nat),
            decreases self.height - y,
        {
            let ghost before = out@;
            let mut x: usize = 0;
            while x < self.width
                invariant
                    self.width == VIDEO_WIDTH,
                    self.height == VIDEO_HEIGHT,
                    y < self.height,
                    x <= self.width,
                    out@ =~= before + self.row_text(mem@, y as nat).subrange(0, x as int),
                decreases self.width - x,
            {
                let c = match self.pixel(mem, x, y) {
                    Some(true) => '#',
                    _ => '.',
                };
                push_char(out, c);
                x = x + 1;
            }
            assert(self.row_text(mem@, y as nat).subrange(0, self.width as int) =~= self.row_text(
                mem@,
                y as nat,
            ));
            if y + 1 < self.height {
                push_char(out, '\n');
            }
            y = y + 1;
        }
    }
}

impl Default for VideoView {
    fn default() -> (view: Self)
        ensures
            view.base_addr() == VIDEO_BASE,
            view.cols() == VIDEO_WIDTH,
            view.rows() == VIDEO_HEIGHT,
    {
        Self::elf_64x32()
    }
}

/// Each frame byte shows eight pixels of one row, its most significant bit
/// leftmost: byte `k` of the frame holds pixels `8 * (k % 8)` to
/// `8 * (k % 8) + 7` of row `k / 8`. Outside the 64 x 32 frame there is no
/// pixel.
pub proof fn lemma_pixels_msb_first(view: VideoView, m: Seq<u8>, k: nat, j: nat, x: nat, y: nat)
    requires
        view.cols() == 64,
        view.rows() == 32,
        k < 256,
        j < 8,
    ensures
        view.pixel_in(m, (k % 8) * 8 + j, k / 8) == Some(
            (mem_at(m, ((view.base_addr() + k) % 0x10000) as u16) >> ((7 - j) as u8)) & 1u8 == 1u8,
        ),
        view.pixel_in(m, x, y) is None <==> (x >= 64 || y >= 32),
{
    let px = (k % 8) * 8 + j;
    let py = k / 8;
    assert(px / 8 == k % 8 && px % 8 == j && px < 64 && py < 32) by (nonlinear_arith)
        requires
            k < 256,
            j < 8,
            px == (k % 8) * 8 + j,
            py == k / 8,
    ;
    assert(py * 8 + k % 8 == k) by (nonlinear_arith)
        requires
            py == k / 8,
    ;
}

} // verus!
