//! The VINTAGE-1 machine: memory map, memory-mapped video, and I/O registers.
//!
//! ```text
//! $0000-$3FFF  RAM (16K)          $5800  keyboard   (read clears)
//! $4000-$57FF  framebuffer (6K)   $5802  frame counter lo/hi
//!   256x192, 1bpp, MSB-left       $5804  phosphor palette
//! $5800-$5FFF  I/O                $5805  LFSR random
//! $6000-$DFFF  RAM (32K)          $5806  cartridge bank
//! $E000-$FFFF  ROM (8K, vectors)  $5807  beeper period (0 = silence)
//!                                 $5808-$5810  sprites
//! 2 MHz: 33,333 cycles per frame at 60 Hz.
//! ```

use vstd::prelude::*;
use vstd::array::spec_array_update;

use crate::cpu::{flag, lemma_step_cost, wrap16, wrap8, Bus, Cpu, FLAG_I, FLAG_N, FLAG_Z, MAX_STEP_CYCLES};
use crate::text::{decimal, decimal_string};
use crate::isa::{decoded, Mode, Op};

verus! {

broadcast use vstd::array::group_array_axioms;

pub const CYCLES_PER_FRAME: u32 = 33_333;
pub const FB_BASE: u16 = 0x4000;
pub const FB_LEN: u16 = 0x1800;
pub const SCREEN_W: usize = 256;
pub const SCREEN_H: usize = 192;

pub const KEY_UP: u8 = 0x11;
pub const KEY_DOWN: u8 = 0x12;
pub const KEY_LEFT: u8 = 0x13;
pub const KEY_RIGHT: u8 = 0x14;

/// Room `run_frame` needs in the CPU's cycle counter: one frame's budget plus
/// the longest instruction that can overshoot it.
pub const FRAME_HEADROOM: u64 = 33_340;

/// Length of a `.vst` image up to (not including) the bank count.
pub const VST_HEADER: usize = 55_314;

/// Length of a `.vst` image without its cartridge banks.
pub const VST_FIXED: usize = 55_334;

pub struct Machine {
    ram_lo: [u8; 0x4000],
    fb: [u8; 0x1800],
    ram_hi: [u8; 0x8000],
    /// Cartridge banks. `banks[0]` is the boot image; software picks the
    /// visible one through the $5806 register. One bank = the 8K window.
    banks: Vec<[u8; 0x2000]>,
    bank_sel: usize,
    key_pending: u8,
    frame: u16,
    palette: u8,
    lfsr: u16,
    beeper_period: u8,
    /// Vsync IRQ latch: raised at frame start, taken (or masked out) once.
    vsync_pending: bool,
    /// Sprite latches. Patterns are 8 bytes fetched through the bus from
    /// `spr_ptr`, XORed into the display buffer at vsync.
    spr_x: [u8; 2],
    spr_y: [u8; 2],
    spr_ptr: [u16; 2],
    spr_ctrl: u8,
    /// What hosts render: the fb with sprites XOR-composited at vsync.
    /// The fb itself stays background-only; not CPU-visible.
    disp: [u8; 0x1800],
}

/// One step of the 16-bit Galois LFSR with taps 0x002D (x^16 + x^5 + x^3 +
/// x^2 + 1): shift left, and feed the bit shifted out back through the taps.
pub open spec fn lfsr_next(l: u16) -> u16 {
    (l << 1u16) ^ (if l >= 0x8000u16 { 0x002Du16 } else { 0u16 })
}

/// The LFSR step is a bijection on 16-bit states: two different states never
/// step to the same successor, so no state is lost along the sequence.
pub proof fn lemma_lfsr_injective(a: u16, b: u16)
    ensures
        lfsr_next(a) == lfsr_next(b) <==> a == b,
{
    assert(((a << 1u16) ^ (if a >= 0x8000u16 { 0x002Du16 } else { 0u16 })) == ((b << 1u16) ^ (
    if b >= 0x8000u16 { 0x002Du16 } else { 0u16 })) <==> a == b) by (bit_vector);
}

/// A word as two little-endian bytes.
pub open spec fn le16(v: u16) -> Seq<u8> {
    seq![(v % 256) as u8, (v / 256) as u8]
}

/// A 64-bit word as eight little-endian bytes.
pub open spec fn le64(v: u64) -> Seq<u8> {
    seq![
        (v % 0x100) as u8,
        (v / 0x100 % 0x100) as u8,
        (v / 0x1_0000 % 0x100) as u8,
        (v / 0x100_0000 % 0x100) as u8,
        (v / 0x1_0000_0000 % 0x100) as u8,
        (v / 0x100_0000_0000 % 0x100) as u8,
        (v / 0x1_0000_0000_0000 % 0x100) as u8,
        (v / 0x100_0000_0000_0000) as u8,
    ]
}

/// The little-endian word stored at `at` in `d`.
pub open spec fn get16(d: Seq<u8>, at: int) -> u16 {
    (d[at] + 256 * d[at + 1]) as u16
}

/// The little-endian 64-bit word stored at `at` in `d`.
pub open spec fn get64(d: Seq<u8>, at: int) -> u64 {
    (d[at] + 0x100 * d[at + 1] + 0x1_0000 * d[at + 2] + 0x100_0000 * d[at + 3] + 0x1_0000_0000 * d[
        at + 4
    ] + 0x100_0000_0000 * d[at + 5] + 0x1_0000_0000_0000 * d[at + 6] + 0x100_0000_0000_0000 * d[at
        + 7]) as u64
}

/// The `.vst` magic, "V1S".
pub open spec fn vst_magic() -> Seq<u8> {
    seq![0x56u8, 0x31u8, 0x53u8]
}

/// The bytes of a list of cartridge banks, one after the other.
pub open spec fn banks_bytes(banks: Seq<[u8; 0x2000]>) -> Seq<u8>
    decreases banks.len(),
{
    if banks.len() == 0 {
        Seq::empty()
    } else {
        banks_bytes(banks.drop_last()) + banks.last()@
    }
}

/// The cartridge count stored in a `.vst` image.
pub open spec fn image_bank_count(d: Seq<u8>) -> int {
    get16(d, VST_HEADER as int) as int
}

/// The reason a `.vst` image is refused, or `None` when it is accepted:
/// too short to hold the bank count, a bad magic, a bank count outside
/// 1..=256, or a length that does not match the bank count exactly.
pub open spec fn image_error(d: Seq<u8>) -> Option<Seq<char>> {
    if d.len() < VST_HEADER + 2 {
        Some("truncated .vst"@)
    } else if d.subrange(0, 3) != vst_magic() {
        Some("bad magic"@)
    } else if image_bank_count(d) == 0 || image_bank_count(d) > 256 {
        Some("bad bank count "@ + decimal(image_bank_count(d) as nat))
    } else if d.len() != VST_FIXED + 8192 * image_bank_count(d) {
        Some("bad .vst length for "@ + decimal(image_bank_count(d) as nat) + " bank(s)"@)
    } else {
        None
    }
}

/// The `n` banks stored in an accepted image from offset `VST_HEADER + 2`.
pub open spec fn image_banks(d: Seq<u8>, n: int) -> Seq<Seq<u8>> {
    Seq::new(n as nat, |i: int| d.subrange(VST_HEADER + 2 + 8192 * i, VST_HEADER + 2 + 8192 * (i + 1)))
}

/// The CPU a `.vst` image restores into `c`: the registers and cycle count
/// come from the image; the interrupt inputs are kept.
pub open spec fn image_cpu(c: Cpu, d: Seq<u8>) -> Cpu {
    Cpu { a: d[3], x: d[4], y: d[5], s: d[6], p: d[7], pc: get16(d, 8), cycles: get64(d, 10), ..c }
}

impl Machine {
    /// The machine invariant: at least one cartridge bank, and the selected
    /// bank exists.
    pub closed spec fn wf(self) -> bool {
        1 <= self.banks.len() && self.bank_sel < self.banks.len()
    }

    /// The display plane hosts render.
    pub closed spec fn display(self) -> [u8; 0x1800] {
        self.disp
    }

    /// The background framebuffer plane ($4000-$57FF).
    pub closed spec fn framebuffer(self) -> [u8; 0x1800] {
        self.fb
    }

    pub closed spec fn frame_count(self) -> u16 {
        self.frame
    }

    pub closed spec fn palette_reg(self) -> u8 {
        self.palette
    }

    pub closed spec fn beeper_reg(self) -> u8 {
        self.beeper_period
    }

    pub closed spec fn pending_key(self) -> u8 {
        self.key_pending
    }

    pub closed spec fn cartridge(self) -> Seq<[u8; 0x2000]> {
        self.banks@
    }

    pub closed spec fn selected_bank(self) -> int {
        self.bank_sel as int
    }

    /// The state of the random-number LFSR.
    pub closed spec fn lfsr_state(self) -> u16 {
        self.lfsr
    }

    pub closed spec fn vsync_latched(self) -> bool {
        self.vsync_pending
    }

    /// A freshly built machine: memory, registers and display all zero,
    /// bank 0 selected, LFSR seeded with $ACE1.
    pub closed spec fn is_fresh(self) -> bool {
        &&& self.ram_lo@ == Seq::new(0x4000, |i: int| 0u8)
        &&& self.fb@ == Seq::new(0x1800, |i: int| 0u8)
        &&& self.ram_hi@ == Seq::new(0x8000, |i: int| 0u8)
        &&& self.disp@ == Seq::new(0x1800, |i: int| 0u8)
        &&& self.bank_sel == 0
        &&& self.key_pending == 0
        &&& self.frame == 0
        &&& self.palette == 0
        &&& self.lfsr == 0xACE1
        &&& self.beeper_period == 0
        &&& !self.vsync_pending
        &&& self.spr_x@ == seq![0u8, 0u8]
        &&& self.spr_y@ == seq![0u8, 0u8]
        &&& self.spr_ptr@ == seq![0u16, 0u16]
        &&& self.spr_ctrl == 0
    }

    pub closed spec fn with_key(self, code: u8) -> Machine {
        Machine { key_pending: code, ..self }
    }

    pub closed spec fn ticked(self) -> Machine {
        Machine { frame: wrap16(self.frame + 1), ..self }
    }

    /// The value of sprite register `addr` ($5808-$580F).
    pub closed spec fn sprite_reg(self, addr: u16) -> u8 {
        let s = (addr / 4 % 2) as int;
        if addr % 4 == 0 {
            self.spr_x[s]
        } else if addr % 4 == 1 {
            self.spr_y[s]
        } else if addr % 4 == 2 {
            (self.spr_ptr[s] % 256) as u8
        } else {
            (self.spr_ptr[s] / 256) as u8
        }
    }

    /// Sprite register `addr` ($5808-$580F) after writing `val`.
    pub closed spec fn sprite_written(self, addr: u16, val: u8) -> Machine {
        let s = (addr / 4 % 2) as int;
        if addr % 4 == 0 {
            Machine { spr_x: spec_array_update(self.spr_x, s, val), ..self }
        } else if addr % 4 == 1 {
            Machine { spr_y: spec_array_update(self.spr_y, s, val), ..self }
        } else if addr % 4 == 2 {
            Machine {
                spr_ptr: spec_array_update(self.spr_ptr, s, (self.spr_ptr[s] / 256 * 256 + val) as u16),
                ..self
            }
        } else {
            Machine {
                spr_ptr: spec_array_update(self.spr_ptr, s, (self.spr_ptr[s] % 256 + 256 * val) as u16),
                ..self
            }
        }
    }

    /// Whether sprite `s` is enabled in SPR_CTRL.
    pub closed spec fn sprite_on(self, s: int) -> bool {
        if s == 0 {
            self.spr_ctrl % 2 == 1
        } else {
            self.spr_ctrl / 2 % 2 == 1
        }
    }

    /// Whether one of the first `n` rows of sprite `s` lights pixel (x, y):
    /// the row `y - spr_y` is below `n`, the column `x - spr_x` is within
    /// the 8-pixel row, and that bit of the row's pattern byte, read from
    /// (pointer + row) mod $10000, is set.
    pub closed spec fn row_hit(self, s: int, n: int, x: int, y: int) -> bool {
        &&& self.spr_y[s] <= y < self.spr_y[s] + n
        &&& self.spr_x[s] <= x < self.spr_x[s] + 8
        &&& pattern_bit(self.peek(wrap16(self.spr_ptr[s] + (y - self.spr_y[s]))), x - self.spr_x[s])
    }

    /// Whether sprite `s` is enabled and lights pixel (x, y).
    pub closed spec fn sprite_pixel(self, s: int, x: int, y: int) -> bool {
        self.sprite_on(s) && self.row_hit(s, 8, x, y)
    }

    /// Whether no pattern fetch of an enabled sprite touches a register that
    /// a read changes (the key latch $5800 or RANDOM $5805).
    pub closed spec fn patterns_quiet(self) -> bool {
        forall|s: int, r: int|
            0 <= s < 2 && 0 <= r < 8 && self.sprite_on(s) ==> #[trigger] wrap16(self.spr_ptr[s] + r) != 0x5800
                && wrap16(self.spr_ptr[s] + r) != 0x5805
    }
}

/// `disp` with one sprite pixel at (x, y) XORed in: in 2bpp a hit inverts the
/// fat pixel's 2-bit index; pixels past the right edge are clipped.
pub open spec fn xor_pixel(disp: [u8; 0x1800], two: bool, x: int, y: int) -> [u8; 0x1800] {
    if two {
        if x >= 128 {
            disp
        } else {
            let idx = y * 32 + x / 4;
            spec_array_update(disp, idx, disp[idx] ^ (0xC0u8 >> (2 * (x % 4)) as u8))
        }
    } else {
        if x >= 256 {
            disp
        } else {
            let idx = y * 32 + x / 8;
            spec_array_update(disp, idx, disp[idx] ^ (0x80u8 >> (x % 8) as u8))
        }
    }
}

/// `disp` with the first `k` pattern bits (MSB first) of one sprite row at
/// (x0, y) XORed in.
pub open spec fn xor_row(disp: [u8; 0x1800], two: bool, x0: int, y: int, bits: u8, k: int) -> [u8; 0x1800]
    decreases k,
{
    if k <= 0 {
        disp
    } else {
        let d = xor_row(disp, two, x0, y, bits, k - 1);
        if bits & (0x80u8 >> (k - 1) as u8) != 0 {
            xor_pixel(d, two, x0 + k - 1, y)
        } else {
            d
        }
    }
}

/// Whether pixel (x, y) of a 1bpp plane is lit: 32 bytes per scanline,
/// most significant bit leftmost.
pub open spec fn px(d: [u8; 0x1800], x: int, y: int) -> bool {
    (d[y * 32 + x / 8] >> (7 - x % 8) as u8) & 1u8 == 1u8
}

proof fn lemma_flip_bit(b: u8, s: u8, t: u8)
    requires
        s < 8,
        t < 8,
    ensures
        (((b ^ (0x80u8 >> s)) >> (7 - t) as u8) & 1u8 == 1u8) == (((b >> (7 - t) as u8) & 1u8 == 1u8) != (s
            == t)),
{
    assert((((b ^ (0x80u8 >> s)) >> (7 - t) as u8) & 1u8 == 1u8) == (((b >> (7 - t) as u8) & 1u8 == 1u8) != (s
        == t))) by (bit_vector)
        requires
            s < 8,
            t < 8,
    ;
}

/// One sprite pixel XORed into a 1bpp plane flips that pixel alone.
proof fn lemma_xor_pixel_px(d: [u8; 0x1800], x: int, y: int, xx: int, yy: int)
    requires
        0 <= x,
        0 <= y < 192,
        0 <= xx < 256,
        0 <= yy < 192,
    ensures
        px(xor_pixel(d, false, x, y), xx, yy) == (px(d, xx, yy) != (xx == x && yy == y)),
{
    if x < 256 {
        let idx = y * 32 + x / 8;
        let j = yy * 32 + xx / 8;
        let d2 = xor_pixel(d, false, x, y);
        assert(d2@ == d@.update(idx, d[idx] ^ (0x80u8 >> (x % 8) as u8)));
        if j == idx {
            assert(yy == y && xx / 8 == x / 8);
            lemma_flip_bit(d[idx], (x % 8) as u8, (xx % 8) as u8);
        } else {
            assert(d2[j] == d[j]);
            assert(xx != x || yy != y);
        }
    }
}

/// Bit `i` of a sprite pattern byte, most significant bit first.
pub open spec fn pattern_bit(bits: u8, i: int) -> bool {
    bits & (0x80u8 >> i as u8) != 0
}

/// The palette index (0-3) of fat pixel (x, y) of a 2bpp plane: four fat
/// pixels per byte, 32 bytes per scanline, leftmost in the top two bits.
pub open spec fn fat_px(d: [u8; 0x1800], x: int, y: int) -> u8 {
    (d[y * 32 + x / 4] >> (6 - 2 * (x % 4)) as u8) & 3u8
}

/// 3 when `hit`, else 0: what a sprite hit XORs into a fat pixel's index.
pub open spec fn inverts(hit: bool) -> u8 {
    if hit {
        3u8
    } else {
        0u8
    }
}

proof fn lemma_inverts_xor(a: bool, b: bool)
    ensures
        inverts(a) ^ inverts(b) == inverts(a != b),
{
    assert(3u8 ^ 3u8 == 0u8 && 3u8 ^ 0u8 == 3u8 && 0u8 ^ 3u8 == 3u8 && 0u8 ^ 0u8 == 0u8) by (bit_vector);
}

proof fn lemma_flip_pair(b: u8, s: u8, t: u8)
    requires
        s < 4,
        t < 4,
    ensures
        ((b ^ (0xC0u8 >> (2 * s) as u8)) >> (6 - 2 * t) as u8) & 3u8 == ((b >> (6 - 2 * t) as u8) & 3u8) ^ (if s
            == t {
            3u8
        } else {
            0u8
        }),
{
    assert(((b ^ (0xC0u8 >> (2 * s) as u8)) >> (6 - 2 * t) as u8) & 3u8 == ((b >> (6 - 2 * t) as u8) & 3u8) ^ (if s
        == t {
        3u8
    } else {
        0u8
    })) by (bit_vector)
        requires
            s < 4,
            t < 4,
    ;
}

/// One sprite pixel XORed into a 2bpp plane inverts that fat pixel alone;
/// fat pixels from 128 on are clipped.
proof fn lemma_xor_pixel_fat(d: [u8; 0x1800], x: int, y: int, xx: int, yy: int)
    requires
        0 <= x,
        0 <= y < 192,
        0 <= xx < 128,
        0 <= yy < 192,
    ensures
        fat_px(xor_pixel(d, true, x, y), xx, yy) == fat_px(d, xx, yy) ^ inverts(xx == x && yy == y),
{
    let b = fat_px(d, xx, yy);
    assert(b ^ 0u8 == b) by (bit_vector);
    if x < 128 {
        let idx = y * 32 + x / 4;
        let j = yy * 32 + xx / 4;
        let d2 = xor_pixel(d, true, x, y);
        assert(d2@ == d@.update(idx, d[idx] ^ (0xC0u8 >> (2 * (x % 4)) as u8)));
        if j == idx {
            assert(yy == y && xx / 4 == x / 4);
            lemma_flip_pair(d[idx], (x % 4) as u8, (xx % 4) as u8);
        } else {
            assert(d2[j] == d[j]);
            assert(xx != x || yy != y);
        }
    }
}

proof fn lemma_xor_row_fat(d: [u8; 0x1800], x0: int, y: int, bits: u8, k: int, xx: int, yy: int)
    requires
        0 <= x0,
        0 <= y < 192,
        0 <= k <= 8,
        0 <= xx < 128,
        0 <= yy < 192,
    ensures
        fat_px(xor_row(d, true, x0, y, bits, k), xx, yy) == fat_px(d, xx, yy) ^ inverts(yy == y && x0 <= xx
            < x0 + k && pattern_bit(bits, xx - x0)),
    decreases k,
{
    let b = fat_px(d, xx, yy);
    assert(b ^ 0u8 == b) by (bit_vector);
    if k > 0 {
        lemma_xor_row_fat(d, x0, y, bits, k - 1, xx, yy);
        let d1 = xor_row(d, true, x0, y, bits, k - 1);
        let p = inverts(yy == y && x0 <= xx < x0 + k - 1 && pattern_bit(bits, xx - x0));
        if bits & (0x80u8 >> (k - 1) as u8) != 0 {
            lemma_xor_pixel_fat(d1, x0 + k - 1, y, xx, yy);
            let q = inverts(xx == x0 + k - 1 && yy == y);
            assert((b ^ p) ^ q == b ^ (p ^ q)) by (bit_vector);
            lemma_inverts_xor(yy == y && x0 <= xx < x0 + k - 1 && pattern_bit(bits, xx - x0), xx == x0 + k - 1 && yy == y);
        }
    }
}

proof fn lemma_xor_row_px(d: [u8; 0x1800], x0: int, y: int, bits: u8, k: int, xx: int, yy: int)
    requires
        0 <= x0,
        0 <= y < 192,
        0 <= k <= 8,
        0 <= xx < 256,
        0 <= yy < 192,
    ensures
        px(xor_row(d, false, x0, y, bits, k), xx, yy) == (px(d, xx, yy) != (yy == y && x0 <= xx < x0 + k
            && pattern_bit(bits, xx - x0))),
    decreases k,
{
    if k > 0 {
        lemma_xor_row_px(d, x0, y, bits, k - 1, xx, yy);
        let d1 = xor_row(d, false, x0, y, bits, k - 1);
        if bits & (0x80u8 >> (k - 1) as u8) != 0 {
            lemma_xor_pixel_px(d1, x0 + k - 1, y, xx, yy);
        }
    }
}

impl Machine {
    /// The machine after compositing the first `n` rows of sprite `s`: each
    /// row on screen fetches its pattern byte and XORs it into the display.
    /// A bus fetch applies the bus's read side effects; a `quiet` fetch
    /// reads the same byte and leaves the machine as it is.
    pub closed spec fn sprite_rows(self, s: int, n: int, quiet: bool) -> Machine
        decreases n,
    {
        if n <= 0 {
            self
        } else {
            let m1 = self.sprite_rows(s, n - 1, quiet);
            let row = n - 1;
            let y = m1.spr_y[s] + row;
            if y >= 192 {
                m1
            } else {
                let addr = wrap16(m1.spr_ptr[s] + row);
                let bits = m1.peek(addr);
                let m2 = if quiet {
                    m1
                } else {
                    m1.after_read(addr)
                };
                Machine {
                    disp: xor_row(m2.disp, m2.palette >= 128, m2.spr_x[s] as int, y, bits, 8),
                    ..m2
                }
            }
        }
    }

    /// Sprite `s` composited, if enabled.
    pub closed spec fn sprite_composed(self, s: int, quiet: bool) -> Machine {
        if self.sprite_on(s) {
            self.sprite_rows(s, 8, quiet)
        } else {
            self
        }
    }

    /// The display rebuilt at vsync: a fresh copy of the framebuffer with
    /// both sprites XOR-composited over it, patterns fetched through the bus.
    pub closed spec fn composed(self) -> Machine {
        Machine { disp: self.fb, ..self }.sprite_composed(0, false).sprite_composed(1, false)
    }

    /// The display rebuilt without touching the bus: the same composition,
    /// with side-effect-free pattern fetches.
    pub closed spec fn redrawn(self) -> Machine {
        Machine { disp: self.fb, ..self }.sprite_composed(0, true).sprite_composed(1, true)
    }

    /// This machine and `other` hold the same state, the display aside: the
    /// same memory, cartridge, registers and latches.
    pub closed spec fn agrees_with(self, other: Machine) -> bool {
        &&& self.ram_lo@ == other.ram_lo@
        &&& self.fb@ == other.fb@
        &&& self.ram_hi@ == other.ram_hi@
        &&& self.banks@ == other.banks@
        &&& self.bank_sel == other.bank_sel
        &&& self.key_pending == other.key_pending
        &&& self.frame == other.frame
        &&& self.palette == other.palette
        &&& self.lfsr == other.lfsr
        &&& self.beeper_period == other.beeper_period
        &&& self.vsync_pending == other.vsync_pending
        &&& self.spr_x@ == other.spr_x@
        &&& self.spr_y@ == other.spr_y@
        &&& self.spr_ptr@ == other.spr_ptr@
        &&& self.spr_ctrl == other.spr_ctrl
    }

    /// The CPU driven for one frame's cycle budget: before each step the IRQ
    /// line carries the vsync latch (unless I is set); once an IRQ is taken
    /// the latch drops for the rest of the frame.
    pub closed spec fn frame_loop(self, c: Cpu, budget: int) -> (Machine, Cpu)
        decreases budget,
    {
        if budget <= 0 {
            (self, c)
        } else {
            let c1 = Cpu { irq_line: self.vsync_pending && !flag(c.p, FLAG_I), ..c };
            let (c2, m2) = c1.step_s(self);
            let m3 = if c2.irq_line {
                Machine { vsync_pending: false, ..m2 }
            } else {
                m2
            };
            if c2.cycles <= c1.cycles || c2.cycles - c1.cycles >= budget {
                (m3, c2)
            } else {
                m3.frame_loop(c2, budget - (c2.cycles - c1.cycles))
            }
        }
    }

    /// How many times the CPU enters the IRQ handler along `frame_loop`: a
    /// step takes the IRQ when the line is up (vsync latched, I clear) and
    /// no NMI is pending.
    pub closed spec fn frame_irqs(self, c: Cpu, budget: int) -> nat
        decreases budget,
    {
        if budget <= 0 {
            0
        } else {
            let c1 = Cpu { irq_line: self.vsync_pending && !flag(c.p, FLAG_I), ..c };
            let (c2, m2) = c1.step_s(self);
            let m3 = if c2.irq_line {
                Machine { vsync_pending: false, ..m2 }
            } else {
                m2
            };
            let taken: nat = if c1.irq_line && !c1.nmi_pending {
                1
            } else {
                0
            };
            if c2.cycles <= c1.cycles || c2.cycles - c1.cycles >= budget {
                taken
            } else {
                taken + m3.frame_irqs(c2, budget - (c2.cycles - c1.cycles))
            }
        }
    }

    /// The steps of `frame_loop`, in order: for each, whether the step began
    /// with the I flag clear, and whether it entered the IRQ handler.
    pub closed spec fn frame_steps(self, c: Cpu, budget: int) -> Seq<(bool, bool)>
        decreases budget,
    {
        if budget <= 0 {
            seq![]
        } else {
            let c1 = Cpu { irq_line: self.vsync_pending && !flag(c.p, FLAG_I), ..c };
            let (c2, m2) = c1.step_s(self);
            let m3 = if c2.irq_line {
                Machine { vsync_pending: false, ..m2 }
            } else {
                m2
            };
            let here = (!flag(c.p, FLAG_I), c1.irq_line && !c1.nmi_pending);
            if c2.cycles <= c1.cycles || c2.cycles - c1.cycles >= budget {
                seq![here]
            } else {
                seq![here] + m3.frame_steps(c2, budget - (c2.cycles - c1.cycles))
            }
        }
    }

    /// The steps of one `run_frame`, as `frame_steps` records them.
    pub closed spec fn frame_step_log(self, c: Cpu) -> Seq<(bool, bool)> {
        Machine { vsync_pending: true, ..self }.frame_steps(c, CYCLES_PER_FRAME as int)
    }

    /// How many vsync IRQs the CPU takes during one `run_frame`.
    pub closed spec fn frame_irq_count(self, c: Cpu) -> nat {
        Machine { vsync_pending: true, ..self }.frame_irqs(c, CYCLES_PER_FRAME as int)
    }

    /// One video frame: raise the vsync latch, run the frame's cycles, drop
    /// the IRQ line, composite the sprites and tick the frame counter.
    pub closed spec fn frame_s(self, c: Cpu) -> (Machine, Cpu) {
        let (m1, c1) = Machine { vsync_pending: true, ..self }.frame_loop(c, CYCLES_PER_FRAME as int);
        (m1.composed().ticked(), Cpu { irq_line: false, ..c1 })
    }

    /// `n` video frames run one after the other.
    pub closed spec fn frames_s(self, c: Cpu, n: nat) -> (Machine, Cpu)
        decreases n,
    {
        if n == 0 {
            (self, c)
        } else {
            let (m1, c1) = self.frames_s(c, (n - 1) as nat);
            m1.frame_s(c1)
        }
    }

    /// The `.vst` image of this machine and `c`.
    pub closed spec fn state_image(self, c: Cpu) -> Seq<u8> {
        vst_magic() + seq![c.a, c.x, c.y, c.s, c.p] + le16(c.pc) + le64(c.cycles) + self.ram_lo@
            + self.fb@ + self.ram_hi@ + le16(self.banks.len() as u16) + banks_bytes(self.banks@)
            + seq![self.bank_sel as u8] + self.spr_x@ + self.spr_y@ + le16(self.spr_ptr[0]) + le16(
            self.spr_ptr[1],
        ) + seq![self.spr_ctrl] + le16(self.frame) + seq![self.palette] + le16(self.lfsr) + seq![
            self.beeper_period,
            self.key_pending,
            if self.vsync_pending { 1u8 } else { 0u8 },
        ]
    }

    /// Whether this machine holds exactly the state an accepted image `d`
    /// describes (the display aside, which is rebuilt after a restore).
    pub closed spec fn loaded_from(self, d: Seq<u8>) -> bool {
        let n = image_bank_count(d);
        let at = VST_HEADER + 2 + 8192 * n;
        &&& self.ram_lo@ == d.subrange(18int, 18int + 0x4000)
        &&& self.fb@ == d.subrange(18int + 0x4000, 18int + 0x5800)
        &&& self.ram_hi@ == d.subrange(18int + 0x5800, VST_HEADER as int)
        &&& self.banks.len() == n
        &&& forall|i: int| 0 <= i < n ==> #[trigger] self.banks@[i]@ == image_banks(d, n)[i]
        &&& self.bank_sel == (if d[at] < n { d[at] as int } else { n - 1 })
        &&& self.spr_x@ == d.subrange(at + 1, at + 3)
        &&& self.spr_y@ == d.subrange(at + 3, at + 5)
        &&& self.spr_ptr[0] == get16(d, at + 5)
        &&& self.spr_ptr[1] == get16(d, at + 7)
        &&& self.spr_ctrl == d[at + 9]
        &&& self.frame == get16(d, at + 10)
        &&& self.palette == d[at + 12]
        &&& self.lfsr == get16(d, at + 13)
        &&& self.beeper_period == d[at + 15]
        &&& self.key_pending == d[at + 16]
        &&& self.vsync_pending == (d[at + 17] != 0)
    }
}

impl Bus for Machine {
    closed spec fn peek(&self, addr: u16) -> u8 {
        if addr < 0x4000 {
            self.ram_lo[addr as int]
        } else if addr < 0x5800 {
            self.fb[addr - 0x4000]
        } else if addr == 0x5800 {
            self.key_pending
        } else if addr == 0x5802 {
            (self.frame % 256) as u8
        } else if addr == 0x5803 {
            (self.frame / 256) as u8
        } else if addr == 0x5804 {
            self.palette
        } else if addr == 0x5805 {
            (lfsr_next(self.lfsr) % 256) as u8
        } else if addr == 0x5806 {
            self.bank_sel as u8
        } else if addr == 0x5807 {
            self.beeper_period
        } else if 0x5808 <= addr < 0x5810 {
            self.sprite_reg(addr)
        } else if addr == 0x5810 {
            self.spr_ctrl
        } else if 0x6000 <= addr < 0xE000 {
            self.ram_hi[addr - 0x6000]
        } else if addr >= 0xE000 {
            if self.bank_sel < self.banks.len() {
                self.banks[self.bank_sel as int][addr - 0xE000]
            } else {
                0
            }
        } else {
            0
        }
    }

    closed spec fn after_read(&self, addr: u16) -> Machine {
        if addr == 0x5800 {
            Machine { key_pending: 0, ..*self }
        } else if addr == 0x5805 {
            Machine { lfsr: lfsr_next(self.lfsr), ..*self }
        } else {
            *self
        }
    }

    closed spec fn after_write(&self, addr: u16, val: u8) -> Machine {
        if addr < 0x4000 {
            Machine { ram_lo: spec_array_update(self.ram_lo, addr as int, val), ..*self }
        } else if addr < 0x5800 {
            Machine { fb: spec_array_update(self.fb, addr - 0x4000, val), ..*self }
        } else if 0x5808 <= addr < 0x5810 {
            self.sprite_written(addr, val)
        } else if addr == 0x5810 {
            Machine { spr_ctrl: val, ..*self }
        } else if addr == 0x5804 {
            Machine { palette: val, ..*self }
        } else if addr == 0x5806 {
            if (val as int) < self.banks.len() {
                Machine { bank_sel: val as usize, ..*self }
            } else {
                *self
            }
        } else if addr == 0x5807 {
            Machine { beeper_period: val, ..*self }
        } else if 0x6000 <= addr < 0xE000 {
            Machine { ram_hi: spec_array_update(self.ram_hi, addr - 0x6000, val), ..*self }
        } else {
            // ROM and unmapped I/O holes silently ignore writes.
            *self
        }
    }

    fn read(&mut self, addr: u16) -> (v: u8) {
        let v = self.load(addr);
        if addr == 0x5800 {
            self.key_pending = 0;
        } else if addr == 0x5805 {
            self.rand();
        }
        v
    }

    fn write(&mut self, addr: u16, val: u8) {
        if addr < 0x4000 {
            self.ram_lo[addr as usize] = val;
        } else if addr < 0x5800 {
            self.fb[(addr - FB_BASE) as usize] = val;
        } else if 0x5808 <= addr && addr < 0x5810 {
            let s = (addr / 4 % 2) as usize;
            if addr % 4 == 0 {
                self.spr_x[s] = val;
            } else if addr % 4 == 1 {
                self.spr_y[s] = val;
            } else if addr % 4 == 2 {
                self.spr_ptr[s] = self.spr_ptr[s] / 256 * 256 + val as u16;
            } else {
                self.spr_ptr[s] = self.spr_ptr[s] % 256 + 256 * (val as u16);
            }
        } else if addr == 0x5810 {
            self.spr_ctrl = val;
        } else if addr == 0x5804 {
            self.palette = val;
        } else if addr == 0x5806 {
            if (val as usize) < self.banks.len() {
                self.bank_sel = val as usize;
            }
        } else if addr == 0x5807 {
            self.beeper_period = val;
        } else if 0x6000 <= addr && addr < 0xE000 {
            self.ram_hi[(addr - 0x6000) as usize] = val;
        }
        // ROM and unmapped I/O holes silently ignore writes.
    }
}

/// Compositing sprite rows only redraws the display and applies the bus's
/// read side effects: every register but the key latch and the LFSR, and
/// all of memory, stay as they were.
proof fn lemma_sprite_rows_keep(m: Machine, s: int, n: int, quiet: bool)
    ensures
        quiet ==> m.sprite_rows(s, n, quiet) == (Machine { disp: m.sprite_rows(s, n, quiet).disp, ..m }),
        ({
            let r = m.sprite_rows(s, n, quiet);
            &&& r.ram_lo == m.ram_lo
            &&& r.fb == m.fb
            &&& r.ram_hi == m.ram_hi
            &&& r.banks == m.banks
            &&& r.bank_sel == m.bank_sel
            &&& r.frame == m.frame
            &&& r.palette == m.palette
            &&& r.beeper_period == m.beeper_period
            &&& r.vsync_pending == m.vsync_pending
            &&& r.spr_x == m.spr_x
            &&& r.spr_y == m.spr_y
            &&& r.spr_ptr == m.spr_ptr
            &&& r.spr_ctrl == m.spr_ctrl
        }),
    decreases n,
{
    if n > 0 {
        lemma_sprite_rows_keep(m, s, n - 1, quiet);
    }
}

/// Compositing keeps memory and every register but the key latch and the
/// LFSR.
proof fn lemma_composed_keep(m: Machine)
    ensures
        ({
            let r = m.composed();
            &&& r.ram_lo == m.ram_lo
            &&& r.fb == m.fb
            &&& r.ram_hi == m.ram_hi
            &&& r.banks == m.banks
            &&& r.bank_sel == m.bank_sel
            &&& r.frame == m.frame
            &&& r.palette == m.palette
            &&& r.beeper_period == m.beeper_period
            &&& r.vsync_pending == m.vsync_pending
            &&& r.spr_x == m.spr_x
            &&& r.spr_y == m.spr_y
            &&& r.spr_ptr == m.spr_ptr
            &&& r.spr_ctrl == m.spr_ctrl
        }),
{
    let m0 = Machine { disp: m.fb, ..m };
    lemma_sprite_rows_keep(m0, 0, 8, false);
    let m1 = m0.sprite_composed(0, false);
    lemma_sprite_rows_keep(m1, 1, 8, false);
}

proof fn lemma_quiet_rows_px(m: Machine, s: int, n: int, xx: int, yy: int)
    requires
        0 <= s < 2,
        0 <= n <= 8,
        m.palette < 128,
        0 <= xx < 256,
        0 <= yy < 192,
    ensures
        px(m.sprite_rows(s, n, true).disp, xx, yy) == (px(m.disp, xx, yy) != m.row_hit(s, n, xx, yy)),
    decreases n,
{
    if n > 0 {
        lemma_quiet_rows_px(m, s, n - 1, xx, yy);
        lemma_sprite_rows_keep(m, s, n - 1, true);
        let m1 = m.sprite_rows(s, n - 1, true);
        let row = n - 1;
        let y = m1.spr_y[s] + row;
        if y < 192 {
            let addr = wrap16(m1.spr_ptr[s] + row);
            assert(m1.peek(addr) == m.peek(addr));
            lemma_xor_row_px(m1.disp, m1.spr_x[s] as int, y, m1.peek(addr), 8, xx, yy);
        }
    }
}

/// Sprite composition in 1bpp, as a restore draws it: each display pixel is
/// the framebuffer pixel XOR the pixel of each enabled sprite covering it;
/// row r of sprite s comes from (pointer + r) mod $10000, and sprite pixels
/// past the right or bottom edge are dropped, never wrapped.
pub proof fn lemma_redrawn_pixels(m: Machine, x: int, y: int)
    requires
        m.palette_reg() < 128,
        0 <= x < 256,
        0 <= y < 192,
    ensures
        px(m.redrawn().display(), x, y) == ((px(m.framebuffer(), x, y) != m.sprite_pixel(0, x, y))
            != m.sprite_pixel(1, x, y)),
{
    let m0 = Machine { disp: m.fb, ..m };
    if m0.sprite_on(0) {
        lemma_quiet_rows_px(m0, 0, 8, x, y);
        lemma_sprite_rows_keep(m0, 0, 8, true);
    }
    let m1 = m0.sprite_composed(0, true);
    assert(m1 == (Machine { disp: m1.disp, ..m }));
    if m1.sprite_on(1) {
        lemma_quiet_rows_px(m1, 1, 8, x, y);
        lemma_sprite_rows_keep(m1, 1, 8, true);
    }
    let a0 = wrap16(m.spr_ptr[0] + (y - m.spr_y[0]));
    let a1 = wrap16(m.spr_ptr[1] + (y - m.spr_y[1]));
    assert(m0.peek(a0) == m.peek(a0));
    assert(m1.peek(a1) == m.peek(a1));
}

proof fn lemma_rows_quiet(m: Machine, s: int, n: int)
    requires
        0 <= s < 2,
        0 <= n <= 8,
        forall|r: int| 0 <= r < n ==> #[trigger] wrap16(m.spr_ptr[s] + r) != 0x5800 && wrap16(m.spr_ptr[s] + r) != 0x5805,
    ensures
        m.sprite_rows(s, n, false) == m.sprite_rows(s, n, true),
    decreases n,
{
    if n > 0 {
        lemma_rows_quiet(m, s, n - 1);
        lemma_sprite_rows_keep(m, s, n - 1, true);
        let r = n - 1;
        assert(wrap16(m.spr_ptr[s] + r) != 0x5800 && wrap16(m.spr_ptr[s] + r) != 0x5805);
    }
}

/// When no enabled sprite fetches its pattern from the key latch or RANDOM,
/// compositing through the bus and redrawing without it agree: the vsync
/// composition has no side effect either.
pub proof fn lemma_quiet_patterns_compose(m: Machine)
    requires
        m.patterns_quiet(),
    ensures
        m.composed() == m.redrawn(),
{
    let m0 = Machine { disp: m.fb, ..m };
    if m0.sprite_on(0) {
        assert forall|r: int| 0 <= r < 8 implies #[trigger] wrap16(m0.spr_ptr[0] + r) != 0x5800 && wrap16(
            m0.spr_ptr[0] + r,
        ) != 0x5805 by {
            assert(wrap16(m.spr_ptr[0] + r) != 0x5800 && wrap16(m.spr_ptr[0] + r) != 0x5805);
        }
        lemma_rows_quiet(m0, 0, 8);
    }
    let m1 = m0.sprite_composed(0, true);
    lemma_sprite_rows_keep(m0, 0, 8, true);
    assert(m1 == (Machine { disp: m1.disp, ..m }));
    if m1.sprite_on(1) {
        assert forall|r: int| 0 <= r < 8 implies #[trigger] wrap16(m1.spr_ptr[1] + r) != 0x5800 && wrap16(
            m1.spr_ptr[1] + r,
        ) != 0x5805 by {
            assert(wrap16(m.spr_ptr[1] + r) != 0x5800 && wrap16(m.spr_ptr[1] + r) != 0x5805);
        }
        lemma_rows_quiet(m1, 1, 8);
    }
}

/// Sprite composition at vsync in 1bpp, when no pattern fetch touches the
/// key latch or RANDOM: each display pixel is the framebuffer pixel XOR the
/// pixel of each enabled sprite covering it, row r of sprite s read from
/// (pointer + r) mod $10000, with pixels past the right or bottom edge
/// dropped, never wrapped.
pub proof fn lemma_composed_pixels(m: Machine, x: int, y: int)
    requires
        m.patterns_quiet(),
        m.palette_reg() < 128,
        0 <= x < 256,
        0 <= y < 192,
    ensures
        px(m.composed().display(), x, y) == ((px(m.framebuffer(), x, y) != m.sprite_pixel(0, x, y))
            != m.sprite_pixel(1, x, y)),
{
    lemma_quiet_patterns_compose(m);
    lemma_redrawn_pixels(m, x, y);
}

proof fn lemma_quiet_rows_fat(m: Machine, s: int, n: int, xx: int, yy: int)
    requires
        0 <= s < 2,
        0 <= n <= 8,
        m.palette >= 128,
        0 <= xx < 128,
        0 <= yy < 192,
    ensures
        fat_px(m.sprite_rows(s, n, true).disp, xx, yy) == fat_px(m.disp, xx, yy) ^ inverts(m.row_hit(s, n, xx, yy)),
    decreases n,
{
    let b = fat_px(m.disp, xx, yy);
    assert(b ^ 0u8 == b) by (bit_vector);
    if n > 0 {
        lemma_quiet_rows_fat(m, s, n - 1, xx, yy);
        lemma_sprite_rows_keep(m, s, n - 1, true);
        let m1 = m.sprite_rows(s, n - 1, true);
        let row = n - 1;
        let y = m1.spr_y[s] + row;
        if y < 192 {
            let addr = wrap16(m1.spr_ptr[s] + row);
            assert(m1.peek(addr) == m.peek(addr));
            lemma_xor_row_fat(m1.disp, m1.spr_x[s] as int, y, m1.peek(addr), 8, xx, yy);
            let p = inverts(m.row_hit(s, n - 1, xx, yy));
            let q = inverts(yy == y && m1.spr_x[s] <= xx < m1.spr_x[s] + 8 && pattern_bit(m1.peek(addr), xx - m1.spr_x[s]));
            assert((b ^ p) ^ q == b ^ (p ^ q)) by (bit_vector);
            lemma_inverts_xor(
                m.row_hit(s, n - 1, xx, yy),
                yy == y && m1.spr_x[s] <= xx < m1.spr_x[s] + 8 && pattern_bit(m1.peek(addr), xx - m1.spr_x[s]),
            );
        }
    }
}

/// Sprite composition in 2bpp, as a restore draws it: a sprite hit inverts
/// the fat pixel's palette index (XOR 3), so the display's index is the
/// framebuffer's XOR 3 for each enabled sprite covering the fat pixel; row r
/// of sprite s comes from (pointer + r) mod $10000, and sprites are clipped
/// at 128 fat pixels and 192 rows, never wrapped.
pub proof fn lemma_redrawn_fat_pixels(m: Machine, x: int, y: int)
    requires
        m.palette_reg() >= 128,
        0 <= x < 128,
        0 <= y < 192,
    ensures
        fat_px(m.redrawn().display(), x, y) == fat_px(m.framebuffer(), x, y) ^ inverts(m.sprite_pixel(0, x, y))
            ^ inverts(m.sprite_pixel(1, x, y)),
{
    let b = fat_px(m.fb, x, y);
    assert(b ^ 0u8 == b) by (bit_vector);
    let m0 = Machine { disp: m.fb, ..m };
    if m0.sprite_on(0) {
        lemma_quiet_rows_fat(m0, 0, 8, x, y);
        lemma_sprite_rows_keep(m0, 0, 8, true);
    }
    let m1 = m0.sprite_composed(0, true);
    assert(m1 == (Machine { disp: m1.disp, ..m }));
    let b1 = fat_px(m1.disp, x, y);
    assert(b1 ^ 0u8 == b1) by (bit_vector);
    if m1.sprite_on(1) {
        lemma_quiet_rows_fat(m1, 1, 8, x, y);
        lemma_sprite_rows_keep(m1, 1, 8, true);
    }
    let a0 = wrap16(m.spr_ptr[0] + (y - m.spr_y[0]));
    let a1 = wrap16(m.spr_ptr[1] + (y - m.spr_y[1]));
    assert(m0.peek(a0) == m.peek(a0));
    assert(m1.peek(a1) == m.peek(a1));
}

/// The 2bpp sprite law at vsync, when no pattern fetch touches the key latch
/// or RANDOM: the same inversion of palette indices as on a restore.
pub proof fn lemma_composed_fat_pixels(m: Machine, x: int, y: int)
    requires
        m.patterns_quiet(),
        m.palette_reg() >= 128,
        0 <= x < 128,
        0 <= y < 192,
    ensures
        fat_px(m.composed().display(), x, y) == fat_px(m.framebuffer(), x, y) ^ inverts(m.sprite_pixel(0, x, y))
            ^ inverts(m.sprite_pixel(1, x, y)),
{
    lemma_quiet_patterns_compose(m);
    lemma_redrawn_fat_pixels(m, x, y);
}

/// Redrawing the display without the bus changes the display alone.
proof fn lemma_redrawn_keep(m: Machine)
    ensures
        m.redrawn() == (Machine { disp: m.redrawn().disp, ..m }),
{
    let m0 = Machine { disp: m.fb, ..m };
    lemma_sprite_rows_keep(m0, 0, 8, true);
    let m1 = m0.sprite_composed(0, true);
    lemma_sprite_rows_keep(m1, 1, 8, true);
}

// ------------------------------------------------------------------- laws

proof fn lemma_banks_bytes_len(b: Seq<[u8; 0x2000]>)
    ensures
        banks_bytes(b).len() == 8192 * b.len(),
    decreases b.len(),
{
    if b.len() > 0 {
        lemma_banks_bytes_len(b.drop_last());
    }
}

proof fn lemma_banks_bytes_slice(b: Seq<[u8; 0x2000]>, i: int)
    requires
        0 <= i < b.len(),
    ensures
        banks_bytes(b).subrange(8192 * i, 8192 * (i + 1)) == b[i]@,
    decreases b.len(),
{
    lemma_banks_bytes_len(b);
    lemma_banks_bytes_len(b.drop_last());
    if i == b.len() - 1 {
        assert(banks_bytes(b).subrange(8192 * i, 8192 * (i + 1)) =~= b[i]@);
    } else {
        lemma_banks_bytes_slice(b.drop_last(), i);
        assert(banks_bytes(b).subrange(8192 * i, 8192 * (i + 1)) =~= banks_bytes(
            b.drop_last(),
        ).subrange(8192 * i, 8192 * (i + 1)));
    }
}

proof fn lemma_le64_bytes(v: u64, b0: u64, b1: u64, b2: u64, b3: u64, b4: u64, b5: u64, b6: u64, b7: u64)
    by (bit_vector)
    requires
        b0 == v % 0x100,
        b1 == v / 0x100 % 0x100,
        b2 == v / 0x1_0000 % 0x100,
        b3 == v / 0x100_0000 % 0x100,
        b4 == v / 0x1_0000_0000 % 0x100,
        b5 == v / 0x100_0000_0000 % 0x100,
        b6 == v / 0x1_0000_0000_0000 % 0x100,
        b7 == v / 0x100_0000_0000_0000,
    ensures
        b0 + 0x100 * b1 + 0x1_0000 * b2 + 0x100_0000 * b3 + 0x1_0000_0000 * b4 + 0x100_0000_0000
            * b5 + 0x1_0000_0000_0000 * b6 + 0x100_0000_0000_0000 * b7 == v,
{
}

proof fn lemma_le64(v: u64)
    ensures
        get64(le64(v), 0) == v,
{
    let d = le64(v);
    lemma_le64_bytes(
        v,
        d[0] as u64,
        d[1] as u64,
        d[2] as u64,
        d[3] as u64,
        d[4] as u64,
        d[5] as u64,
        d[6] as u64,
        d[7] as u64,
    );
}

/// The image a machine saves is accepted, describes every register, memory
/// byte and cartridge bank of the machine, and gives the CPU back its
/// registers and cycle count.
#[verifier::spinoff_prover]
#[verifier::rlimit(30)]
proof fn lemma_image_loads(m: Machine, c0: Cpu, c: Cpu)
    requires
        m.wf(),
        m.cartridge().len() <= 256,
    ensures
        image_error(m.state_image(c)) is None,
        m.loaded_from(m.state_image(c)),
        image_cpu(c0, m.state_image(c)) == (Cpu {
            irq_line: c0.irq_line,
            nmi_pending: c0.nmi_pending,
            ..c
        }),
{
    let d = m.state_image(c);
    let n = m.banks.len() as int;
    let bb = banks_bytes(m.banks@);
    lemma_banks_bytes_len(m.banks@);
    let at = VST_HEADER + 2 + 8192 * n;
    assert(d.len() == VST_FIXED + 8192 * n);
    assert(d.subrange(0, 3) =~= vst_magic());
    assert(get16(d, VST_HEADER as int) == n) by {
        assert(d[VST_HEADER as int] == (n % 256) as u8);
        assert(d[VST_HEADER + 1] == (n / 256) as u8);
    }
    assert(d.subrange(18int, 18int + 0x4000) =~= m.ram_lo@);
    assert(d.subrange(18int + 0x4000, 18int + 0x5800) =~= m.fb@);
    assert(d.subrange(18int + 0x5800, VST_HEADER as int) =~= m.ram_hi@);
    assert(d.subrange(VST_HEADER + 2, at) =~= bb);
    assert forall|i: int| 0 <= i < n implies #[trigger] m.banks@[i]@ == image_banks(d, n)[i] by {
        lemma_banks_bytes_slice(m.banks@, i);
        assert(image_banks(d, n)[i] =~= bb.subrange(8192 * i, 8192 * (i + 1)));
    }
    assert(d[at] == m.bank_sel as u8);
    assert(d.subrange(at + 1, at + 3) =~= m.spr_x@);
    assert(d.subrange(at + 3, at + 5) =~= m.spr_y@);
    assert(d[at + 5] == (m.spr_ptr[0] % 256) as u8 && d[at + 6] == (m.spr_ptr[0] / 256) as u8);
    assert(d[at + 7] == (m.spr_ptr[1] % 256) as u8 && d[at + 8] == (m.spr_ptr[1] / 256) as u8);
    assert(d[at + 9] == m.spr_ctrl);
    assert(d[at + 10] == (m.frame % 256) as u8 && d[at + 11] == (m.frame / 256) as u8);
    assert(d[at + 12] == m.palette);
    assert(d[at + 13] == (m.lfsr % 256) as u8 && d[at + 14] == (m.lfsr / 256) as u8);
    assert(d[at + 15] == m.beeper_period);
    assert(d[at + 16] == m.key_pending);
    assert(d[at + 17] == (if m.vsync_pending { 1u8 } else { 0u8 }));
    assert(d[3] == c.a && d[4] == c.x && d[5] == c.y && d[6] == c.s && d[7] == c.p);
    assert(d[8] == (c.pc % 256) as u8 && d[9] == (c.pc / 256) as u8);
    assert(d.subrange(10, 18) =~= le64(c.cycles));
    lemma_le64(c.cycles);
    assert(get64(d, 10) == get64(le64(c.cycles), 0));
}

/// Two machines loaded from the same image agree on everything but the
/// display.
proof fn lemma_loaded_agree(m1: Machine, m2: Machine, d: Seq<u8>)
    requires
        m1.loaded_from(d),
        m2.loaded_from(d),
    ensures
        m1.agrees_with(m2),
{
    let n = image_bank_count(d);
    assert forall|i: int| 0 <= i < n implies m1.banks@[i] == m2.banks@[i] by {
        assert(m1.banks@[i]@ == m2.banks@[i]@);
        assert(m1.banks@[i] =~= m2.banks@[i]);
    }
    assert(m1.banks@ =~= m2.banks@);
    assert(m1.spr_ptr@ =~= m2.spr_ptr@);
}

/// Machines that agree apart from the display read the same everywhere and
/// save the same image.
proof fn lemma_agree_observe(m1: Machine, m2: Machine, c1: Cpu, c2: Cpu)
    requires
        m1.agrees_with(m2),
        c1.a == c2.a && c1.x == c2.x && c1.y == c2.y && c1.s == c2.s && c1.p == c2.p,
        c1.pc == c2.pc && c1.cycles == c2.cycles,
    ensures
        forall|a: u16| #[trigger] m1.peek(a) == m2.peek(a),
        m1.state_image(c1) == m2.state_image(c2),
{
    assert(m1.spr_x[0] == m2.spr_x[0] && m1.spr_x[1] == m2.spr_x[1]);
    assert(m1.spr_y[0] == m2.spr_y[0] && m1.spr_y[1] == m2.spr_y[1]);
    assert(m1.spr_ptr[0] == m2.spr_ptr[0] && m1.spr_ptr[1] == m2.spr_ptr[1]);
    assert(m1.banks.len() == m2.banks.len());
    assert forall|a: u16| #[trigger] m1.peek(a) == m2.peek(a) by {
        if a < 0x4000 {
            assert(m1.ram_lo[a as int] == m2.ram_lo[a as int]);
        } else if a < 0x5800 {
            assert(m1.fb[a - 0x4000] == m2.fb[a - 0x4000]);
        } else if 0x6000 <= a < 0xE000 {
            assert(m1.ram_hi[a - 0x6000] == m2.ram_hi[a - 0x6000]);
        }
    }
}

/// The bus respects agreement: agreeing machines read the same byte, and
/// stay in agreement across a read or a write.
proof fn lemma_agree_bus(m1: Machine, m2: Machine, a: u16, v: u8)
    requires
        m1.agrees_with(m2),
    ensures
        m1.peek(a) == m2.peek(a),
        m1.after_read(a).agrees_with(m2.after_read(a)),
        m1.after_write(a, v).agrees_with(m2.after_write(a, v)),
{
    lemma_agree_observe(m1, m2, Cpu::power_on(), Cpu::power_on());
    assert(m1.spr_ptr[0] == m2.spr_ptr[0] && m1.spr_ptr[1] == m2.spr_ptr[1]);
    assert(m1.banks.len() == m2.banks.len());
}

proof fn lemma_agree_bus_all()
    ensures
        forall|m1: Machine, m2: Machine, a: u16|
            #![trigger m1.peek(a), m2.peek(a)]
            m1.agrees_with(m2) ==> m1.peek(a) == m2.peek(a),
        forall|m1: Machine, m2: Machine, a: u16|
            #![trigger m1.after_read(a), m2.after_read(a)]
            m1.agrees_with(m2) ==> m1.after_read(a).agrees_with(m2.after_read(a)),
        forall|m1: Machine, m2: Machine, a: u16, v: u8|
            #![trigger m1.after_write(a, v), m2.after_write(a, v)]
            m1.agrees_with(m2) ==> m1.after_write(a, v).agrees_with(m2.after_write(a, v)),
{
    assert forall|m1: Machine, m2: Machine, a: u16| #![trigger m1.peek(a), m2.peek(a)] m1.agrees_with(m2) implies m1.peek(a) == m2.peek(a) by {
        lemma_agree_bus(m1, m2, a, 0);
    }
    assert forall|m1: Machine, m2: Machine, a: u16| #![trigger m1.after_read(a), m2.after_read(a)] m1.agrees_with(m2) implies m1.after_read(a).agrees_with(m2.after_read(a)) by {
        lemma_agree_bus(m1, m2, a, 0);
    }
    assert forall|m1: Machine, m2: Machine, a: u16, v: u8| #![trigger m1.after_write(a, v), m2.after_write(a, v)] m1.agrees_with(m2) implies m1.after_write(a, v).agrees_with(m2.after_write(a, v)) by {
        lemma_agree_bus(m1, m2, a, v);
    }
}

proof fn lemma_agree_resolve(c: Cpu, mode: Mode, m1: Machine, m2: Machine)
    requires
        m1.agrees_with(m2),
    ensures
        ({
            let r1 = c.resolve_s(mode, m1);
            let r2 = c.resolve_s(mode, m2);
            r1.0 == r2.0 && r1.2 == r2.2 && r1.3 == r2.3 && r1.1.agrees_with(r2.1)
        }),
{
    lemma_agree_bus_all();
}

#[verifier::spinoff_prover]
#[verifier::rlimit(60)]
proof fn lemma_agree_execute(c: Cpu, op: Op, mode: Mode, m1: Machine, m2: Machine)
    requires
        m1.agrees_with(m2),
    ensures
        c.execute_s(op, mode, m1).0 == c.execute_s(op, mode, m2).0,
        c.execute_s(op, mode, m1).1.agrees_with(c.execute_s(op, mode, m2).1),
{
    lemma_agree_bus_all();
    lemma_agree_resolve(c, mode, m1, m2);
}

proof fn lemma_agree_step(c: Cpu, m1: Machine, m2: Machine)
    requires
        m1.agrees_with(m2),
    ensures
        c.step_s(m1).0 == c.step_s(m2).0,
        c.step_s(m1).1.agrees_with(c.step_s(m2).1),
{
    reveal(Cpu::step_s);
    lemma_agree_bus_all();
    let (c1, b1, opcode) = c.fetch_s(m1);
    let (c1b, b1b, opcodeb) = c.fetch_s(m2);
    lemma_agree_execute(c1, decoded(opcode).0, decoded(opcode).1, b1, b1b);
}

proof fn lemma_agree_frame_loop(m1: Machine, m2: Machine, c: Cpu, budget: int)
    requires
        m1.agrees_with(m2),
    ensures
        m1.frame_loop(c, budget).1 == m2.frame_loop(c, budget).1,
        m1.frame_loop(c, budget).0.agrees_with(m2.frame_loop(c, budget).0),
    decreases budget,
{
    if budget > 0 {
        let c1 = Cpu { irq_line: m1.vsync_pending && !flag(c.p, FLAG_I), ..c };
        lemma_agree_step(c1, m1, m2);
        let (c2, n1) = c1.step_s(m1);
        let (c2b, n2) = c1.step_s(m2);
        let k1 = if c2.irq_line {
            Machine { vsync_pending: false, ..n1 }
        } else {
            n1
        };
        let k2 = if c2b.irq_line {
            Machine { vsync_pending: false, ..n2 }
        } else {
            n2
        };
        assert(k1.agrees_with(k2));
        if !(c2.cycles <= c1.cycles || c2.cycles - c1.cycles >= budget) {
            lemma_agree_frame_loop(k1, k2, c2, budget - (c2.cycles - c1.cycles));
        }
    }
}

proof fn lemma_agree_rows(m1: Machine, m2: Machine, s: int, n: int, quiet: bool)
    requires
        0 <= s < 2,
        m1.agrees_with(m2),
        m1.disp == m2.disp,
    ensures
        m1.sprite_rows(s, n, quiet).agrees_with(m2.sprite_rows(s, n, quiet)),
        m1.sprite_rows(s, n, quiet).disp == m2.sprite_rows(s, n, quiet).disp,
    decreases n,
{
    if n > 0 {
        lemma_agree_rows(m1, m2, s, n - 1, quiet);
        let a1 = m1.sprite_rows(s, n - 1, quiet);
        let a2 = m2.sprite_rows(s, n - 1, quiet);
        assert(a1.spr_y[s] == a2.spr_y[s] && a1.spr_x[s] == a2.spr_x[s] && a1.spr_ptr[s] == a2.spr_ptr[s]);
        let addr = wrap16(a1.spr_ptr[s] + n - 1);
        lemma_agree_bus(a1, a2, addr, 0);
    }
}

/// Compositing respects agreement, and agreeing machines composite the same
/// display.
proof fn lemma_agree_composed(m1: Machine, m2: Machine)
    requires
        m1.agrees_with(m2),
    ensures
        m1.composed().agrees_with(m2.composed()),
        m1.composed().disp == m2.composed().disp,
{
    assert(m1.fb =~= m2.fb);
    let a1 = Machine { disp: m1.fb, ..m1 };
    let a2 = Machine { disp: m2.fb, ..m2 };
    lemma_agree_rows(a1, a2, 0, 8, false);
    let b1 = a1.sprite_composed(0, false);
    let b2 = a2.sprite_composed(0, false);
    lemma_agree_rows(b1, b2, 1, 8, false);
}

proof fn lemma_agree_frames(m1: Machine, m2: Machine, c: Cpu, n: nat)
    requires
        m1.agrees_with(m2),
    ensures
        m1.frames_s(c, n).1 == m2.frames_s(c, n).1,
        m1.frames_s(c, n).0.agrees_with(m2.frames_s(c, n).0),
        n > 0 ==> m1.frames_s(c, n).0.disp == m2.frames_s(c, n).0.disp,
    decreases n,
{
    if n > 0 {
        lemma_agree_frames(m1, m2, c, (n - 1) as nat);
        let (p1, q1) = m1.frames_s(c, (n - 1) as nat);
        let (p2, q2) = m2.frames_s(c, (n - 1) as nat);
        let v1 = Machine { vsync_pending: true, ..p1 };
        let v2 = Machine { vsync_pending: true, ..p2 };
        lemma_agree_frame_loop(v1, v2, q1, CYCLES_PER_FRAME as int);
        let (l1, d1) = v1.frame_loop(q1, CYCLES_PER_FRAME as int);
        let (l2, d2) = v2.frame_loop(q1, CYCLES_PER_FRAME as int);
        lemma_agree_composed(l1, l2);
    }
}

/// Machines that agree apart from the display run alike: from the same CPU
/// state, any number of frames leaves equal CPUs (registers, PC, cycle
/// count) and machines that still agree, read the same at every address
/// and, once a frame has run, show the same display.
pub proof fn lemma_agreeing_machines_run_alike(m1: Machine, m2: Machine, c: Cpu, n: nat)
    requires
        m1.agrees_with(m2),
    ensures
        m1.frames_s(c, n).1 == m2.frames_s(c, n).1,
        m1.frames_s(c, n).0.agrees_with(m2.frames_s(c, n).0),
        forall|a: u16| #[trigger] m1.frames_s(c, n).0.peek(a) == m2.frames_s(c, n).0.peek(a),
        n > 0 ==> m1.frames_s(c, n).0.display() == m2.frames_s(c, n).0.display(),
{
    lemma_agree_frames(m1, m2, c, n);
    lemma_agree_observe(m1.frames_s(c, n).0, m2.frames_s(c, n).0, c, c);
}

/// The IRQ input a frame starts with makes no difference: the frame loop
/// drives the line itself before every step.
proof fn lemma_frames_ignore_irq_line(m: Machine, c: Cpu, irq: bool, n: nat)
    requires
        n > 0,
    ensures
        m.frames_s(Cpu { irq_line: irq, ..c }, n) == m.frames_s(c, n),
    decreases n,
{
    if n > 1 {
        lemma_frames_ignore_irq_line(m, c, irq, (n - 1) as nat);
    } else {
        let v = Machine { vsync_pending: true, ..m };
        assert(v.frame_loop(Cpu { irq_line: irq, ..c }, CYCLES_PER_FRAME as int) == v.frame_loop(
            c,
            CYCLES_PER_FRAME as int,
        ));
        assert(m.frames_s(Cpu { irq_line: irq, ..c }, 0) == (m, Cpu { irq_line: irq, ..c }));
        assert(m.frames_s(c, 0) == (m, c));
        assert(m.frame_s(Cpu { irq_line: irq, ..c }) == m.frame_s(c));
    }
}

/// Saving then restoring is the identity: the image a machine saves is
/// accepted; a machine restored from it agrees with the saved one on every
/// memory byte, cartridge bank, register and latch (only the display, which
/// a restore redraws, is not compared), reads the same at every address and
/// saves the very same image again; and the CPU gets back its registers and
/// cycle count (its interrupt inputs are those of the CPU restored into).
pub proof fn lemma_save_restore_roundtrip(m: Machine, c0: Cpu, c: Cpu, m2: Machine)
    requires
        m.wf(),
        m.cartridge().len() <= 256,
        m2.loaded_from(m.state_image(c)),
    ensures
        image_error(m.state_image(c)) is None,
        image_cpu(c0, m.state_image(c)) == (Cpu {
            irq_line: c0.irq_line,
            nmi_pending: c0.nmi_pending,
            ..c
        }),
        m2.agrees_with(m),
        forall|a: u16| #[trigger] m2.peek(a) == m.peek(a),
        m2.state_image(image_cpu(c0, m.state_image(c))) == m.state_image(c),
{
    lemma_image_loads(m, c0, c);
    lemma_loaded_agree(m2, m, m.state_image(c));
    lemma_agree_observe(m2, m, image_cpu(c0, m.state_image(c)), c);
}

/// The `.vst` image layout: the magic "V1S", then A X Y S P, the PC and the
/// cycle count little-endian; then RAM $0000-$3FFF, the framebuffer and RAM
/// $6000-$DFFF byte for byte; the bank count (little-endian) at offset
/// 55 314 and each 8 KiB bank after it; then the bank register, palette,
/// frame counter, LFSR, beeper, key latch and vsync latch. The image is
/// 55 334 bytes plus 8 KiB per bank.
#[verifier::spinoff_prover]
#[verifier::rlimit(30)]
pub proof fn lemma_image_layout(m: Machine, c: Cpu)
    ensures
        ({
            let d = m.state_image(c);
            let n = m.cartridge().len();
            let at = VST_HEADER + 2 + 8192 * n;
            &&& d.len() == VST_FIXED + 8192 * n
            &&& d.subrange(0, 3) == vst_magic()
            &&& d[3] == c.a && d[4] == c.x && d[5] == c.y && d[6] == c.s && d[7] == c.p
            &&& get16(d, 8) == c.pc
            &&& get64(d, 10) == c.cycles
            &&& forall|a: u16| a < 0x5800 ==> d[18 + a] == #[trigger] m.peek(a)
            &&& forall|a: u16| 0x6000 <= a < 0xE000 ==> d[18 + a - 0x800] == #[trigger] m.peek(a)
            &&& get16(d, VST_HEADER as int) == m.cartridge().len() as u16
            &&& forall|i: int|
                0 <= i < n ==> d.subrange(VST_HEADER + 2 + 8192 * i, VST_HEADER + 2 + 8192 * (i + 1))
                    == #[trigger] m.cartridge()[i]@
            &&& d[at] == m.selected_bank() as u8
            &&& get16(d, at + 10) == m.frame_count()
            &&& d[at + 12] == m.palette_reg()
            &&& get16(d, at + 13) == m.lfsr_state()
            &&& d[at + 15] == m.beeper_reg()
            &&& d[at + 16] == m.pending_key()
            &&& d[at + 17] == (if m.vsync_latched() { 1u8 } else { 0u8 })
        }),
{
    let d = m.state_image(c);
    let n = m.banks.len() as int;
    let bb = banks_bytes(m.banks@);
    lemma_banks_bytes_len(m.banks@);
    let at = VST_HEADER + 2 + 8192 * n;
    assert(d.len() == VST_FIXED + 8192 * n);
    assert(d.subrange(0, 3) =~= vst_magic());
    assert(d[VST_HEADER as int] == (m.banks.len() as u16 % 256) as u8);
    assert(d[VST_HEADER + 1] == (m.banks.len() as u16 / 256) as u8);
    assert(d.subrange(18int, 18int + 0x4000) =~= m.ram_lo@);
    assert(d.subrange(18int + 0x4000, 18int + 0x5800) =~= m.fb@);
    assert(d.subrange(18int + 0x5800, VST_HEADER as int) =~= m.ram_hi@);
    assert forall|a: u16| a < 0x5800 implies d[18 + a] == #[trigger] m.peek(a) by {
        if a < 0x4000 {
            assert(d.subrange(18int, 18int + 0x4000)[a as int] == m.ram_lo@[a as int]);
        } else {
            assert(d.subrange(18int + 0x4000, 18int + 0x5800)[a - 0x4000] == m.fb@[a - 0x4000]);
        }
    }
    assert forall|a: u16| 0x6000 <= a < 0xE000 implies d[18 + a - 0x800] == #[trigger] m.peek(a) by {
        assert(d.subrange(18int + 0x5800, VST_HEADER as int)[a - 0x6000] == m.ram_hi@[a - 0x6000]);
    }
    assert(d.subrange(VST_HEADER + 2, at) =~= bb);
    assert forall|i: int| 0 <= i < n implies d.subrange(
        VST_HEADER + 2 + 8192 * i,
        VST_HEADER + 2 + 8192 * (i + 1),
    ) == #[trigger] m.cartridge()[i]@ by {
        lemma_banks_bytes_slice(m.banks@, i);
        assert(d.subrange(VST_HEADER + 2 + 8192 * i, VST_HEADER + 2 + 8192 * (i + 1)) =~= bb.subrange(
            8192 * i,
            8192 * (i + 1),
        ));
    }
    assert(d[at] == m.bank_sel as u8);
    assert(d[at + 10] == (m.frame % 256) as u8 && d[at + 11] == (m.frame / 256) as u8);
    assert(d[at + 12] == m.palette);
    assert(d[at + 13] == (m.lfsr % 256) as u8 && d[at + 14] == (m.lfsr / 256) as u8);
    assert(d[at + 15] == m.beeper_period);
    assert(d[at + 16] == m.key_pending);
    assert(d[at + 17] == (if m.vsync_pending { 1u8 } else { 0u8 }));
    assert(d[3] == c.a && d[4] == c.x && d[5] == c.y && d[6] == c.s && d[7] == c.p);
    assert(d[8] == (c.pc % 256) as u8 && d[9] == (c.pc / 256) as u8);
    assert(d.subrange(10, 18) =~= le64(c.cycles));
    lemma_le64(c.cycles);
    assert(get64(d, 10) == get64(le64(c.cycles), 0));
}

/// A freshly built machine reads zero from RAM, the framebuffer and every
/// I/O register but RANDOM, whose first read is $EF (the LFSR's first step
/// from its seed $ACE1); the cartridge's first bank is visible at
/// $E000-$FFFF, and the display is blank.
pub proof fn lemma_fresh_reads(m: Machine, addr: u16)
    requires
        m.is_fresh(),
        m.wf(),
    ensures
        addr < 0xE000 && addr != 0x5805 ==> m.peek(addr) == 0,
        m.peek(0x5805) == 0xEF,
        m.after_read(0x5805).lfsr_state() == 0x59EF,
        addr >= 0xE000 ==> m.peek(addr) == m.cartridge()[0][addr - 0xE000],
        m.display()@ == Seq::new(0x1800, |i: int| 0u8),
        m.framebuffer()@ == Seq::new(0x1800, |i: int| 0u8),
        m.frame_count() == 0,
        m.palette_reg() == 0,
        m.beeper_reg() == 0,
        m.pending_key() == 0,
        m.selected_bank() == 0,
        m.lfsr_state() == 0xACE1,
        !m.vsync_latched(),
        !m.sprite_on(0) && !m.sprite_on(1),
{
    assert(lfsr_next(0xACE1u16) == 0x59EFu16) by (bit_vector);
    if addr < 0x4000 {
        assert(m.ram_lo@[addr as int] == 0);
    } else if addr < 0x5800 {
        assert(m.fb@[addr - 0x4000] == 0);
    } else if 0x6000 <= addr < 0xE000 {
        assert(m.ram_hi@[addr - 0x6000] == 0);
    } else if 0x5808 <= addr < 0x5810 {
        assert(m.spr_x[0] == 0 && m.spr_x[1] == 0);
        assert(m.spr_y[0] == 0 && m.spr_y[1] == 0);
        assert(m.spr_ptr[0] == 0 && m.spr_ptr[1] == 0);
    }
}

/// Resuming from a save state is cycle-exact: a machine restored from the
/// image of `m` and `c`, with the CPU restored from it (the CPU restored
/// into holding the same NMI latch as `c`), runs any number of frames, one
/// or more, exactly as `m` and `c` would: the CPUs end equal, registers,
/// PC and cycle count alike, and the machines agree, read the same at every
/// address and show the same display.
pub proof fn lemma_restore_resumes_exactly(m: Machine, c: Cpu, m2: Machine, c0: Cpu, n: nat)
    requires
        m.wf(),
        m.cartridge().len() <= 256,
        m2.loaded_from(m.state_image(c)),
        c0.nmi_pending == c.nmi_pending,
        n > 0,
    ensures
        ({
            let c2 = image_cpu(c0, m.state_image(c));
            let (r2, d2) = m2.frames_s(c2, n);
            let (r1, d1) = m.frames_s(c, n);
            &&& d2 == d1
            &&& r2.agrees_with(r1)
            &&& forall|a: u16| #[trigger] r2.peek(a) == r1.peek(a)
            &&& r2.display() == r1.display()
        }),
{
    lemma_save_restore_roundtrip(m, c0, c, m2);
    let c2 = image_cpu(c0, m.state_image(c));
    assert(c2 == Cpu { irq_line: c0.irq_line, ..c });
    lemma_frames_ignore_irq_line(m, c, c0.irq_line, n);
    lemma_agreeing_machines_run_alike(m2, m, c2, n);
}

/// A restore redraws the display without the bus: the redrawn machine
/// agrees with the loaded one, reads the same everywhere and saves the same
/// image.
pub proof fn lemma_redraw_is_quiet(m: Machine, c: Cpu)
    ensures
        m.redrawn().agrees_with(m),
        forall|a: u16| #[trigger] m.redrawn().peek(a) == m.peek(a),
        m.redrawn().state_image(c) == m.state_image(c),
{
    lemma_redrawn_keep(m);
    lemma_agree_observe(m.redrawn(), m, c, c);
}

/// RAM and the framebuffer are plain memory: a read gives back the last byte
/// written, reading has no side effect, and a write leaves every other
/// address reading as before.
pub proof fn lemma_ram_read_after_write(m: Machine, addr: u16, val: u8, other: u16)
    requires
        addr < 0x5800 || 0x6000 <= addr < 0xE000,
    ensures
        m.after_write(addr, val).peek(addr) == val,
        m.after_write(addr, val).after_read(addr) == m.after_write(addr, val),
        other != addr ==> m.after_write(addr, val).peek(other) == m.peek(other),
{
}

/// The ROM window is write-protected: a write to $E000-$FFFF changes nothing.
pub proof fn lemma_rom_write_protected(m: Machine, addr: u16, val: u8)
    requires
        addr >= 0xE000,
    ensures
        m.after_write(addr, val) == m,
{
}

/// Unmapped I/O addresses read $00, have no read side effect and drop writes.
pub proof fn lemma_io_holes(m: Machine, addr: u16, val: u8)
    requires
        addr == 0x5801 || 0x5811 <= addr < 0x6000,
    ensures
        m.peek(addr) == 0,
        m.after_read(addr) == m,
        m.after_write(addr, val) == m,
{
}

/// The keyboard register returns the latest posted key once, then reads
/// zero; the newest key replaces an unread one.
pub proof fn lemma_keyboard(m: Machine, a: u8, b: u8)
    ensures
        m.with_key(a).peek(0x5800) == a,
        m.with_key(a).after_read(0x5800).peek(0x5800) == 0,
        m.with_key(a).with_key(b) == m.with_key(b),
{
}

/// The bank register selects which cartridge bank the ROM window shows;
/// writes naming a bank that does not exist are ignored.
pub proof fn lemma_bank_select(m: Machine, val: u8, off: u16)
    requires
        m.wf(),
        off < 0x2000,
    ensures
        (val as int) < m.cartridge().len() ==> {
            let m2 = m.after_write(0x5806, val);
            &&& m2.wf()
            &&& m2.peek(0x5806) == val
            &&& m2.peek((0xE000 + off) as u16) == m.cartridge()[val as int][off as int]
        },
        (val as int) >= m.cartridge().len() ==> m.after_write(0x5806, val) == m,
{
}

/// Read/write registers read back what was written: palette, beeper, the
/// sprite latches and sprite control.
pub proof fn lemma_register_roundtrip(m: Machine, addr: u16, val: u8)
    requires
        addr == 0x5804 || addr == 0x5807 || 0x5808 <= addr <= 0x5810,
    ensures
        m.after_write(addr, val).peek(addr) == val,
{
}

/// The host-side accessors read what the bus reads: the palette register
/// at $5804, the beeper register at $5807, the framebuffer plane at
/// $4000-$57FF, the key latch at $5800 and the bank register at $5806;
/// none of these reads has a side effect.
pub proof fn lemma_registers_on_the_bus(m: Machine, addr: u16)
    ensures
        m.peek(0x5804) == m.palette_reg(),
        m.peek(0x5807) == m.beeper_reg(),
        m.peek(0x5800) == m.pending_key(),
        m.peek(0x5806) == m.selected_bank() as u8,
        0x4000 <= addr < 0x5800 ==> m.peek(addr) == m.framebuffer()[addr - 0x4000],
        addr != 0x5800 && addr != 0x5805 ==> m.after_read(addr) == m,
{
}

/// SPR_CTRL ($5810): sprite s (0 or 1) is enabled exactly when bit s of the
/// register is set, whatever the other bits hold; the register reads back
/// what was written.
pub proof fn lemma_sprite_enable_bits(m: Machine, v: u8)
    ensures
        m.sprite_on(0) == (m.peek(0x5810) & 1 != 0),
        m.sprite_on(1) == (m.peek(0x5810) & 2 != 0),
        m.after_write(0x5810, v).sprite_on(0) == (v & 1 != 0),
        m.after_write(0x5810, v).sprite_on(1) == (v & 2 != 0),
        m.after_write(0x5810, v).peek(0x5810) == v,
{
    let r = m.spr_ctrl;
    assert((r % 2 == 1) == (r & 1 != 0) && (r / 2 % 2 == 1) == (r & 2 != 0)) by (bit_vector);
    assert((v % 2 == 1) == (v & 1 != 0) && (v / 2 % 2 == 1) == (v & 2 != 0)) by (bit_vector);
}

/// The machine's dimensions: 33 333 cycles per frame (a 2 MHz CPU at 60
/// frames a second) and room for one more instruction past it; a 256 by 192
/// one-bit framebuffer of 32 bytes per row at $4000; the arrow keys as
/// $11-$14; and a `.vst` image of 18 header bytes, the 16K, 6K and 32K of
/// memory, the bank count, and 18 trailing bytes of registers.
pub proof fn lemma_machine_constants()
    ensures
        CYCLES_PER_FRAME == 33_333,
        FRAME_HEADROOM == CYCLES_PER_FRAME + MAX_STEP_CYCLES,
        SCREEN_W == 256 && SCREEN_H == 192,
        FB_BASE == 0x4000 && FB_LEN == SCREEN_W / 8 * SCREEN_H,
        KEY_UP == 0x11 && KEY_DOWN == 0x12 && KEY_LEFT == 0x13 && KEY_RIGHT == 0x14,
        VST_HEADER == 18 + 0x4000 + 0x1800 + 0x8000,
        VST_FIXED == VST_HEADER + 2 + 18,
{
}

/// The stack lives in RAM page one: PHA then PLA gives A back, with Z and N
/// from it, and leaves S where it was.
#[verifier::spinoff_prover]
#[verifier::rlimit(40)]
pub proof fn lemma_push_pull_round_trip(c: Cpu, m: Machine)
    requires
        c.cycles + 20 <= u64::MAX,
    ensures
        ({
            let (c1, m1) = c.execute_s(Op::Pha, Mode::Imp, m);
            let (c2, m2) = c1.execute_s(Op::Pla, Mode::Imp, m1);
            &&& c2.a == c.a && c2.s == c.s
            &&& flag(c2.p, FLAG_Z) == (c.a == 0) && flag(c2.p, FLAG_N) == (c.a >= 128)
        }),
{
    crate::cpu::lemma_flag_updates();
    assert(crate::cpu::status_bit(FLAG_Z) && crate::cpu::status_bit(FLAG_N));
    let s0 = c.s;
    let at = (256 + s0) as u16;
    let (c1, m1) = c.execute_s(Op::Pha, Mode::Imp, m);
    assert(m1 == m.after_write(at, c.a));
    assert(c1.s == wrap8(s0 - 1));
    assert(m1.peek(at) == c.a);
    assert(wrap8(wrap8(s0 - 1) + 1) == s0);
}

/// JSR then RTS returns to the instruction after the three-byte JSR, with S
/// restored: the return address goes onto the RAM stack and comes back.
#[verifier::spinoff_prover]
#[verifier::rlimit(40)]
pub proof fn lemma_call_return_round_trip(c: Cpu, m: Machine)
    requires
        c.cycles + 20 <= u64::MAX,
    ensures
        ({
            let (c1, m1) = c.execute_s(Op::Jsr, Mode::Abs, m);
            let (c2, m2) = c1.execute_s(Op::Rts, Mode::Imp, m1);
            &&& c2.pc == (c.pc + 2) % 65536 && c2.s == c.s
        }),
{
    let s0 = c.s;
    let (f1, g1, t) = c.fetch16_s(m);
    let ret = wrap16(f1.pc - 1);
    let hi_at = (256 + s0) as u16;
    let lo_at = (256 + wrap8(s0 - 1)) as u16;
    let g2 = g1.after_write(hi_at, (ret / 256) as u8);
    let (j1, n1) = c.execute_s(Op::Jsr, Mode::Abs, m);
    assert(n1 == g2.after_write(lo_at, (ret % 256) as u8));
    assert(j1.s == wrap8(wrap8(s0 - 1) - 1));
    assert(n1.peek(lo_at) == (ret % 256) as u8);
    assert(lo_at != hi_at);
    assert(n1.peek(hi_at) == (ret / 256) as u8);
    assert(wrap8(wrap8(wrap8(s0 - 1) - 1) + 1) == wrap8(s0 - 1));
    assert(wrap8(wrap8(s0 - 1) + 1) == s0);
    assert(f1.pc == wrap16(wrap16(c.pc + 1) + 1));
}

/// Interrupt entry on the machine: the return address goes on the RAM stack
/// high byte first, then the status, with B set only for BRK (and the
/// unused bit set always); I is then set, S has dropped by three, seven
/// cycles have passed, and PC is the little-endian word at the vector in
/// the cartridge.
#[verifier::spinoff_prover]
#[verifier::rlimit(40)]
pub proof fn lemma_interrupt_entry(c: Cpu, m: Machine, vector: u16, brk: bool)
    requires
        0xE000 <= vector < 0xFFFF,
        c.cycles + 7 <= u64::MAX,
    ensures
        ({
            let (c2, m2) = c.interrupt_s(m, vector, brk);
            let s0 = c.s;
            &&& m2.peek((0x100 + s0) as u16) == (c.pc / 256) as u8
            &&& m2.peek((0x100 + (s0 + 255) % 256) as u16) == (c.pc % 256) as u8
            &&& m2.peek((0x100 + (s0 + 254) % 256) as u16) == (if brk { c.p | 0x30 } else { (c.p & 0xEF) | 0x20 })
            &&& flag(c2.p, FLAG_I)
            &&& c2.s == (s0 + 253) % 256
            &&& c2.pc as int == m.peek(vector) + 256 * m.peek((vector + 1) as u16)
            &&& c2.cycles == c.cycles + 7
        }),
{
    crate::cpu::lemma_status_layout();
    let s0 = c.s;
    let a0 = (256 + s0) as u16;
    let a1 = (256 + wrap8(s0 - 1)) as u16;
    let a2 = (256 + wrap8(wrap8(s0 - 1) - 1)) as u16;
    assert(wrap8(s0 - 1) == (s0 + 255) % 256);
    assert(wrap8(wrap8(s0 - 1) - 1) == (s0 + 254) % 256);
    assert(wrap8(wrap8(wrap8(s0 - 1) - 1) - 1) == (s0 + 253) % 256);
    assert(a0 != a1 && a0 != a2 && a1 != a2);
    let pp = if brk { crate::cpu::pushed_status(c.p) } else { crate::cpu::irq_status(c.p) };
    let (c1, b1) = c.push16_s(m, c.pc);
    assert(c1.s == wrap8(wrap8(s0 - 1) - 1));
    assert(b1 == m.after_write(a0, (c.pc / 256) as u8).after_write(a1, (c.pc % 256) as u8));
    let (c2, b2) = c1.push_s(b1, pp);
    assert(b2 == b1.after_write(a2, pp));
    assert(b2.peek(a0) == (c.pc / 256) as u8);
    assert(b2.peek(a1) == (c.pc % 256) as u8);
    assert(b2.peek(a2) == pp);
    assert(b2.after_read(vector) == b2);
    assert(b2.after_read((vector + 1) as u16) == b2);
    assert(b2.peek(vector) == m.peek(vector));
    assert(b2.peek((vector + 1) as u16) == m.peek((vector + 1) as u16));
    let q = c2.p;
    assert(flag(q | FLAG_I, FLAG_I)) by (bit_vector);
}

/// Which interrupt a step takes: a latched NMI first (through $FFFA, B
/// clear), else a raised IRQ line with I clear (through $FFFE, B clear);
/// BRK enters through $FFFE with B set, its return address skipping the
/// signature byte.
pub proof fn lemma_interrupt_dispatch(c: Cpu, m: Machine)
    ensures
        c.nmi_pending ==> c.step_s(m) == (Cpu { nmi_pending: false, ..c }).interrupt_s(m, 0xFFFA, false),
        !c.nmi_pending && c.irq_line && c.p & 0x04 == 0 ==> c.step_s(m) == c.interrupt_s(m, 0xFFFE, false),
        c.execute_s(Op::Brk, Mode::Imp, m) == (Cpu { pc: wrap16(c.pc + 1), ..c }).interrupt_s(m, 0xFFFE, true),
{
    reveal(Cpu::step_s);
}

/// Every read of RANDOM ($5805) steps the LFSR once and returns the low
/// byte of the new state; nothing else moves it.
pub proof fn lemma_random_steps(m: Machine, addr: u16, val: u8)
    ensures
        m.peek(0x5805) == (lfsr_next(m.lfsr_state()) % 256) as u8,
        m.after_read(0x5805).lfsr_state() == lfsr_next(m.lfsr_state()),
        addr != 0x5805 ==> m.after_read(addr).lfsr_state() == m.lfsr_state(),
        m.after_write(addr, val).lfsr_state() == m.lfsr_state(),
{
}

/// The frame counter reads little-endian at $5802/$5803 and wraps after
/// 65536 frames.
pub proof fn lemma_frame_counter(m: Machine)
    ensures
        m.peek(0x5802) as int + 256 * m.peek(0x5803) == m.frame_count(),
        m.ticked().frame_count() == (m.frame_count() + 1) % 65536,
{
}

proof fn lemma_bus_keeps_frame()
    ensures
        forall|m: Machine, a: u16| #[trigger] m.after_read(a).frame == m.frame,
        forall|m: Machine, a: u16, v: u8| #[trigger] m.after_write(a, v).frame == m.frame,
{
}

proof fn lemma_bus_keeps_vsync()
    ensures
        forall|m: Machine, a: u16| #[trigger] m.after_read(a).vsync_pending == m.vsync_pending,
        forall|m: Machine, a: u16, v: u8| #[trigger] m.after_write(a, v).vsync_pending == m.vsync_pending,
{
}

proof fn lemma_resolve_keeps_frame()
    ensures
        forall|c: Cpu, mode: Mode, m: Machine| #[trigger] c.resolve_s(mode, m).1.frame == m.frame,
{
    lemma_bus_keeps_frame();
}

proof fn lemma_resolve_keeps_vsync()
    ensures
        forall|c: Cpu, mode: Mode, m: Machine| #[trigger] c.resolve_s(mode, m).1.vsync_pending == m.vsync_pending,
{
    lemma_bus_keeps_vsync();
}

proof fn lemma_stack_keeps_frame()
    ensures
        forall|c: Cpu, m: Machine, v: u8| #[trigger] c.push_s(m, v).1.frame == m.frame,
        forall|c: Cpu, m: Machine| #[trigger] c.pop_s(m).1.frame == m.frame,
        forall|c: Cpu, m: Machine, v: u16| #[trigger] c.push16_s(m, v).1.frame == m.frame,
        forall|c: Cpu, m: Machine| #[trigger] c.pop16_s(m).1.frame == m.frame,
        forall|c: Cpu, m: Machine| #[trigger] c.fetch_s(m).1.frame == m.frame,
        forall|c: Cpu, m: Machine| #[trigger] c.fetch16_s(m).1.frame == m.frame,
{
    lemma_bus_keeps_frame();
}

proof fn lemma_stack_keeps_vsync()
    ensures
        forall|c: Cpu, m: Machine, v: u8| #[trigger] c.push_s(m, v).1.vsync_pending == m.vsync_pending,
        forall|c: Cpu, m: Machine| #[trigger] c.pop_s(m).1.vsync_pending == m.vsync_pending,
        forall|c: Cpu, m: Machine, v: u16| #[trigger] c.push16_s(m, v).1.vsync_pending == m.vsync_pending,
        forall|c: Cpu, m: Machine| #[trigger] c.pop16_s(m).1.vsync_pending == m.vsync_pending,
        forall|c: Cpu, m: Machine| #[trigger] c.fetch_s(m).1.vsync_pending == m.vsync_pending,
        forall|c: Cpu, m: Machine| #[trigger] c.fetch16_s(m).1.vsync_pending == m.vsync_pending,
{
    lemma_bus_keeps_vsync();
}

#[verifier::spinoff_prover]
proof fn lemma_execute_keeps_frame(c: Cpu, op: Op, mode: Mode, m: Machine)
    ensures
        c.execute_s(op, mode, m).1.frame == m.frame,
{
    lemma_bus_keeps_frame();
    lemma_resolve_keeps_frame();
    lemma_stack_keeps_frame();
}

#[verifier::spinoff_prover]
proof fn lemma_execute_keeps_vsync(c: Cpu, op: Op, mode: Mode, m: Machine)
    ensures
        c.execute_s(op, mode, m).1.vsync_pending == m.vsync_pending,
{
    lemma_bus_keeps_vsync();
    lemma_resolve_keeps_vsync();
    lemma_stack_keeps_vsync();
}

/// Sprites are composited into the display only: the framebuffer plane the
/// CPU sees stays background-only, so a sprite that does not move never
/// blinks. With sprites off the display is the framebuffer itself.
pub proof fn lemma_sprites_leave_framebuffer(m: Machine)
    ensures
        m.composed().framebuffer() == m.framebuffer(),
        m.composed().frame_count() == m.frame_count(),
        m.composed().palette_reg() == m.palette_reg(),
        !m.sprite_on(0) && !m.sprite_on(1) ==> m.composed().display() == m.framebuffer(),
{
    lemma_composed_keep(m);
}

/// No instruction or interrupt the CPU executes changes the frame counter
/// or the vsync latch: neither has a write path on the bus.
proof fn lemma_step_keeps_timing(c: Cpu, m: Machine)
    ensures
        c.step_s(m).1.frame == m.frame,
        c.step_s(m).1.vsync_pending == m.vsync_pending,
{
    reveal(Cpu::step_s);
    lemma_bus_keeps_frame();
    lemma_bus_keeps_vsync();
    lemma_stack_keeps_frame();
    lemma_stack_keeps_vsync();
    let (c1, b1, opcode) = c.fetch_s(m);
    lemma_execute_keeps_frame(c1, decoded(opcode).0, decoded(opcode).1, b1);
    lemma_execute_keeps_vsync(c1, decoded(opcode).0, decoded(opcode).1, b1);
}

proof fn lemma_frame_loop_keeps_frame(m: Machine, c: Cpu, budget: int)
    ensures
        m.frame_loop(c, budget).0.frame == m.frame,
    decreases budget,
{
    if budget > 0 {
        let c1 = Cpu { irq_line: m.vsync_pending && !flag(c.p, FLAG_I), ..c };
        let (c2, m2) = c1.step_s(m);
        lemma_step_keeps_timing(c1, m);
        let m3 = if c2.irq_line {
            Machine { vsync_pending: false, ..m2 }
        } else {
            m2
        };
        if !(c2.cycles <= c1.cycles || c2.cycles - c1.cycles >= budget) {
            lemma_frame_loop_keeps_frame(m3, c2, budget - (c2.cycles - c1.cycles));
        }
    }
}

proof fn lemma_frame_loop_no_nmi(m: Machine, c: Cpu, budget: int)
    requires
        c.cycles + budget + MAX_STEP_CYCLES <= u64::MAX,
    ensures
        m.frame_loop(c, budget).1.nmi_pending ==> c.nmi_pending,
    decreases budget,
{
    if budget > 0 {
        let c1 = Cpu { irq_line: m.vsync_pending && !flag(c.p, FLAG_I), ..c };
        lemma_step_cost(c1, m);
        let (c2, m2) = c1.step_s(m);
        let m3 = if c2.irq_line {
            Machine { vsync_pending: false, ..m2 }
        } else {
            m2
        };
        if !(c2.cycles <= c1.cycles || c2.cycles - c1.cycles >= budget) {
            lemma_frame_loop_no_nmi(m3, c2, budget - (c2.cycles - c1.cycles));
        }
    }
}

proof fn lemma_frame_irqs_bound(m: Machine, c: Cpu, budget: int)
    requires
        c.cycles + budget + MAX_STEP_CYCLES <= u64::MAX,
    ensures
        m.frame_irqs(c, budget) <= (if m.vsync_pending { 1nat } else { 0nat }),
        !m.vsync_pending ==> m.frame_irqs(c, budget) == 0,
    decreases budget,
{
    if budget > 0 {
        let c1 = Cpu { irq_line: m.vsync_pending && !flag(c.p, FLAG_I), ..c };
        lemma_step_cost(c1, m);
        lemma_step_keeps_timing(c1, m);
        let (c2, m2) = c1.step_s(m);
        let m3 = if c2.irq_line {
            Machine { vsync_pending: false, ..m2 }
        } else {
            m2
        };
        if !(c2.cycles <= c1.cycles || c2.cycles - c1.cycles >= budget) {
            lemma_frame_irqs_bound(m3, c2, budget - (c2.cycles - c1.cycles));
        }
    }
}

proof fn lemma_frame_steps_irq(m: Machine, c: Cpu, budget: int)
    requires
        c.cycles + budget + MAX_STEP_CYCLES <= u64::MAX,
        !c.nmi_pending,
    ensures
        ({
            let t = m.frame_steps(c, budget);
            forall|k: int|
                0 <= k < t.len() ==> ((#[trigger] t[k]).1 <==> (m.vsync_pending && t[k].0 && forall|j: int|
                    0 <= j < k ==> !t[j].0))
        }),
    decreases budget,
{
    if budget > 0 {
        let c1 = Cpu { irq_line: m.vsync_pending && !flag(c.p, FLAG_I), ..c };
        lemma_step_cost(c1, m);
        lemma_step_keeps_timing(c1, m);
        let (c2, m2) = c1.step_s(m);
        let m3 = if c2.irq_line {
            Machine { vsync_pending: false, ..m2 }
        } else {
            m2
        };
        let t = m.frame_steps(c, budget);
        if !(c2.cycles <= c1.cycles || c2.cycles - c1.cycles >= budget) {
            let b2 = budget - (c2.cycles - c1.cycles);
            lemma_frame_steps_irq(m3, c2, b2);
            let rest = m3.frame_steps(c2, b2);
            assert(t == seq![(!flag(c.p, FLAG_I), c1.irq_line && !c1.nmi_pending)] + rest);
            assert forall|k: int| 0 <= k < t.len() implies ((#[trigger] t[k]).1 <==> (m.vsync_pending && t[k].0
                && forall|j: int| 0 <= j < k ==> !t[j].0)) by {
                if k > 0 {
                    assert(t[k] == rest[k - 1]);
                    if m.vsync_pending && t[k].0 && forall|j: int| 0 <= j < k ==> !t[j].0 {
                        assert(!t[0].0);
                        assert forall|j: int| 0 <= j < k - 1 implies !rest[j].0 by {
                            assert(t[j + 1] == rest[j]);
                        }
                    }
                    if t[k].1 {
                        assert forall|j: int| 0 <= j < k implies !t[j].0 by {
                            if j > 0 {
                                assert(t[j] == rest[j - 1]);
                            }
                        }
                    }
                }
            }
        }
    }
}

/// The vsync IRQ is taken at the first instruction boundary of the frame
/// where the I flag is clear, and at no other: never while the program
/// holds I set, and never twice (absent an NMI, which has priority).
pub proof fn lemma_irq_at_first_open_boundary(m: Machine, c: Cpu)
    requires
        c.cycles <= u64::MAX - FRAME_HEADROOM,
        !c.nmi_pending,
    ensures
        ({
            let t = m.frame_step_log(c);
            forall|k: int|
                0 <= k < t.len() ==> ((#[trigger] t[k]).1 <==> (t[k].0 && forall|j: int| 0 <= j < k ==> !t[j].0))
        }),
{
    let m0 = Machine { vsync_pending: true, ..m };
    lemma_frame_steps_irq(m0, c, CYCLES_PER_FRAME as int);
}

/// Vsync pulses the IRQ once per frame: however the program runs, the CPU
/// enters the IRQ handler at most once during a frame, since taking it drops
/// the latch and nothing on the bus raises it again.
pub proof fn lemma_one_irq_per_frame(m: Machine, c: Cpu)
    requires
        c.cycles <= u64::MAX - FRAME_HEADROOM,
    ensures
        m.frame_irq_count(c) <= 1,
{
    let m0 = Machine { vsync_pending: true, ..m };
    lemma_frame_irqs_bound(m0, c, CYCLES_PER_FRAME as int);
}

/// The machine has no NMI source: running a frame never raises one.
pub proof fn lemma_no_nmi_source(m: Machine, c: Cpu)
    requires
        c.cycles <= u64::MAX - FRAME_HEADROOM,
    ensures
        m.frame_s(c).1.nmi_pending ==> c.nmi_pending,
{
    let m0 = Machine { vsync_pending: true, ..m };
    lemma_frame_loop_no_nmi(m0, c, CYCLES_PER_FRAME as int);
}

/// Whatever the program does, one frame advances the frame counter by
/// exactly one (wrapping after 65536 frames).
pub proof fn lemma_frame_ticks(m: Machine, c: Cpu)
    ensures
        m.frame_s(c).0.frame_count() == (m.frame_count() + 1) % 65536,
{
    let m0 = Machine { vsync_pending: true, ..m };
    lemma_frame_loop_keeps_frame(m0, c, CYCLES_PER_FRAME as int);
    let (m1, c1) = m0.frame_loop(c, CYCLES_PER_FRAME as int);
    lemma_composed_keep(m1);
}

impl Machine {
    pub fn new(rom: [u8; 0x2000]) -> (m: Machine)
        ensures
            m.is_fresh(),
            m.cartridge() == seq![rom],
            m.wf(),
    {
        let mut banks: Vec<[u8; 0x2000]> = Vec::new();
        banks.push(rom);
        Self::with_banks(banks)
    }

    /// Build a machine from one image per cartridge bank. The first entry
    /// boots; higher banks become visible via $5806.
    pub fn with_banks(banks: Vec<[u8; 0x2000]>) -> (m: Machine)
        ensures
            m.is_fresh(),
            m.cartridge() == banks@,
            banks@.len() >= 1 ==> m.wf(),
    {
        let m = Machine {
            ram_lo: [0; 0x4000],
            fb: [0; 0x1800],
            ram_hi: [0; 0x8000],
            bank_sel: 0,
            banks,
            key_pending: 0,
            frame: 0,
            palette: 0,
            lfsr: 0xACE1,
            beeper_period: 0,
            vsync_pending: false,
            spr_x: [0; 2],
            spr_y: [0; 2],
            spr_ptr: [0; 2],
            spr_ctrl: 0,
            disp: [0; 0x1800],
        };
        assert(m.ram_lo@ =~= Seq::new(0x4000, |i: int| 0u8));
        assert(m.fb@ =~= Seq::new(0x1800, |i: int| 0u8));
        assert(m.ram_hi@ =~= Seq::new(0x8000, |i: int| 0u8));
        assert(m.disp@ =~= Seq::new(0x1800, |i: int| 0u8));
        assert(m.spr_x@ =~= seq![0u8, 0u8]);
        assert(m.spr_y@ =~= seq![0u8, 0u8]);
        assert(m.spr_ptr@ =~= seq![0u16, 0u16]);
        m
    }

    /// Post a keypress into the one-key buffer (newest wins).
    pub fn key(&mut self, code: u8)
        ensures
            *final(self) == old(self).with_key(code),
    {
        self.key_pending = code;
    }

    /// Advance the video frame counter (host calls this 60 times a second).
    pub fn tick_frame(&mut self)
        ensures
            *final(self) == old(self).ticked(),
    {
        self.frame = if self.frame == 0xFFFF {
            0
        } else {
            self.frame + 1
        };
    }

    /// Drive the CPU for one video frame's worth of cycles, then tick.
    ///
    /// Vsync pulses the IRQ line once per frame: latched at frame start,
    /// taken at the first instruction boundary with I clear, and dropped
    /// for the rest of the frame once serviced. A program holding `sei`
    /// loses the pulse: that is the documented contract.
    pub fn run_frame(&mut self, cpu: &mut Cpu)
        requires
            old(cpu).cycles <= u64::MAX - FRAME_HEADROOM,
        ensures
            (*final(self), *final(cpu)) == old(self).frame_s(*old(cpu)),
            final(self).frame_count() == (old(self).frame_count() + 1) % 65536,
            old(cpu).cycles + CYCLES_PER_FRAME <= final(cpu).cycles,
            final(cpu).cycles < old(cpu).cycles + CYCLES_PER_FRAME + MAX_STEP_CYCLES,
            !final(cpu).irq_line,
    {
        proof {
            lemma_frame_ticks(*self, *cpu);
        }
        self.vsync_pending = true;
        let ghost m0 = *self;
        let ghost c0 = *cpu;
        let mut budget: u64 = CYCLES_PER_FRAME as u64;
        while budget > 0
            invariant
                m0.frame_loop(c0, CYCLES_PER_FRAME as int) == self.frame_loop(*cpu, budget as int),
                c0.cycles <= u64::MAX - FRAME_HEADROOM,
                c0.cycles <= cpu.cycles,
                cpu.cycles + budget >= c0.cycles + CYCLES_PER_FRAME,
                budget > 0 ==> cpu.cycles + budget <= c0.cycles + CYCLES_PER_FRAME,
                cpu.cycles < c0.cycles + CYCLES_PER_FRAME + MAX_STEP_CYCLES,
            decreases budget,
        {
            cpu.irq_line = self.vsync_pending && cpu.p & FLAG_I == 0;
            let ghost c1 = *cpu;
            let ghost m1 = *self;
            proof {
                lemma_step_cost(c1, m1);
            }
            let spent = cpu.step(self) as u64;
            if cpu.irq_line {
                self.vsync_pending = false;
            }
            proof {
                let (c2, m2) = c1.step_s(m1);
                assert(c2 == *cpu);
                if budget < spent {
                    assert(self.frame_loop(*cpu, budget - spent) == (*self, *cpu));
                    assert(self.frame_loop(*cpu, 0) == (*self, *cpu));
                }
            }
            budget = if budget > spent {
                budget - spent
            } else {
                0
            };
        }
        cpu.irq_line = false;
        proof {
            lemma_composed_keep(*self);
        }
        self.compose_sprites();
        self.tick_frame();
    }

    /// Run `n` video frames back to back.
    pub fn run_frames(&mut self, cpu: &mut Cpu, n: u32)
        requires
            old(cpu).cycles + n * FRAME_HEADROOM <= u64::MAX,
        ensures
            (*final(self), *final(cpu)) == old(self).frames_s(*old(cpu), n as nat),
            final(self).frame_count() == (old(self).frame_count() + n) % 65536,
            old(cpu).cycles + n * CYCLES_PER_FRAME <= final(cpu).cycles,
    {
        let ghost m0 = *self;
        let ghost c0 = *cpu;
        let mut k: u32 = 0;
        while k < n
            invariant
                k <= n,
                c0.cycles + n * FRAME_HEADROOM <= u64::MAX,
                (*self, *cpu) == m0.frames_s(c0, k as nat),
                self.frame_count() == (m0.frame_count() + k) % 65536,
                c0.cycles + k * CYCLES_PER_FRAME <= cpu.cycles <= c0.cycles + k * FRAME_HEADROOM,
            decreases n - k,
        {
            assert(cpu.cycles <= u64::MAX - FRAME_HEADROOM) by (nonlinear_arith)
                requires
                    cpu.cycles <= c0.cycles + k * FRAME_HEADROOM,
                    c0.cycles + n * FRAME_HEADROOM <= u64::MAX,
                    k < n,
            ;
            self.run_frame(cpu);
            k = k + 1;
        }
    }

    /// XOR-composite the two sprites over a fresh copy of the framebuffer.
    /// The fb stays background-only, so a sprite that holds position across
    /// frames does not blink; software always sees the background plane.
    fn compose_sprites(&mut self)
        ensures
            *final(self) == old(self).composed(),
    {
        self.disp = self.fb;
        self.compose_sprite(0, false);
        self.compose_sprite(1, false);
    }

    /// Rebuild the display with side-effect-free pattern fetches, so the
    /// machine state is left exactly as it was.
    fn redraw(&mut self)
        ensures
            *final(self) == old(self).redrawn(),
    {
        self.disp = self.fb;
        self.compose_sprite(0, true);
        self.compose_sprite(1, true);
    }

    fn compose_sprite(&mut self, s: usize, quiet: bool)
        requires
            s < 2,
        ensures
            *final(self) == old(self).sprite_composed(s as int, quiet),
    {
        let on = if s == 0 {
            self.spr_ctrl % 2 == 1
        } else {
            self.spr_ctrl / 2 % 2 == 1
        };
        if !on {
            return;
        }
        let two = self.palette >= 0x80;
        let mut row: u16 = 0;
        while row < 8
            invariant
                s < 2,
                row <= 8,
                *self == old(self).sprite_rows(s as int, row as int, quiet),
                two == (self.palette >= 128),
            decreases 8 - row,
        {
            let y = self.spr_y[s] as usize + row as usize;
            if y < SCREEN_H {
                let addr = ((self.spr_ptr[s] as u32 + row as u32) % 0x10000) as u16;
                let bits = if quiet {
                    self.load(addr)
                } else {
                    self.read(addr)
                };
                let x0 = self.spr_x[s] as usize;
                self.xor_row(two, x0, y, bits);
            }
            row = row + 1;
        }
    }

    fn xor_row(&mut self, two: bool, x0: usize, y: usize, bits: u8)
        requires
            x0 < 256,
            y < 192,
        ensures
            *final(self) == (Machine {
                disp: xor_row(old(self).disp, two, x0 as int, y as int, bits, 8),
                ..*old(self)
            }),
    {
        let mut bit: u8 = 0;
        while bit < 8
            invariant
                bit <= 8,
                x0 < 256,
                y < 192,
                *self == (Machine {
                    disp: xor_row(old(self).disp, two, x0 as int, y as int, bits, bit as int),
                    ..*old(self)
                }),
            decreases 8 - bit,
        {
            if bits & (0x80u8 >> bit) != 0 {
                let x = x0 + bit as usize;
                if two {
                    if x < 128 {
                        // 2bpp: 4 fat pixels per byte; a hit inverts the
                        // pixel's 2-bit index so it displays brightest.
                        let idx = y * 32 + x / 4;
                        self.disp[idx] = self.disp[idx] ^ (0xC0u8 >> ((2 * (x % 4)) as u8));
                    }
                } else if x < SCREEN_W {
                    let idx = y * 32 + x / 8;
                    self.disp[idx] = self.disp[idx] ^ (0x80u8 >> ((x % 8) as u8));
                }
            }
            bit = bit + 1;
        }
    }

    /// The framebuffer as the host renderer sees it: 6144 bytes, one bit per
    /// pixel, MSB leftmost, 32 bytes per scanline, sprites composited.
    pub fn fb(&self) -> (r: &[u8; 0x1800])
        ensures
            *r == self.display(),
    {
        &self.disp
    }

    pub fn palette(&self) -> (r: u8)
        ensures
            r == self.palette_reg(),
    {
        self.palette
    }

    pub fn beeper_period(&self) -> (r: u8)
        ensures
            r == self.beeper_reg(),
    {
        self.beeper_period
    }

    /// The byte a read of `addr` returns, without the read's side effects.
    fn load(&self, addr: u16) -> (v: u8)
        ensures
            v == self.peek(addr),
    {
        if addr < 0x4000 {
            self.ram_lo[addr as usize]
        } else if addr < 0x5800 {
            self.fb[(addr - FB_BASE) as usize]
        } else if addr == 0x5800 {
            self.key_pending
        } else if addr == 0x5802 {
            (self.frame % 256) as u8
        } else if addr == 0x5803 {
            (self.frame / 256) as u8
        } else if addr == 0x5804 {
            self.palette
        } else if addr == 0x5805 {
            (self.next_lfsr() % 256) as u8
        } else if addr == 0x5806 {
            self.bank_sel as u8
        } else if addr == 0x5807 {
            self.beeper_period
        } else if 0x5808 <= addr && addr < 0x5810 {
            let s = (addr / 4 % 2) as usize;
            if addr % 4 == 0 {
                self.spr_x[s]
            } else if addr % 4 == 1 {
                self.spr_y[s]
            } else if addr % 4 == 2 {
                (self.spr_ptr[s] % 256) as u8
            } else {
                (self.spr_ptr[s] / 256) as u8
            }
        } else if addr == 0x5810 {
            self.spr_ctrl
        } else if 0x6000 <= addr && addr < 0xE000 {
            self.ram_hi[(addr - 0x6000) as usize]
        } else if addr >= 0xE000 {
            if self.bank_sel < self.banks.len() {
                self.banks[self.bank_sel][(addr - 0xE000) as usize]
            } else {
                0
            }
        } else {
            0
        }
    }

    /// 16-bit Galois LFSR, taps 0x002D: every read steps it.
    fn rand(&mut self) -> (v: u8)
        ensures
            *final(self) == (Machine { lfsr: lfsr_next(old(self).lfsr), ..*old(self) }),
            v == (lfsr_next(old(self).lfsr) % 256) as u8,
    {
        let n = self.next_lfsr();
        self.lfsr = n;
        (n % 256) as u8
    }

    /// The LFSR state one step on: shift left, XOR the taps when bit 15
    /// falls out.
    fn next_lfsr(&self) -> (n: u16)
        ensures
            n == lfsr_next(self.lfsr),
    {
        let l = self.lfsr;
        let taps: u16 = if l >= 0x8000 {
            0x002D
        } else {
            0
        };
        (l << 1u16) ^ taps
    }
}

impl Machine {
    // ------------------------------------------------------------------
    // .vst save states
    //
    // Image layout (little-endian throughout):
    //   "V1S" | a x y s p | pc:2 | cycles:8
    //   | ram_lo:16K | fb:6K | ram_hi:32K
    //   | n_banks:2 | banks: n x 8K | bank_sel:1
    //   | spr_x:2 | spr_y:2 | spr_ptr:4 | spr_ctrl:1
    //   | frame:2 | palette:1 | lfsr:2 | beeper:1 | key:1 | vsync:1
    //
    // `disp` is not stored: the sprites are composited again on load, so a
    // restore is pixel-identical before the next run_frame.

    /// Serialize the machine plus its CPU into a `.vst` image. The cartridge
    /// banks are embedded, so the file restores with no companion ROM.
    pub fn save_state(&self, cpu: &Cpu) -> (out: Vec<u8>)
        ensures
            out@ == self.state_image(*cpu),
    {
        let mut out: Vec<u8> = Vec::new();
        push_byte(&mut out, 0x56);
        push_byte(&mut out, 0x31);
        push_byte(&mut out, 0x53);
        assert(out@ =~= vst_magic());
        let ghost p0 = out@;
        push_byte(&mut out, cpu.a);
        push_byte(&mut out, cpu.x);
        push_byte(&mut out, cpu.y);
        push_byte(&mut out, cpu.s);
        push_byte(&mut out, cpu.p);
        assert(out@ =~= p0 + seq![cpu.a, cpu.x, cpu.y, cpu.s, cpu.p]);
        push_word(&mut out, cpu.pc);
        push_u64(&mut out, cpu.cycles);
        push_all(&mut out, &self.ram_lo);
        push_all(&mut out, &self.fb);
        push_all(&mut out, &self.ram_hi);
        push_word(&mut out, self.banks.len() as u16);
        let ghost p1 = out@;
        let mut i: usize = 0;
        while i < self.banks.len()
            invariant
                i <= self.banks.len(),
                out@ == p1 + banks_bytes(self.banks@.subrange(0, i as int)),
            decreases self.banks.len() - i,
        {
            push_all(&mut out, &self.banks[i]);
            assert(self.banks@.subrange(0, i + 1).drop_last() =~= self.banks@.subrange(0, i as int));
            i = i + 1;
        }
        assert(self.banks@.subrange(0, self.banks.len() as int) =~= self.banks@);
        push_byte(&mut out, self.bank_sel as u8);
        push_all(&mut out, &self.spr_x);
        push_all(&mut out, &self.spr_y);
        push_word(&mut out, self.spr_ptr[0]);
        push_word(&mut out, self.spr_ptr[1]);
        push_byte(&mut out, self.spr_ctrl);
        push_word(&mut out, self.frame);
        push_byte(&mut out, self.palette);
        push_word(&mut out, self.lfsr);
        let ghost p2 = out@;
        push_byte(&mut out, self.beeper_period);
        push_byte(&mut out, self.key_pending);
        push_byte(&mut out, if self.vsync_pending { 1 } else { 0 });
        assert(out@ =~= p2 + seq![
            self.beeper_period,
            self.key_pending,
            if self.vsync_pending { 1u8 } else { 0u8 },
        ]);
        out
    }

    /// Overwrite this machine (memory, registers, cartridge banks) and `cpu`
    /// from a `.vst` image. Strict parsing: truncation anywhere, a bad magic,
    /// a bad bank count or trailing bytes are all errors, and a refused image
    /// leaves both untouched.
    pub fn restore_state(&mut self, cpu: &mut Cpu, data: &[u8]) -> (r: Result<(), String>)
        ensures
            image_error(data@) matches Some(msg) ==> {
                &&& r matches Err(e) && e@ == msg
                &&& *final(self) == *old(self)
                &&& *final(cpu) == *old(cpu)
            },
            image_error(data@) is None ==> {
                &&& r is Ok
                &&& *final(cpu) == image_cpu(*old(cpu), data@)
                &&& final(self).wf()
                &&& final(self).loaded_from(data@)
                &&& *final(self) == final(self).redrawn()
            },
    {
        // Fixed-size layout: peek the bank count at offset 55314 and verify
        // the exact image length BEFORE any field is assigned, so a corrupt
        // file can never leave a half-restored machine behind.
        let hdr: usize = VST_HEADER;
        if data.len() < hdr + 2 {
            return Err("truncated .vst".to_owned());
        }
        assert(data@.subrange(0, 3) =~= seq![data@[0], data@[1], data@[2]]);
        if data[0] != 0x56 || data[1] != 0x31 || data[2] != 0x53 {
            return Err("bad magic".to_owned());
        }
        let nbanks = data[hdr] as usize + 256 * data[hdr + 1] as usize;
        if nbanks == 0 || nbanks > 256 {
            let mut e = "bad bank count ".to_owned();
            e.append(decimal_string(nbanks as u64).as_str());
            return Err(e);
        }
        if data.len() != VST_FIXED + 8192 * nbanks {
            let mut e = "bad .vst length for ".to_owned();
            e.append(decimal_string(nbanks as u64).as_str());
            e.append(" bank(s)");
            return Err(e);
        }
        let ghost d = data@;
        let mut r = Reader::new(data);
        let b0 = r.byte()?;
        let b1 = r.byte()?;
        let b2 = r.byte()?;
        if b0 != 0x56 || b1 != 0x31 || b2 != 0x53 {
            return Err("bad magic".to_owned());
        }
        cpu.a = r.byte()?;
        cpu.x = r.byte()?;
        cpu.y = r.byte()?;
        cpu.s = r.byte()?;
        cpu.p = r.byte()?;
        cpu.pc = r.word()?;
        cpu.cycles = r.u64()?;
        r.fill(&mut self.ram_lo)?;
        r.fill(&mut self.fb)?;
        r.fill(&mut self.ram_hi)?;
        let n = r.word()? as usize;
        if n == 0 || n > 256 {
            let mut e = "bad bank count ".to_owned();
            e.append(decimal_string(n as u64).as_str());
            return Err(e);
        }
        let mut banks: Vec<[u8; 0x2000]> = Vec::new();
        let mut i: usize = 0;
        while i < n
            invariant
                i <= n,
                n == nbanks,
                d == data@,
                r.d@ == d,
                d.len() == VST_FIXED + 8192 * n,
                r.pos == VST_HEADER + 2 + 8192 * i,
                banks@.len() == i,
                forall|j: int| 0 <= j < i ==> #[trigger] banks@[j]@ == image_banks(d, n as int)[j],
            decreases n - i,
        {
            let mut bank = [0u8; 0x2000];
            r.fill(&mut bank)?;
            banks.push(bank);
            i = i + 1;
        }
        self.banks = banks;
        let sel = r.byte()? as usize;
        self.bank_sel = if sel < self.banks.len() {
            sel
        } else {
            self.banks.len() - 1
        };
        r.fill(&mut self.spr_x)?;
        r.fill(&mut self.spr_y)?;
        self.spr_ptr[0] = r.word()?;
        self.spr_ptr[1] = r.word()?;
        self.spr_ctrl = r.byte()?;
        self.frame = r.word()?;
        self.palette = r.byte()?;
        self.lfsr = r.word()?;
        self.beeper_period = r.byte()?;
        self.key_pending = r.byte()?;
        self.vsync_pending = r.byte()? != 0;
        if r.pos != data.len() {
            return Err("trailing bytes".to_owned());
        }
        let ghost pre = *self;
        proof {
            assert(pre.loaded_from(d));
            lemma_redrawn_keep(pre);
        }
        self.redraw();
        proof {
            lemma_redrawn_keep(*self);
        }
        Ok(())
    }
}

/// Append one byte.
fn push_byte(out: &mut Vec<u8>, b: u8)
    ensures
        final(out)@ == old(out)@ + seq![b],
{
    out.push(b);
    assert(out@ =~= old(out)@ + seq![b]);
}

/// Append a word, little-endian.
fn push_word(out: &mut Vec<u8>, v: u16)
    ensures
        final(out)@ == old(out)@ + le16(v),
{
    out.push((v % 256) as u8);
    out.push((v / 256) as u8);
    assert(out@ =~= old(out)@ + le16(v));
}

/// Append a 64-bit word, little-endian.
fn push_u64(out: &mut Vec<u8>, v: u64)
    ensures
        final(out)@ == old(out)@ + le64(v),
{
    out.push((v % 0x100) as u8);
    out.push((v / 0x100 % 0x100) as u8);
    out.push((v / 0x1_0000 % 0x100) as u8);
    out.push((v / 0x100_0000 % 0x100) as u8);
    out.push((v / 0x1_0000_0000 % 0x100) as u8);
    out.push((v / 0x100_0000_0000 % 0x100) as u8);
    out.push((v / 0x1_0000_0000_0000 % 0x100) as u8);
    out.push((v / 0x100_0000_0000_0000) as u8);
    assert(out@ =~= old(out)@ + le64(v));
}

/// Append every byte of `bytes`.
fn push_all(out: &mut Vec<u8>, bytes: &[u8])
    ensures
        final(out)@ == old(out)@ + bytes@,
{
    let mut i: usize = 0;
    while i < bytes.len()
        invariant
            i <= bytes.len(),
            out@ == old(out)@ + bytes@.subrange(0, i as int),
        decreases bytes.len() - i,
    {
        out.push(bytes[i]);
        assert(bytes@.subrange(0, i + 1) =~= bytes@.subrange(0, i as int).push(bytes@[i as int]));
        i = i + 1;
    }
    assert(bytes@.subrange(0, bytes.len() as int) =~= bytes@);
}

/// Bounds-checked cursor over a `.vst` image. Every accessor validates the
/// length, so truncation at any point surfaces as one error.
struct Reader<'a> {
    d: &'a [u8],
    pos: usize,
}

impl<'a> Reader<'a> {
    fn new(d: &'a [u8]) -> (r: Reader<'a>)
        ensures
            r.d@ == d@,
            r.pos == 0,
    {
        Reader { d, pos: 0 }
    }

    fn take(&mut self, n: usize) -> (r: Result<&'a [u8], String>)
        requires
            old(self).pos <= old(self).d@.len(),
        ensures
            final(self).d@ == old(self).d@,
            final(self).pos <= final(self).d@.len(),
            old(self).pos + n <= old(self).d@.len() ==> {
                &&& r matches Ok(s) && s@ == old(self).d@.subrange(
                    old(self).pos as int,
                    old(self).pos + n,
                )
                &&& final(self).pos == old(self).pos + n
            },
            old(self).pos + n > old(self).d@.len() ==> r is Err,
    {
        if n > self.d.len() - self.pos {
            return Err("truncated .vst".to_owned());
        }
        let s = slice_range(self.d, self.pos, self.pos + n);
        self.pos = self.pos + n;
        Ok(s)
    }

    fn byte(&mut self) -> (r: Result<u8, String>)
        requires
            old(self).pos <= old(self).d@.len(),
        ensures
            final(self).d@ == old(self).d@,
            final(self).pos <= final(self).d@.len(),
            old(self).pos + 1 <= old(self).d@.len() ==> {
                &&& r == Ok::<u8, String>(old(self).d@[old(self).pos as int])
                &&& final(self).pos == old(self).pos + 1
            },
    {
        let s = self.take(1)?;
        Ok(s[0])
    }

    fn word(&mut self) -> (r: Result<u16, String>)
        requires
            old(self).pos <= old(self).d@.len(),
        ensures
            final(self).d@ == old(self).d@,
            final(self).pos <= final(self).d@.len(),
            old(self).pos + 2 <= old(self).d@.len() ==> {
                &&& r == Ok::<u16, String>(get16(old(self).d@, old(self).pos as int))
                &&& final(self).pos == old(self).pos + 2
            },
    {
        let s = self.take(2)?;
        Ok(s[0] as u16 + 256 * s[1] as u16)
    }

    fn u64(&mut self) -> (r: Result<u64, String>)
        requires
            old(self).pos <= old(self).d@.len(),
        ensures
            final(self).d@ == old(self).d@,
            final(self).pos <= final(self).d@.len(),
            old(self).pos + 8 <= old(self).d@.len() ==> {
                &&& r == Ok::<u64, String>(get64(old(self).d@, old(self).pos as int))
                &&& final(self).pos == old(self).pos + 8
            },
    {
        let s = self.take(8)?;
        Ok(s[0] as u64 + 0x100 * s[1] as u64 + 0x1_0000 * s[2] as u64 + 0x100_0000 * s[3] as u64
            + 0x1_0000_0000 * s[4] as u64 + 0x100_0000_0000 * s[5] as u64 + 0x1_0000_0000_0000
            * s[6] as u64 + 0x100_0000_0000_0000 * s[7] as u64)
    }

    /// Fill all of `a` from the cursor.
    fn fill<const N: usize>(&mut self, a: &mut [u8; N]) -> (r: Result<(), String>)
        requires
            old(self).pos <= old(self).d@.len(),
        ensures
            final(self).d@ == old(self).d@,
            final(self).pos <= final(self).d@.len(),
            old(self).pos + N <= old(self).d@.len() ==> {
                &&& r is Ok
                &&& final(a)@ == old(self).d@.subrange(old(self).pos as int, old(self).pos + N)
                &&& final(self).pos == old(self).pos + N
            },
            r is Err ==> *final(a) == *old(a),
    {
        let s = self.take(N)?;
        let mut i: usize = 0;
        while i < N
            invariant
                i <= N,
                s@.len() == N,
                forall|j: int| 0 <= j < i ==> a@[j] == s@[j],
            decreases N - i,
        {
            a[i] = s[i];
            i = i + 1;
        }
        assert(a@ =~= s@);
        Ok(())
    }
}

/// The subslice `d[from..to]`.
fn slice_range(d: &[u8], from: usize, to: usize) -> (r: &[u8])
    requires
        from <= to <= d@.len(),
    ensures
        r@ == d@.subrange(from as int, to as int),
{
    &d[from..to]
}

} // verus!
