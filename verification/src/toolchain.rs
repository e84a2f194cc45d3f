//! The toolchain around the assembler and the machine: `.vin` segment
//! containers, cartridge images, PPM screenshots, hexadecimal arguments and
//! disassembly listings. Everything here computes bytes and text; reading
//! and writing files is left to the caller.

use vstd::prelude::*;

use crate::assembler::passes::{assembly, banks_of, segs_view};
use crate::assembler::assemble;
use crate::cpu::Cpu;
use vstd::utf8::{decode_utf8, valid_utf8};
use crate::assembler::{
    chars_of, digit_of, digit_value, digits_val, lemma_digits_val_nonneg, skip_ws, skip_ws_at, trim_back, trim_back_at, Binary,
    Error,
};
use crate::cpu::Bus;
use crate::dis::{disasm_one, disassembly};
use crate::machine::Machine;
use crate::text::{decimal, decimal_string, hex2, hex4, push_char, push_hex2, push_hex4};

verus! {

// ------------------------------------------------------------ containers

/// The low 16 bits of `n`, little-endian.
pub open spec fn le16_of(n: int) -> Seq<u8> {
    seq![(n % 256) as u8, ((n / 256) % 256) as u8]
}

/// A segment list: per segment its address, its length and its bytes.
pub open spec fn segment_list(segs: Seq<(u16, Seq<u8>)>) -> Seq<u8>
    decreases segs.len(),
{
    if segs.len() == 0 {
        seq![]
    } else {
        segment_list(segs.drop_last()) + le16_of(segs.last().0 as int) + le16_of(
            segs.last().1.len() as int,
        ) + segs.last().1
    }
}

/// Each bank as its segment count and its segment list.
pub open spec fn bank_lists(banks: Seq<Seq<(u16, Seq<u8>)>>) -> Seq<u8>
    decreases banks.len(),
{
    if banks.len() == 0 {
        seq![]
    } else {
        bank_lists(banks.drop_last()) + le16_of(banks.last().len() as int) + segment_list(
            banks.last(),
        )
    }
}

/// The container of a program's banks. One bank: magic `V1`, the segment
/// count, the segment list. Several: magic `V1B`, the bank count, then each
/// bank's count and list, bank 0 first. All little-endian.
pub open spec fn container(banks: Seq<Seq<(u16, Seq<u8>)>>) -> Seq<u8> {
    if banks.len() == 1 {
        seq![0x56u8, 0x31u8] + le16_of(banks[0].len() as int) + segment_list(banks[0])
    } else {
        seq![0x56u8, 0x31u8, 0x42u8] + le16_of(banks.len() as int) + bank_lists(banks)
    }
}

fn push_le16(out: &mut Vec<u8>, n: usize)
    ensures
        final(out)@ == old(out)@ + le16_of(n as int),
{
    out.push((n % 256) as u8);
    out.push(((n / 256) % 256) as u8);
}

/// Push the 16-bit little-endian form of `n + 1`.
fn push_count(out: &mut Vec<u8>, n: usize)
    ensures
        final(out)@ == old(out)@ + le16_of(n + 1),
{
    let m = (n % 0x1_0000 + 1) % 0x1_0000;
    assert(m % 256 == (n + 1) % 256 && (m / 256) % 256 == ((n + 1) / 256) % 256) by (nonlinear_arith)
        requires
            m == (n % 0x1_0000 + 1) % 0x1_0000,
            n >= 0,
    ;
    push_le16(out, m);
}

fn push_segments(out: &mut Vec<u8>, segs: &Vec<(u16, Vec<u8>)>)
    ensures
        final(out)@ == old(out)@ + segment_list(segs_view(segs@)),
{
    let ghost start = out@;
    let ghost sv = segs_view(segs@);
    let mut k: usize = 0;
    assert(sv.take(0) =~= seq![]);
    assert(out@ =~= start + segment_list(sv.take(0)));
    while k < segs.len()
        invariant
            sv == segs_view(segs@),
            k <= segs@.len(),
            out@ == start + segment_list(sv.take(k as int)),
        decreases segs.len() - k,
    {
        let seg = &segs[k];
        push_le16(out, seg.0 as usize);
        push_le16(out, seg.1.len());
        let mut i: usize = 0;
        let ghost mid = out@;
        while i < seg.1.len()
            invariant
                i <= seg.1@.len(),
                out@ == mid + seg.1@.take(i as int),
            decreases seg.1.len() - i,
        {
            out.push(seg.1[i]);
            i = i + 1;
            assert(out@ =~= mid + seg.1@.take(i as int));
        }
        proof {
            let t = sv.take(k + 1);
            assert(t.drop_last() =~= sv.take(k as int));
            assert(t.last() == (seg.0, seg.1@));
            assert(seg.1@.take(i as int) =~= seg.1@);
            assert(out@ =~= start + segment_list(t));
        }
        k = k + 1;
    }
    assert(sv.take(k as int) =~= sv);
}

impl Binary {
    /// The `.vin` container of the program (`V1`, or `V1B` when it has
    /// cartridge banks beyond bank 0).
    pub fn to_container(&self) -> (out: Vec<u8>)
        ensures
            out@ == container(banks_of(*self)),
    {
        let ghost banks = banks_of(*self);
        let mut out: Vec<u8> = Vec::new();
        if self.extra_banks.len() == 0 {
            out.push(0x56);
            out.push(0x31);
            push_le16(&mut out, self.segments.len());
            push_segments(&mut out, &self.segments);
            proof {
                assert(banks.len() == 1);
                assert(banks[0] == segs_view(self.segments@));
            }
        } else {
            out.push(0x56);
            out.push(0x31);
            out.push(0x42);
            push_count(&mut out, self.extra_banks.len());
            let ghost head = out@;
            push_le16(&mut out, self.segments.len());
            push_segments(&mut out, &self.segments);
            proof {
                assert(banks.take(1) =~= seq![segs_view(self.segments@)]);
                assert(banks.take(1).drop_last() =~= seq![]);
                assert(banks.take(1).last() == segs_view(self.segments@));
                assert(segs_view(self.segments@).len() == self.segments@.len());
                assert(bank_lists(banks.take(1).drop_last()) == Seq::<u8>::empty());
                assert(out@ =~= head + bank_lists(banks.take(1)));
            }
            let mut k: usize = 0;
            while k < self.extra_banks.len()
                invariant
                    banks == banks_of(*self),
                    k <= self.extra_banks@.len(),
                    banks.len() == self.extra_banks@.len() + 1,
                    out@ == head + bank_lists(banks.take(k + 1)),
                decreases self.extra_banks.len() - k,
            {
                let bank = &self.extra_banks[k];
                push_le16(&mut out, bank.len());
                push_segments(&mut out, bank);
                proof {
                    let t = banks.take(k + 2);
                    assert(t.drop_last() =~= banks.take(k + 1));
                    assert(t.last() == segs_view(bank@));
                }
                k = k + 1;
            }
            assert(banks.take(k + 1) =~= banks);
        }
        out
    }
}

impl Error {
    /// The error as the tools report it: `line N: message`.
    pub fn describe(&self) -> (s: String)
        ensures
            s@ == "line "@ + decimal(self.line as nat) + ": "@ + self.msg@,
    {
        let mut s = "line ".to_owned();
        let n = decimal_string(self.line as u64);
        s.append(n.as_str());
        s.append(": ");
        s.append(self.msg.as_str());
        s
    }
}

// ------------------------------------------------------------ cartridges

/// The message for a segment that does not lie in the ROM window.
pub open spec fn window_error(addr: u16) -> Seq<char> {
    "segment $"@ + hex4(addr) + " is outside the $E000-$FFFF window"@
}

/// Whether `len` bytes at `addr` lie within `$E000..=$FFFF`.
pub open spec fn in_window(addr: u16, len: int) -> bool {
    0xE000 <= addr && addr + len <= 0x1_0000
}

/// A ROM image with `bytes` written from `addr` (a window address) on.
pub open spec fn stamp(img: Seq<u8>, addr: u16, bytes: Seq<u8>) -> Seq<u8> {
    let off = addr - 0xE000;
    img.subrange(0, off) + bytes + img.subrange(off + bytes.len(), img.len() as int)
}

/// An 8K image of zeros.
pub open spec fn blank_rom() -> Seq<u8> {
    Seq::new(0x2000, |i: int| 0u8)
}

/// `img` with every segment written into it in order, or the message for
/// the first segment outside the window.
pub open spec fn rom_of(img: Seq<u8>, segs: Seq<(u16, Seq<u8>)>) -> Result<Seq<u8>, Seq<char>>
    decreases segs.len(),
{
    if segs.len() == 0 {
        Ok(img)
    } else {
        match rom_of(img, segs.drop_last()) {
            Err(e) => Err(e),
            Ok(i2) => if in_window(segs.last().0, segs.last().1.len() as int) {
                Ok(stamp(i2, segs.last().0, segs.last().1))
            } else {
                Err(window_error(segs.last().0))
            },
        }
    }
}

/// Write one segment into an 8K ROM image mapped at `$E000`.
pub fn copy_bank_segment(img: &mut [u8; 0x2000], addr: u16, bytes: &[u8]) -> (r: Result<(), String>)
    ensures
        match r {
            Ok(()) => in_window(addr, bytes@.len() as int) && final(img)@ == stamp(old(img)@, addr, bytes@),
            Err(m) => !in_window(addr, bytes@.len() as int) && m@ == window_error(addr) && final(img)@
                == old(img)@,
        },
{
    if addr < 0xE000 || bytes.len() > 0x1_0000 - addr as usize {
        let mut m = "segment $".to_owned();
        push_hex4(&mut m, addr);
        m.append(" is outside the $E000-$FFFF window");
        return Err(m);
    }
    let off = (addr - 0xE000) as usize;
    let ghost before = img@;
    let mut i: usize = 0;
    while i < bytes.len()
        invariant
            off == addr - 0xE000,
            off + bytes@.len() <= 0x2000,
            i <= bytes@.len(),
            before.len() == 0x2000,
            forall|j: int|
                0 <= j < 0x2000 ==> #[trigger] img@[j] == (if off <= j < off + i {
                    bytes@[j - off]
                } else {
                    before[j]
                }),
        decreases bytes.len() - i,
    {
        img[off + i] = bytes[i];
        i = i + 1;
    }
    assert(img@ =~= stamp(before, addr, bytes@));
    Ok(())
}

proof fn lemma_rom_error_stays(img: Seq<u8>, segs: Seq<(u16, Seq<u8>)>, n: int)
    requires
        0 <= n <= segs.len(),
        rom_of(img, segs.take(n)) is Err,
    ensures
        rom_of(img, segs) == rom_of(img, segs.take(n)),
    decreases segs.len() - n,
{
    if n < segs.len() {
        assert(segs.take(n + 1).drop_last() =~= segs.take(n));
        lemma_rom_error_stays(img, segs, n + 1);
    } else {
        assert(segs.take(n) =~= segs);
    }
}

/// Map one bank's `$E000`-`$FFFF` segments into a full 8K image.
pub fn rom_image(segments: &[(u16, Vec<u8>)]) -> (r: Result<[u8; 0x2000], String>)
    ensures
        match rom_of(blank_rom(), segs_view(segments@)) {
            Ok(img) => r matches Ok(a) && a@ == img,
            Err(m) => r matches Err(e) && e@ == m,
        },
{
    let ghost sv = segs_view(segments@);
    let mut img = [0u8; 0x2000];
    assert(img@ =~= blank_rom());
    assert(sv.take(0) =~= seq![]);
    let mut k: usize = 0;
    while k < segments.len()
        invariant
            sv == segs_view(segments@),
            k <= segments@.len(),
            rom_of(blank_rom(), sv.take(k as int)) == Ok::<Seq<u8>, Seq<char>>(img@),
        decreases segments.len() - k,
    {
        let seg = &segments[k];
        let t = copy_bank_segment(&mut img, seg.0, seg.1.as_slice());
        proof {
            let tk = sv.take(k + 1);
            assert(tk.drop_last() =~= sv.take(k as int));
            assert(tk.last() == (seg.0, seg.1@));
        }
        if let Err(m) = t {
            proof {
                lemma_rom_error_stays(blank_rom(), sv, k + 1);
            }
            return Err(m);
        }
        k = k + 1;
    }
    assert(sv.take(k as int) =~= sv);
    Ok(img)
}

/// The part of a segment list that lies at or above `$E000` (the ROM
/// window), in order.
pub open spec fn rom_part(segs: Seq<(u16, Seq<u8>)>) -> Seq<(u16, Seq<u8>)>
    decreases segs.len(),
{
    if segs.len() == 0 {
        seq![]
    } else if segs.last().0 >= 0xE000 {
        rom_part(segs.drop_last()).push(segs.last())
    } else {
        rom_part(segs.drop_last())
    }
}

/// The part of a segment list below `$E000` (RAM and I/O), in order.
pub open spec fn ram_part(segs: Seq<(u16, Seq<u8>)>) -> Seq<(u16, Seq<u8>)>
    decreases segs.len(),
{
    if segs.len() == 0 {
        seq![]
    } else if segs.last().0 < 0xE000 {
        ram_part(segs.drop_last()).push(segs.last())
    } else {
        ram_part(segs.drop_last())
    }
}

/// The cartridge images of banks `banks[k..]`, or the first error.
pub open spec fn images_of(banks: Seq<Seq<(u16, Seq<u8>)>>, k: int) -> Result<Seq<Seq<u8>>, Seq<char>>
    decreases banks.len() - k,
{
    if k < 0 || k >= banks.len() {
        Ok(seq![])
    } else {
        match rom_of(blank_rom(), banks[k]) {
            Err(e) => Err(e),
            Ok(img) => match images_of(banks, k + 1) {
                Err(e) => Err(e),
                Ok(rest) => Ok(seq![img] + rest),
            },
        }
    }
}

/// How a program is loaded to run: one 8K image per cartridge bank, bank 0
/// built from the program's segments in the ROM window, and the segments
/// below the window, which go into RAM through the bus.
pub open spec fn cartridge_of(banks: Seq<Seq<(u16, Seq<u8>)>>) -> Result<(Seq<Seq<u8>>, Seq<(u16, Seq<u8>)>), Seq<char>> {
    match images_of(seq![rom_part(banks[0])] + banks.drop_first(), 0) {
        Err(e) => Err(e),
        Ok(imgs) => Ok((imgs, ram_part(banks[0]))),
    }
}

/// Split a program into its cartridge images and its RAM segments.
pub fn cartridge(bin: &Binary) -> (r: Result<(Vec<[u8; 0x2000]>, Vec<(u16, Vec<u8>)>), String>)
    ensures
        match cartridge_of(banks_of(*bin)) {
            Ok((imgs, ram)) => r matches Ok((v, pokes)) && v@.len() == imgs.len() && (forall|k: int|
                0 <= k < imgs.len() ==> (#[trigger] v@[k])@ == imgs[k]) && segs_view(pokes@) == ram,
            Err(m) => r matches Err(e) && e@ == m,
        },
{
    let ghost banks = banks_of(*bin);
    let ghost sv = segs_view(bin.segments@);
    assert(banks[0] == sv);
    let mut rom_segs: Vec<(u16, Vec<u8>)> = Vec::new();
    let mut pokes: Vec<(u16, Vec<u8>)> = Vec::new();
    let mut k: usize = 0;
    assert(sv.take(0) =~= seq![]);
    assert(segs_view(rom_segs@) =~= seq![]);
    assert(segs_view(pokes@) =~= seq![]);
    while k < bin.segments.len()
        invariant
            sv == segs_view(bin.segments@),
            k <= bin.segments@.len(),
            segs_view(rom_segs@) == rom_part(sv.take(k as int)),
            segs_view(pokes@) == ram_part(sv.take(k as int)),
        decreases bin.segments.len() - k,
    {
        let seg = &bin.segments[k];
        let copy = (seg.0, seg.1.clone());
        proof {
            let tk = sv.take(k + 1);
            assert(tk.drop_last() =~= sv.take(k as int));
            assert(tk.last() == (seg.0, seg.1@));
        }
        if seg.0 >= 0xE000 {
            let ghost before = segs_view(rom_segs@);
            rom_segs.push(copy);
            assert(segs_view(rom_segs@) =~= before.push((seg.0, seg.1@)));
        } else {
            let ghost before = segs_view(pokes@);
            pokes.push(copy);
            assert(segs_view(pokes@) =~= before.push((seg.0, seg.1@)));
        }
        k = k + 1;
    }
    assert(sv.take(k as int) =~= sv);
    let ghost all = seq![rom_part(sv)] + banks.drop_first();
    let mut imgs: Vec<[u8; 0x2000]> = Vec::new();
    let first = rom_image(rom_segs.as_slice());
    match first {
        Err(m) => {
            assert(all[0] == segs_view(rom_segs@));
            return Err(m);
        },
        Ok(img) => {
            imgs.push(img);
            assert(all[0] == segs_view(rom_segs@));
            assert(Seq::new(1, |i: int| imgs@[i]@) =~= seq![img@]);
        },
    }
    let mut j: usize = 0;
    while j < bin.extra_banks.len()
        invariant
            banks == banks_of(*bin),
            all == seq![rom_part(segs_view(bin.segments@))] + banks.drop_first(),
            banks.len() == bin.extra_banks@.len() + 1,
            j <= bin.extra_banks@.len(),
            imgs@.len() == j + 1,
            images_of(all, 0) == match images_of(all, j + 1) {
                Ok(rest) => Ok(Seq::new((j + 1) as nat, |i: int| imgs@[i]@) + rest),
                Err(e) => Err::<Seq<Seq<u8>>, Seq<char>>(e),
            },
        decreases bin.extra_banks.len() - j,
    {
        assert(all[j + 1] == segs_view(bin.extra_banks@[j as int]@));
        let r = rom_image(bin.extra_banks[j].as_slice());
        match r {
            Err(m) => {
                return Err(m);
            },
            Ok(img) => {
                let ghost prev = imgs@;
                imgs.push(img);
                proof {
                    match images_of(all, j + 2) {
                        Ok(rest) => {
                            assert(Seq::new((j + 1) as nat, |i: int| prev[i]@) + (seq![img@] + rest)
                                =~= Seq::new((j + 2) as nat, |i: int| imgs@[i]@) + rest);
                        },
                        Err(e) => {},
                    }
                }
            },
        }
        j = j + 1;
    }
    proof {
        assert(images_of(all, j + 1) == Ok::<Seq<Seq<u8>>, Seq<char>>(seq![]));
        let got = Seq::new((j + 1) as nat, |i: int| imgs@[i]@);
        assert(got + seq![] =~= got);
    }
    Ok((imgs, pokes))
}

/// The machine after writing `bytes` from `addr` on through the bus.
pub open spec fn poked(m: Machine, addr: u16, bytes: Seq<u8>) -> Machine
    decreases bytes.len(),
{
    if bytes.len() == 0 {
        m
    } else {
        poked(m, addr, bytes.drop_last()).after_write((addr + bytes.len() - 1) as u16, bytes.last())
    }
}

/// Write a segment into the machine through the bus.
pub fn poke(m: &mut Machine, addr: u16, bytes: &[u8])
    requires
        addr + bytes@.len() <= 0x1_0000,
    ensures
        *final(m) == poked(*old(m), addr, bytes@),
{
    let ghost m0 = *m;
    let mut i: usize = 0;
    assert(bytes@.take(0) =~= seq![]);
    while i < bytes.len()
        invariant
            addr + bytes@.len() <= 0x1_0000,
            i <= bytes@.len(),
            *m == poked(m0, addr, bytes@.take(i as int)),
        decreases bytes.len() - i,
    {
        m.write(addr + i as u16, bytes[i]);
        proof {
            let t = bytes@.take(i + 1);
            assert(t.drop_last() =~= bytes@.take(i as int));
            assert(t.last() == bytes@[i as int]);
        }
        i = i + 1;
    }
    assert(bytes@.take(i as int) =~= bytes@);
}

/// The machine after poking each segment in turn.
pub open spec fn poked_all(m: Machine, segs: Seq<(u16, Seq<u8>)>) -> Machine
    decreases segs.len(),
{
    if segs.len() == 0 {
        m
    } else {
        poked(poked_all(m, segs.drop_last()), segs.last().0, segs.last().1)
    }
}

/// Write each segment into the machine through the bus, first to last.
pub fn poke_all(m: &mut Machine, segs: &Vec<(u16, Vec<u8>)>)
    requires
        forall|k: int| 0 <= k < segs@.len() ==> (#[trigger] segs@[k]).0 + segs@[k].1@.len() <= 0x1_0000,
    ensures
        *final(m) == poked_all(*old(m), segs_view(segs@)),
{
    let ghost m0 = *m;
    let ghost sv = segs_view(segs@);
    let mut k: usize = 0;
    assert(sv.take(0) =~= seq![]);
    while k < segs.len()
        invariant
            k <= segs@.len(),
            sv == segs_view(segs@),
            forall|j: int| 0 <= j < segs@.len() ==> (#[trigger] segs@[j]).0 + segs@[j].1@.len() <= 0x1_0000,
            *m == poked_all(m0, sv.take(k as int)),
        decreases segs.len() - k,
    {
        let seg = &segs[k];
        poke(m, seg.0, seg.1.as_slice());
        proof {
            let t = sv.take(k + 1);
            assert(t.drop_last() =~= sv.take(k as int));
            assert(t.last() == sv[k as int]);
        }
        k = k + 1;
    }
    assert(sv.take(k as int) =~= sv);
}

// ------------------------------------------------------------ screenshots

/// The lit colour of phosphor `p` (the register modulo 3: green, amber, white).
pub open spec fn on_colour(p: u8) -> (u8, u8, u8) {
    if p % 3 == 0 {
        (51, 255, 51)
    } else if p % 3 == 1 {
        (255, 176, 0)
    } else {
        (230, 230, 230)
    }
}

/// The dark colour of phosphor `p`.
pub open spec fn off_colour(p: u8) -> (u8, u8, u8) {
    if p % 3 == 0 {
        (6, 12, 6)
    } else if p % 3 == 1 {
        (16, 12, 0)
    } else {
        (10, 10, 10)
    }
}

/// The largest channel value of phosphor `p`.
pub open spec fn max_value(p: u8) -> u8 {
    if p % 3 == 2 {
        230
    } else {
        255
    }
}

/// Phosphor palettes: (on-colour, off-colour) RGB triples and the PPM
/// maximum value.
pub fn palette(p: u8) -> (r: ([(u8, u8, u8); 2], u8))
    ensures
        r.0@[0] == on_colour(p),
        r.0@[1] == off_colour(p),
        r.1 == max_value(p),
{
    let scheme = p % 3;
    if scheme == 0 {
        ([(51, 255, 51), (6, 12, 6)], 255)
    } else if scheme == 1 {
        ([(255, 176, 0), (16, 12, 0)], 255)
    } else {
        ([(230, 230, 230), (10, 10, 10)], 230)
    }
}

/// The ASCII bytes of a text made of ASCII characters.
pub open spec fn ascii(s: Seq<char>) -> Seq<u8> {
    s.map_values(|c: char| c as u8)
}

/// The PPM header: `P6`, the size 256 by 192, the maximum value.
pub open spec fn ppm_header(p: u8) -> Seq<u8> {
    seq![0x50u8, 0x36, 0x0A, 0x32, 0x35, 0x36, 0x20, 0x31, 0x39, 0x32, 0x0A] + ascii(
        decimal(max_value(p) as nat),
    ) + seq![0x0Au8]
}

/// The RGB bytes of pixel `k` (0 leftmost) of a framebuffer byte.
pub open spec fn dot(b: u8, k: int, p: u8) -> Seq<u8> {
    let c = if (b >> ((7 - k) as u8)) & 1 == 1 {
        on_colour(p)
    } else {
        off_colour(p)
    };
    seq![c.0, c.1, c.2]
}

/// The RGB bytes of the first `n` pixels of a framebuffer byte.
pub open spec fn dots(b: u8, n: int, p: u8) -> Seq<u8>
    decreases n,
{
    if n <= 0 {
        seq![]
    } else {
        dots(b, n - 1, p) + dot(b, n - 1, p)
    }
}

/// The RGB bytes of a one-bit-per-pixel framebuffer, MSB leftmost.
pub open spec fn ppm_pixels(fb: Seq<u8>, p: u8) -> Seq<u8>
    decreases fb.len(),
{
    if fb.len() == 0 {
        seq![]
    } else {
        ppm_pixels(fb.drop_last(), p) + dots(fb.last(), 8, p)
    }
}

proof fn lemma_dots(b: u8, n: int, p: u8, k: int)
    requires
        0 <= k < n <= 8,
    ensures
        dots(b, n, p).len() == 3 * n,
        dots(b, n, p).subrange(3 * k, 3 * k + 3) == dot(b, k, p),
    decreases n,
{
    if n - 1 > k {
        lemma_dots(b, n - 1, p, k);
        assert(dots(b, n, p).subrange(3 * k, 3 * k + 3) =~= dots(b, n - 1, p).subrange(3 * k, 3 * k + 3));
    } else {
        if k > 0 {
            lemma_dots(b, n - 1, p, 0);
        }
        assert(dots(b, n, p).subrange(3 * k, 3 * k + 3) =~= dot(b, k, p));
    }
}

proof fn lemma_ppm_len(fb: Seq<u8>, p: u8)
    ensures
        ppm_pixels(fb, p).len() == 24 * fb.len(),
    decreases fb.len(),
{
    if fb.len() > 0 {
        lemma_ppm_len(fb.drop_last(), p);
        lemma_dots(fb.last(), 8, p, 0);
    }
}

#[verifier::spinoff_prover]
proof fn lemma_ppm_pixels(fb: Seq<u8>, p: u8, i: int, k: int)
    requires
        0 <= i < fb.len(),
        0 <= k < 8,
    ensures
        ppm_pixels(fb, p).subrange(24 * i + 3 * k, 24 * i + 3 * k + 3) == dot(fb[i], k, p),
    decreases fb.len(),
{
    let pre = ppm_pixels(fb.drop_last(), p);
    let last = dots(fb.last(), 8, p);
    lemma_ppm_len(fb.drop_last(), p);
    lemma_dots(fb.last(), 8, p, k);
    let lo = 24 * i + 3 * k;
    assert(ppm_pixels(fb, p) == pre + last);
    if i < fb.len() - 1 {
        lemma_ppm_pixels(fb.drop_last(), p, i, k);
        assert(fb.drop_last()[i] == fb[i]);
        assert(lo + 3 <= pre.len());
        let sub = (pre + last).subrange(lo, lo + 3);
        let target = pre.subrange(lo, lo + 3);
        assert forall|j: int| 0 <= j < 3 implies #[trigger] sub[j] == target[j] by {
            assert((pre + last)[lo + j] == pre[lo + j]);
        }
        assert((pre + last).subrange(lo, lo + 3) =~= pre.subrange(lo, lo + 3));
    } else {
        assert(fb.last() == fb[i]);
        assert(lo == pre.len() + 3 * k);
        let sub = (pre + last).subrange(lo, lo + 3);
        let target = last.subrange(3 * k, 3 * k + 3);
        assert forall|j: int| 0 <= j < 3 implies #[trigger] sub[j] == target[j] by {
            assert((pre + last)[lo + j] == last[3 * k + j]);
        }
        assert((pre + last).subrange(lo, lo + 3) =~= last.subrange(3 * k, 3 * k + 3));
    }
}

/// A screenshot renders pixel k (0 leftmost) of framebuffer byte i as the
/// three RGB bytes at 24 i + 3 k after the header: lit exactly when bit 7 - k
/// of the byte is set, in the phosphor's colours (green (51, 255, 51) on
/// (6, 12, 6), amber (255, 176, 0) on (16, 12, 0), white (230, 230, 230) on
/// (10, 10, 10), by the palette register modulo 3).
pub proof fn lemma_ppm_pixel(fb: Seq<u8>, p: u8, i: int, k: int)
    requires
        0 <= i < fb.len(),
        0 <= k < 8,
    ensures
        ppm_pixels(fb, p).len() == 24 * fb.len(),
        ({
            let lit = fb[i] & (0x80u8 >> k as u8) != 0;
            let rgb = ppm_pixels(fb, p).subrange(24 * i + 3 * k, 24 * i + 3 * k + 3);
            &&& p % 3 == 0 ==> rgb == (if lit { seq![51u8, 255u8, 51u8] } else { seq![6u8, 12u8, 6u8] })
            &&& p % 3 == 1 ==> rgb == (if lit { seq![255u8, 176u8, 0u8] } else { seq![16u8, 12u8, 0u8] })
            &&& p % 3 == 2 ==> rgb == (if lit { seq![230u8, 230u8, 230u8] } else { seq![10u8, 10u8, 10u8] })
        }),
{
    lemma_ppm_len(fb, p);
    lemma_ppm_pixels(fb, p, i, k);
    let b = fb[i];
    let kk = k as u8;
    assert(((b >> ((7 - kk) as u8)) & 1 == 1) == (b & (0x80u8 >> kk) != 0)) by (bit_vector)
        requires
            kk < 8,
    ;
}

fn push_decimal(out: &mut Vec<u8>, n: u8)
    ensures
        final(out)@ == old(out)@ + ascii(decimal(n as nat)),
{
    proof {
        reveal_with_fuel(decimal, 3);
    }
    let ghost before = out@;
    if n >= 100 {
        out.push(48 + n / 100);
        out.push(48 + n / 10 % 10);
        out.push(48 + n % 10);
        assert(decimal(n as nat) == seq![(48 + n / 100) as char, (48 + n / 10 % 10) as char, (48 + n % 10) as char]);
    } else if n >= 10 {
        out.push(48 + n / 10);
        out.push(48 + n % 10);
        assert(decimal(n as nat) == seq![(48 + n / 10) as char, (48 + n % 10) as char]);
    } else {
        out.push(48 + n);
        assert(decimal(n as nat) == seq![(48 + n) as char]);
    }
    assert(out@ =~= before + ascii(decimal(n as nat)));
}

/// The framebuffer as a binary PPM image in phosphor `p`.
pub fn ppm_bytes(fb: &[u8], p: u8) -> (out: Vec<u8>)
    ensures
        out@ == ppm_header(p) + ppm_pixels(fb@, p),
{
    let (colors, maxval) = palette(p);
    let mut out: Vec<u8> = Vec::new();
    let header: [u8; 11] = [0x50, 0x36, 0x0A, 0x32, 0x35, 0x36, 0x20, 0x31, 0x39, 0x32, 0x0A];
    let mut h: usize = 0;
    while h < 11
        invariant
            h <= 11,
            out@ == header@.take(h as int),
        decreases 11 - h,
    {
        out.push(header[h]);
        h = h + 1;
        assert(out@ =~= header@.take(h as int));
    }
    push_decimal(&mut out, maxval);
    out.push(0x0A);
    assert(header@.take(11) =~= seq![0x50u8, 0x36, 0x0A, 0x32, 0x35, 0x36, 0x20, 0x31, 0x39, 0x32, 0x0A]);
    assert(out@ =~= ppm_header(p));
    let ghost head = out@;
    let mut i: usize = 0;
    assert(fb@.take(0) =~= seq![]);
    while i < fb.len()
        invariant
            i <= fb@.len(),
            colors@[0] == on_colour(p),
            colors@[1] == off_colour(p),
            out@ == head + ppm_pixels(fb@.take(i as int), p),
        decreases fb.len() - i,
    {
        let byte = fb[i];
        let ghost row = out@;
        let mut k: u8 = 0;
        while k < 8
            invariant
                k <= 8,
                colors@[0] == on_colour(p),
                colors@[1] == off_colour(p),
                out@ == row + dots(byte, k as int, p),
            decreases 8 - k,
        {
            let c = if (byte >> (7 - k)) & 1 == 1 {
                colors[0]
            } else {
                colors[1]
            };
            out.push(c.0);
            out.push(c.1);
            out.push(c.2);
            assert(out@ =~= row + dots(byte, k + 1, p));
            k = k + 1;
        }
        proof {
            let t = fb@.take(i + 1);
            assert(t.drop_last() =~= fb@.take(i as int));
            assert(t.last() == byte);
        }
        i = i + 1;
    }
    assert(fb@.take(i as int) =~= fb@);
    out
}

// ------------------------------------------------------------ hex arguments

/// The position past every leading copy of `p` in `[i, b)`.
pub open spec fn skip_prefix(s: Seq<char>, i: int, b: int, p: Seq<char>) -> int
    decreases b - i,
{
    if p.len() > 0 && i + p.len() <= b && s.subrange(i, i + p.len()) == p {
        skip_prefix(s, i + p.len(), b, p)
    } else {
        i
    }
}

/// An address argument: `$C000`, `0xC000`, `0XC000` or bare `C000`, with
/// space around it ignored. After the prefixes the text is read as
/// `u16::from_str_radix` reads base 16: an optional `+`, then one or more
/// hex digits whose value fits 16 bits.
pub open spec fn hex_arg(s: Seq<char>) -> Option<u16> {
    let a = skip_ws(s, 0, s.len() as int);
    let b = trim_back(s, a, s.len() as int);
    let i = skip_prefix(
        s,
        skip_prefix(s, skip_prefix(s, a, b, seq!['$']), b, seq!['0', 'x']),
        b,
        seq!['0', 'X'],
    );
    let j = if b - i >= 2 && s[i] == '+' {
        i + 1
    } else {
        i
    };
    if j < b && (forall|k: int| j <= k < b ==> digit_of(#[trigger] s[k], 16) < 16) && digits_val(
        s,
        j,
        b,
        16,
    ) <= 0xFFFF {
        Some(digits_val(s, j, b, 16) as u16)
    } else {
        None
    }
}

/// `$C000`, `0xC000`, or bare `C000` as an address.
pub fn parse_hex(s: &str) -> (r: Option<u16>)
    ensures
        r == hex_arg(s@),
{
    let t = chars_of(s);
    let n = t.len();
    let a = skip_ws_at(&t, 0, n);
    let b = trim_back_at(&t, a, n);
    let mut i = a;
    while i < b && t[i] == '$'
        invariant
            a <= i <= b <= n == t@.len(),
            skip_prefix(t@, a as int, b as int, seq!['$']) == skip_prefix(t@, i as int, b as int, seq!['$']),
        decreases b - i,
    {
        assert(t@.subrange(i as int, i + 1) =~= seq!['$']);
        i = i + 1;
    }
    assert(!(i + 1 <= b && t@.subrange(i as int, i + 1) == seq!['$'])) by {
        if i + 1 <= b && t@.subrange(i as int, i + 1) == seq!['$'] {
            assert(t@.subrange(i as int, i + 1)[0] == t@[i as int]);
        }
    }
    assert(skip_prefix(t@, i as int, b as int, seq!['$']) == i as int);
    let ghost i1 = i;
    while b - i >= 2 && t[i] == '0' && t[i + 1] == 'x'
        invariant
            a <= i1 <= i <= b <= n == t@.len(),
            skip_prefix(t@, i1 as int, b as int, seq!['0', 'x']) == skip_prefix(t@, i as int, b as int, seq!['0', 'x']),
        decreases b - i,
    {
        assert(t@.subrange(i as int, i + 2) =~= seq!['0', 'x']);
        i = i + 2;
    }
    assert(!(i + 2 <= b && t@.subrange(i as int, i + 2) == seq!['0', 'x'])) by {
        if i + 2 <= b && t@.subrange(i as int, i + 2) == seq!['0', 'x'] {
            assert(t@.subrange(i as int, i + 2)[0] == t@[i as int]);
            assert(t@.subrange(i as int, i + 2)[1] == t@[i + 1]);
        }
    }
    assert(skip_prefix(t@, i as int, b as int, seq!['0', 'x']) == i as int);
    let ghost i2 = i;
    while b - i >= 2 && t[i] == '0' && t[i + 1] == 'X'
        invariant
            a <= i2 <= i <= b <= n == t@.len(),
            skip_prefix(t@, i2 as int, b as int, seq!['0', 'X']) == skip_prefix(t@, i as int, b as int, seq!['0', 'X']),
        decreases b - i,
    {
        assert(t@.subrange(i as int, i + 2) =~= seq!['0', 'X']);
        i = i + 2;
    }
    assert(!(i + 2 <= b && t@.subrange(i as int, i + 2) == seq!['0', 'X'])) by {
        if i + 2 <= b && t@.subrange(i as int, i + 2) == seq!['0', 'X'] {
            assert(t@.subrange(i as int, i + 2)[0] == t@[i as int]);
            assert(t@.subrange(i as int, i + 2)[1] == t@[i + 1]);
        }
    }
    assert(skip_prefix(t@, i as int, b as int, seq!['0', 'X']) == i as int);
    let j = if b - i >= 2 && t[i] == '+' {
        i + 1
    } else {
        i
    };
    if j >= b {
        return None;
    }
    assert(hex_arg(s@) == if (forall|q: int| j <= q < b ==> digit_of(#[trigger] t@[q], 16) < 16)
        && digits_val(t@, j as int, b as int, 16) <= 0xFFFF {
        Some(digits_val(t@, j as int, b as int, 16) as u16)
    } else {
        None::<u16>
    });
    let mut v: u32 = 0;
    let mut k = j;
    while k < b
        invariant
            j <= k <= b <= t@.len(),
            hex_arg(s@) == if (forall|q: int| j <= q < b ==> digit_of(#[trigger] t@[q], 16) < 16)
                && digits_val(t@, j as int, b as int, 16) <= 0xFFFF {
                Some(digits_val(t@, j as int, b as int, 16) as u16)
            } else {
                None::<u16>
            },
            v == (if digits_val(t@, j as int, k as int, 16) < 0x1_0000 {
                digits_val(t@, j as int, k as int, 16)
            } else {
                0x1_0000
            }),
            forall|q: int| j <= q < k ==> digit_of(#[trigger] t@[q], 16) < 16,
        decreases b - k,
    {
        let d = digit_value(t[k], 16);
        if d >= 16 {
            assert(digit_of(t@[k as int], 16) >= 16);
            return None;
        }
        proof {
            lemma_digits_val_nonneg(t@, j as int, k as int, 16);
        }
        v = if v >= 0x1_0000 {
            0x1_0000
        } else if v * 16 + d > 0x1_0000 {
            0x1_0000
        } else {
            v * 16 + d
        };
        k = k + 1;
    }
    if v > 0xFFFF {
        None
    } else {
        Some(v as u16)
    }
}

// ------------------------------------------------------------ listings

/// Bytes as upper-case hex pairs separated by single spaces.
pub open spec fn hex_list(raw: Seq<u8>) -> Seq<char>
    decreases raw.len(),
{
    if raw.len() == 0 {
        seq![]
    } else if raw.len() == 1 {
        hex2(raw[0])
    } else {
        hex_list(raw.drop_last()) + seq![' '] + hex2(raw.last())
    }
}

/// `s` padded with spaces on the right to at least 8 characters.
pub open spec fn pad8(s: Seq<char>) -> Seq<char> {
    if s.len() >= 8 {
        s
    } else {
        s + Seq::new((8 - s.len()) as nat, |i: int| ' ')
    }
}

/// One listing row: address, raw bytes, text.
pub open spec fn listing_row(pc: u16, raw: Seq<u8>, text: Seq<char>) -> Seq<char> {
    seq!['$'] + hex4(pc) + seq![' ', ' '] + pad8(hex_list(raw)) + seq![' '] + text
}

/// The text of a byte that starts no complete instruction.
pub open spec fn byte_text(b: u8) -> Seq<char> {
    seq!['.', 'b', 'y', 't', 'e', ' ', '$'] + hex2(b)
}

/// The listing of `bytes[i..]` loaded at `pc`: one row per instruction, and
/// a `.byte` row for a byte whose operands are cut short. Addresses wrap at
/// `$FFFF`.
#[verifier::opaque]
pub open spec fn listing_from(bytes: Seq<u8>, i: int, pc: u16) -> Seq<Seq<char>>
    decreases bytes.len() - i,
{
    if i < 0 || i >= bytes.len() {
        seq![]
    } else {
        match disassembly(bytes.subrange(i, bytes.len() as int), pc) {
            Some((len, text)) => seq![listing_row(pc, bytes.subrange(i, i + len), text)]
                + listing_from(bytes, i + len, ((pc + len) % 0x1_0000) as u16),
            None => seq![listing_row(pc, seq![bytes[i]], byte_text(bytes[i]))] + listing_from(
                bytes,
                i + 1,
                ((pc + 1) % 0x1_0000) as u16,
            ),
        }
    }
}

fn push_row(pc: u16, raw: &[u8], text: &str) -> (row: String)
    requires
        1 <= raw@.len() <= 3,
    ensures
        row@ == listing_row(pc, raw@, text@),
{
    let mut row = String::new();
    push_char(&mut row, '$');
    push_hex4(&mut row, pc);
    push_char(&mut row, ' ');
    push_char(&mut row, ' ');
    let ghost before = row@;
    push_hex2(&mut row, raw[0]);
    let mut used: usize = 2;
    let mut k: usize = 1;
    assert(raw@.take(1).drop_last() =~= seq![]);
    assert(hex_list(raw@.take(1)) == hex2(raw@[0]));
    while k < raw.len()
        invariant
            1 <= k <= raw@.len() <= 3,
            row@ == before + hex_list(raw@.take(k as int)),
            used == hex_list(raw@.take(k as int)).len(),
            used == 3 * k - 1,
        decreases raw.len() - k,
    {
        push_char(&mut row, ' ');
        push_hex2(&mut row, raw[k]);
        proof {
            let t = raw@.take(k + 1);
            assert(t.drop_last() =~= raw@.take(k as int));
            assert(t.last() == raw@[k as int]);
        }
        used = used + 3;
        k = k + 1;
    }
    assert(raw@.take(k as int) =~= raw@);
    let ghost listed = row@;
    while used < 8
        invariant
            used <= 8,
            hex_list(raw@).len() <= used,
            row@ == listed + Seq::new((used - hex_list(raw@).len()) as nat, |i: int| ' '),
        decreases 8 - used,
    {
        push_char(&mut row, ' ');
        used = used + 1;
        assert(row@ =~= listed + Seq::new((used - hex_list(raw@).len()) as nat, |i: int| ' '));
    }
    push_char(&mut row, ' ');
    row.append(text);
    assert(row@ =~= listing_row(pc, raw@, text@));
    row
}

/// The disassembly listing of `bytes` loaded at `base`.
pub fn listing(bytes: &[u8], base: u16) -> (rows: Vec<String>)
    ensures
        rows@.len() == listing_from(bytes@, 0, base).len(),
        forall|k: int| 0 <= k < rows@.len() ==> (#[trigger] rows@[k])@ == listing_from(bytes@, 0, base)[k],
{
    let ghost all = listing_from(bytes@, 0, base);
    let ghost mut done: Seq<Seq<char>> = seq![];
    let mut rows: Vec<String> = Vec::new();
    let mut pc = base;
    let mut i: usize = 0;
    while i < bytes.len()
        invariant
            i <= bytes@.len(),
            all == listing_from(bytes@, 0, base),
            all == done + listing_from(bytes@, i as int, pc),
            rows@.len() == done.len(),
            forall|k: int| 0 <= k < rows@.len() ==> (#[trigger] rows@[k])@ == done[k],
        decreases bytes.len() - i,
    {
        let (row, n) = listing_row_at(bytes, i, pc);
        proof {
            done = done.push(row@);
        }
        rows.push(row);
        i = i + n;
        pc = pc.wrapping_add(n as u16);
    }
    assert(listing_from(bytes@, i as int, pc) == Seq::<Seq<char>>::empty()) by {
        reveal(listing_from);
    }
    assert(done + seq![] =~= done);
    rows
}

/// The listing row at `i` and the number of bytes it covers.
fn listing_row_at(bytes: &[u8], i: usize, pc: u16) -> (r: (String, usize))
    requires
        i < bytes@.len(),
    ensures
        1 <= r.1 <= 3,
        i + r.1 <= bytes@.len(),
        listing_from(bytes@, i as int, pc) == seq![r.0@] + listing_from(
            bytes@,
            i + r.1,
            ((pc + r.1) % 0x1_0000) as u16,
        ),
{
    let rest = vstd::slice::slice_subrange(bytes, i, bytes.len());
    proof {
        lemma_listing_step(bytes@, i as int, pc);
    }
    match disasm_one(rest, pc) {
        Some((len, text)) => {
            let n = len as usize;
            let raw = vstd::slice::slice_subrange(bytes, i, i + n);
            (push_row(pc, raw, text.as_str()), n)
        },
        None => {
            let raw = vstd::slice::slice_subrange(bytes, i, i + 1);
            assert(raw@ =~= seq![bytes@[i as int]]);
            let mut t = ".byte $".to_owned();
            push_hex2(&mut t, bytes[i]);
            proof {
                reveal_strlit(".byte $");
                assert(t@ =~= byte_text(bytes@[i as int]));
            }
            (push_row(pc, raw, t.as_str()), 1)
        },
    }
}

/// One step of a listing: the row at `i` and the rest after it.
proof fn lemma_listing_step(bytes: Seq<u8>, i: int, pc: u16)
    requires
        0 <= i < bytes.len(),
    ensures
        match disassembly(bytes.subrange(i, bytes.len() as int), pc) {
            Some((len, text)) => 1 <= len <= 3 && i + len <= bytes.len() && listing_from(bytes, i, pc)
                == seq![listing_row(pc, bytes.subrange(i, i + len), text)] + listing_from(
                bytes,
                i + len,
                ((pc + len) % 0x1_0000) as u16,
            ),
            None => listing_from(bytes, i, pc) == seq![listing_row(pc, seq![bytes[i]], byte_text(bytes[i]))]
                + listing_from(bytes, i + 1, ((pc + 1) % 0x1_0000) as u16),
        },
{
    reveal(listing_from);
}

// ------------------------------------------------------------ consoles

/// Decode bytes as UTF-8 text (`std::str::from_utf8`). The contract claims
/// what the standard library documents: the conversion succeeds exactly
/// when the bytes are well-formed UTF-8, and the text is their decoding.
#[verifier::external_body]
fn utf8_text(bytes: &[u8]) -> (r: Option<String>)
    ensures
        r is Some <==> valid_utf8(bytes@),
        r matches Some(s) ==> s@ == decode_utf8(bytes@),
{
    match std::str::from_utf8(bytes) {
        Ok(s) => Some(s.to_string()),
        Err(_) => None,
    }
}

/// What a console gets for source bytes: the program's container, or the
/// message to show (`line N: ...`, or that the bytes are not UTF-8).
pub open spec fn source_result(data: Seq<u8>) -> Result<Seq<u8>, Seq<char>> {
    if !valid_utf8(data) {
        Err("source is not UTF-8"@)
    } else {
        match assembly(decode_utf8(data)) {
            Ok(banks) => Ok(container(banks)),
            Err(f) => Err("line "@ + decimal(f.0 as nat) + ": "@ + f.1),
        }
    }
}

/// Assemble source given as bytes into its container.
pub fn assemble_source(data: &[u8]) -> (r: Result<Vec<u8>, String>)
    ensures
        match source_result(data@) {
            Ok(c) => r matches Ok(v) && v@ == c,
            Err(m) => r matches Err(e) && e@ == m,
        },
{
    match utf8_text(data) {
        None => {
            let m = "source is not UTF-8".to_owned();
            Err(m)
        },
        Some(text) => match assemble(text.as_str()) {
            Ok(bin) => Ok(bin.to_container()),
            Err(e) => Err(e.describe()),
        },
    }
}

/// The registers as a debugger panel shows them: A, X, Y, S, PC (low,
/// high), P and the low byte of the cycle count.
pub fn cpu_snapshot(cpu: &Cpu) -> (r: [u8; 8])
    ensures
        r@ == seq![
            cpu.a,
            cpu.x,
            cpu.y,
            cpu.s,
            (cpu.pc % 256) as u8,
            (cpu.pc / 256) as u8,
            cpu.p,
            (cpu.cycles % 256) as u8,
        ],
{
    let r = [
        cpu.a,
        cpu.x,
        cpu.y,
        cpu.s,
        (cpu.pc % 256) as u8,
        (cpu.pc / 256) as u8,
        cpu.p,
        (cpu.cycles % 256) as u8,
    ];
    assert(r@ =~= seq![
        cpu.a,
        cpu.x,
        cpu.y,
        cpu.s,
        (cpu.pc % 256) as u8,
        (cpu.pc / 256) as u8,
        cpu.p,
        (cpu.cycles % 256) as u8,
    ]);
    r
}

} // verus!
