//! 6502 CPU core: the NMOS 6502, bug-for-bug. Decimal-mode ADC/SBC with the
//! NMOS flag quirks, page-crossing cycle penalties, the JMP ($xxFF) page-wrap
//! bug, and zero-page index wraparound.
//!
//! The behaviour of every instruction is stated as a spec function over the
//! CPU registers and an abstract bus (`Bus`), whose reads may have side
//! effects; `Cpu::step` is proved to follow it exactly.

use vstd::prelude::*;

use crate::isa::{
    decode, decoded, read_cycle_count, read_cycles, rmw_cycle_count, rmw_cycles,
    store_cycle_count, store_cycles, Mode, Op,
};

verus! {

pub const FLAG_C: u8 = 0b0000_0001;
pub const FLAG_Z: u8 = 0b0000_0010;
pub const FLAG_I: u8 = 0b0000_0100;
pub const FLAG_D: u8 = 0b0000_1000;
pub const FLAG_B: u8 = 0b0001_0000;
pub const FLAG_U: u8 = 0b0010_0000;
pub const FLAG_V: u8 = 0b0100_0000;
pub const FLAG_N: u8 = 0b1000_0000;

pub const NMI_VECTOR: u16 = 0xFFFA;
pub const RESET_VECTOR: u16 = 0xFFFC;
pub const IRQ_VECTOR: u16 = 0xFFFE;

/// The most cycles a single `step` (instruction or interrupt entry) consumes.
pub const MAX_STEP_CYCLES: u64 = 7;

/// The memory bus the CPU drives. Reads may have side effects (I/O
/// registers), so a read is modelled as a value plus a successor state.
pub trait Bus: Sized {
    /// The byte a read of `addr` returns in this state.
    spec fn peek(&self, addr: u16) -> u8;

    /// The state after a read of `addr`.
    spec fn after_read(&self, addr: u16) -> Self;

    /// The state after writing `val` to `addr`.
    spec fn after_write(&self, addr: u16, val: u8) -> Self;

    fn read(&mut self, addr: u16) -> (v: u8)
        ensures
            v == old(self).peek(addr),
            *final(self) == old(self).after_read(addr),
    ;

    fn write(&mut self, addr: u16, val: u8)
        ensures
            *final(self) == old(self).after_write(addr, val),
    ;
}

#[derive(Debug, Clone, Copy, PartialEq, Eq, Structural)]
pub struct Cpu {
    pub a: u8,
    pub x: u8,
    pub y: u8,
    pub s: u8,
    pub pc: u16,
    pub p: u8,
    pub cycles: u64,
    pub irq_line: bool,
    /// An NMI is latched and will be taken before the next instruction.
    pub nmi_pending: bool,
}

// ---------------------------------------------------------------- arithmetic

/// `x` modulo 256, as a byte.
pub open spec fn wrap8(x: int) -> u8 {
    (x % 256) as u8
}

/// `x` modulo 65536, as a 16-bit word.
pub open spec fn wrap16(x: int) -> u16 {
    (x % 65536) as u16
}

/// The little-endian word made of `lo` and `hi`.
pub open spec fn word(lo: u8, hi: u8) -> u16 {
    (lo + 256 * hi) as u16
}

/// 1 for true, 0 for false.
pub open spec fn bit(b: bool) -> int {
    if b {
        1
    } else {
        0
    }
}

/// True when `a` and `b` lie in different 256-byte pages.
pub open spec fn page_crossed(a: u16, b: u16) -> bool {
    a / 256 != b / 256
}

/// Whether flag `f` is set in status byte `p`.
pub open spec fn flag(p: u8, f: u8) -> bool {
    p & f != 0
}

/// `p` with flag `f` set to `on`.
pub open spec fn with_flag(p: u8, f: u8, on: bool) -> u8 {
    if on {
        p | f
    } else {
        p & !f
    }
}

/// `p` with Z and N set from the value `v`.
pub open spec fn with_zn(p: u8, v: u8) -> u8 {
    with_flag(with_flag(p, FLAG_Z, v == 0), FLAG_N, v >= 128)
}

/// The status byte as `php` and `brk` push it (B and U set).
pub open spec fn pushed_status(p: u8) -> u8 {
    p | FLAG_B | FLAG_U
}

/// The status byte as a hardware interrupt pushes it (B clear, U set).
pub open spec fn irq_status(p: u8) -> u8 {
    p & !FLAG_B | FLAG_U
}

/// The status byte as `plp` and `rti` load it from the stack (B masked, U set).
pub open spec fn pulled_status(v: u8) -> u8 {
    v & !FLAG_B | FLAG_U
}

/// ADC on accumulator `a`, operand `m` and status `p`: the new accumulator
/// and status. Binary mode is the usual add-with-carry. NMOS decimal mode:
/// V from the binary sum, N from the pre-correction intermediate, Z and C
/// from the decimal result.
pub open spec fn adc_result(a: u8, m: u8, p: u8) -> (u8, u8) {
    let c = bit(flag(p, FLAG_C));
    let bin = a + m + c;
    let bb = wrap8(bin);
    let p1 = with_flag(p, FLAG_V, (bb ^ a) & (bb ^ m) & 0x80u8 != 0);
    if flag(p, FLAG_D) {
        let lo0 = a % 16 + m % 16 + c;
        let lo = if lo0 > 9 {
            lo0 + 6
        } else {
            lo0
        };
        let hi0 = a / 16 * 16 + m / 16 * 16 + lo / 16 * 16;
        let p2 = with_flag(p1, FLAG_N, hi0 / 128 % 2 == 1);
        let carry = hi0 >= 0xA0;
        let hi = if carry {
            hi0 + 0x60
        } else {
            hi0
        };
        let r = wrap8(hi / 16 % 16 * 16 + lo % 16);
        (r, with_flag(with_flag(p2, FLAG_C, carry), FLAG_Z, r == 0))
    } else {
        (bb, with_zn(with_flag(p1, FLAG_C, bin > 255), bb))
    }
}

/// SBC on accumulator `a`, operand `m` and status `p`. NMOS decimal mode:
/// all flags come from the binary result; only the value is decimal-corrected
/// (nines-complement borrow adjustment).
pub open spec fn sbc_result(a: u8, m: u8, p: u8) -> (u8, u8) {
    let c = bit(flag(p, FLAG_C));
    let bin = a - m - (1 - c);
    let bb = wrap8(bin);
    let p1 = with_flag(p, FLAG_C, bin >= 0);
    let p2 = with_flag(p1, FLAG_V, (a ^ m) & (a ^ bb) & 0x80u8 != 0);
    let p3 = with_zn(p2, bb);
    if flag(p, FLAG_D) {
        let al0 = a % 16 - m % 16 + c - 1;
        let al = if al0 < 0 {
            (al0 - 6) % 16 - 16
        } else {
            al0
        };
        let r0 = a / 16 * 16 - m / 16 * 16 + al;
        let r = if r0 < 0 {
            r0 - 0x60
        } else {
            r0
        };
        (wrap8(r), p3)
    } else {
        (bb, p3)
    }
}

/// A read-modify-write operation on `v` with status `p`: the new status
/// (carry only; Z and N are set from the result by the caller) and result.
pub open spec fn rmw_result(op: Op, p: u8, v: u8) -> (u8, u8) {
    let c = bit(flag(p, FLAG_C));
    match op {
        Op::Inc => (p, wrap8(v + 1)),
        Op::Dec => (p, wrap8(v - 1)),
        Op::Asl => (with_flag(p, FLAG_C, v >= 128), wrap8(2 * v)),
        Op::Lsr => (with_flag(p, FLAG_C, v % 2 == 1), v / 2),
        Op::Rol => (with_flag(p, FLAG_C, v >= 128), wrap8(2 * v + c)),
        Op::Ror => (with_flag(p, FLAG_C, v % 2 == 1), (v / 2 + 128 * c) as u8),
        _ => (p, v),
    }
}

/// Whether a conditional branch is taken under status `p`.
pub open spec fn branch_taken(op: Op, p: u8) -> bool {
    match op {
        Op::BrPl => !flag(p, FLAG_N),
        Op::BrMi => flag(p, FLAG_N),
        Op::BrVc => !flag(p, FLAG_V),
        Op::BrVs => flag(p, FLAG_V),
        Op::BrCc => !flag(p, FLAG_C),
        Op::BrCs => flag(p, FLAG_C),
        Op::BrNe => !flag(p, FLAG_Z),
        _ => flag(p, FLAG_Z),
    }
}

/// True for the eight conditional branches.
pub open spec fn is_branch_op(op: Op) -> bool {
    match op {
        Op::BrPl | Op::BrMi | Op::BrVc | Op::BrVs | Op::BrCc | Op::BrCs | Op::BrNe | Op::BrEq => true,
        _ => false,
    }
}

/// The target of a relative branch with offset byte `off` taken from `base`
/// (the address after the instruction): `off` is a signed byte.
pub open spec fn branch_target(base: u16, off: u8) -> u16 {
    if off < 128 {
        wrap16(base + off)
    } else {
        wrap16(base + off - 256)
    }
}

// ------------------------------------------------------- the machine model

impl Cpu {
    /// Whether an NMI is latched and will be taken before the next instruction.
    pub open spec fn nmi_latched(self) -> bool {
        self.nmi_pending
    }

    /// The state right after power-on.
    pub open spec fn power_on() -> Cpu {
        Cpu {
            a: 0,
            x: 0,
            y: 0,
            s: 0xFD,
            pc: 0,
            p: FLAG_U | FLAG_I,
            cycles: 0,
            irq_line: false,
            nmi_pending: false,
        }
    }

    /// Fetch the byte at PC and advance PC.
    pub open spec fn fetch_s<B: Bus>(self, b: B) -> (Cpu, B, u8) {
        (Cpu { pc: wrap16(self.pc + 1), ..self }, b.after_read(self.pc), b.peek(self.pc))
    }

    /// Fetch a little-endian word at PC and advance PC by two.
    pub open spec fn fetch16_s<B: Bus>(self, b: B) -> (Cpu, B, u16) {
        let (c1, b1, lo) = self.fetch_s(b);
        let (c2, b2, hi) = c1.fetch_s(b1);
        (c2, b2, word(lo, hi))
    }

    /// Push a byte: write at $0100+S, then decrement S (wrapping in page one).
    pub open spec fn push_s<B: Bus>(self, b: B, v: u8) -> (Cpu, B) {
        (Cpu { s: wrap8(self.s - 1), ..self }, b.after_write((256 + self.s) as u16, v))
    }

    /// Pull a byte: increment S (wrapping in page one), then read $0100+S.
    pub open spec fn pop_s<B: Bus>(self, b: B) -> (Cpu, B, u8) {
        let s = wrap8(self.s + 1);
        let at = (256 + s) as u16;
        (Cpu { s: s, ..self }, b.after_read(at), b.peek(at))
    }

    /// Push a word, high byte first.
    pub open spec fn push16_s<B: Bus>(self, b: B, v: u16) -> (Cpu, B) {
        let (c1, b1) = self.push_s(b, (v / 256) as u8);
        c1.push_s(b1, (v % 256) as u8)
    }

    /// Pull a word, low byte first.
    pub open spec fn pop16_s<B: Bus>(self, b: B) -> (Cpu, B, u16) {
        let (c1, b1, lo) = self.pop_s(b);
        let (c2, b2, hi) = c1.pop_s(b1);
        (c2, b2, word(lo, hi))
    }

    /// Resolve an addressing mode to an effective address, consuming operand
    /// bytes: `(cpu, bus, ea, crossed_page)`.
    pub open spec fn resolve_s<B: Bus>(self, mode: Mode, b: B) -> (Cpu, B, u16, bool) {
        match mode {
            Mode::Imp | Mode::Acc | Mode::Rel => (self, b, 0, false),
            Mode::Imm => (Cpu { pc: wrap16(self.pc + 1), ..self }, b, self.pc, false),
            Mode::Zp => {
                let (c1, b1, z) = self.fetch_s(b);
                (c1, b1, z as u16, false)
            },
            Mode::Zpx => {
                let (c1, b1, z) = self.fetch_s(b);
                (c1, b1, wrap8(z + self.x) as u16, false)
            },
            Mode::Zpy => {
                let (c1, b1, z) = self.fetch_s(b);
                (c1, b1, wrap8(z + self.y) as u16, false)
            },
            Mode::Abs => {
                let (c1, b1, w) = self.fetch16_s(b);
                (c1, b1, w, false)
            },
            Mode::Abx => {
                let (c1, b1, w) = self.fetch16_s(b);
                let ea = wrap16(w + self.x);
                (c1, b1, ea, page_crossed(w, ea))
            },
            Mode::Aby => {
                let (c1, b1, w) = self.fetch16_s(b);
                let ea = wrap16(w + self.y);
                (c1, b1, ea, page_crossed(w, ea))
            },
            Mode::Izx => {
                let (c1, b1, z0) = self.fetch_s(b);
                let z = wrap8(z0 + self.x);
                let hi_at = wrap8(z + 1) as u16;
                let b2 = b1.after_read(z as u16);
                (c1, b2.after_read(hi_at), word(b1.peek(z as u16), b2.peek(hi_at)), false)
            },
            Mode::Izy => {
                let (c1, b1, z) = self.fetch_s(b);
                let hi_at = wrap8(z + 1) as u16;
                let b2 = b1.after_read(z as u16);
                let w = word(b1.peek(z as u16), b2.peek(hi_at));
                let ea = wrap16(w + self.y);
                (c1, b2.after_read(hi_at), ea, page_crossed(w, ea))
            },
            Mode::Ind => {
                // NMOS bug: the pointer's high byte never increments.
                let (c1, b1, ptr) = self.fetch16_s(b);
                let hi_at = (ptr / 256 * 256 + (ptr + 1) % 256) as u16;
                let b2 = b1.after_read(ptr);
                (c1, b2.after_read(hi_at), word(b1.peek(ptr), b2.peek(hi_at)), false)
            },
        }
    }

    /// Add `n` cycles.
    pub open spec fn spend(self, n: int) -> Cpu {
        Cpu { cycles: (self.cycles + n) as u64, ..self }
    }

    /// The register effect of an operand-reading instruction on value `m`.
    pub open spec fn read_op_s(self, op: Op, m: u8) -> Cpu {
        match op {
            Op::Lda => Cpu { a: m, p: with_zn(self.p, m), ..self },
            Op::Ldx => Cpu { x: m, p: with_zn(self.p, m), ..self },
            Op::Ldy => Cpu { y: m, p: with_zn(self.p, m), ..self },
            Op::Adc => Cpu { a: adc_result(self.a, m, self.p).0, p: adc_result(self.a, m, self.p).1, ..self },
            Op::Sbc => Cpu { a: sbc_result(self.a, m, self.p).0, p: sbc_result(self.a, m, self.p).1, ..self },
            Op::And => Cpu { a: self.a & m, p: with_zn(self.p, self.a & m), ..self },
            Op::Ora => Cpu { a: self.a | m, p: with_zn(self.p, self.a | m), ..self },
            Op::Eor => Cpu { a: self.a ^ m, p: with_zn(self.p, self.a ^ m), ..self },
            Op::Cmp => Cpu { p: with_zn(with_flag(self.p, FLAG_C, self.a >= m), wrap8(self.a - m)), ..self },
            Op::Cpx => Cpu { p: with_zn(with_flag(self.p, FLAG_C, self.x >= m), wrap8(self.x - m)), ..self },
            Op::Cpy => Cpu { p: with_zn(with_flag(self.p, FLAG_C, self.y >= m), wrap8(self.y - m)), ..self },
            Op::Bit => Cpu {
                p: with_flag(
                    with_flag(with_flag(self.p, FLAG_Z, self.a & m == 0), FLAG_N, m >= 128),
                    FLAG_V,
                    m / 64 % 2 == 1,
                ),
                ..self
            },
            _ => self,
        }
    }

    /// Operand-reading instructions: resolve, read the operand, charge the
    /// base cycles plus the page-cross penalty, apply the operation.
    pub open spec fn exec_read_s<B: Bus>(self, op: Op, mode: Mode, b: B) -> (Cpu, B) {
        let (c1, b1, ea, cross) = self.resolve_s(mode, b);
        let m = b1.peek(ea);
        (c1.spend(read_cycle_count(mode) + bit(cross)).read_op_s(op, m), b1.after_read(ea))
    }

    /// Stores: indexed stores never take a page-cross penalty.
    pub open spec fn exec_store_s<B: Bus>(self, op: Op, mode: Mode, b: B) -> (Cpu, B) {
        let (c1, b1, ea, cross) = self.resolve_s(mode, b);
        let v = match op {
            Op::Sta => self.a,
            Op::Stx => self.x,
            _ => self.y,
        };
        (c1.spend(store_cycle_count(mode) as int), b1.after_write(ea, v))
    }

    /// Read-modify-write: the accumulator form, or the NMOS memory form that
    /// writes the old value back before the new one.
    pub open spec fn exec_rmw_s<B: Bus>(self, op: Op, mode: Mode, b: B) -> (Cpu, B) {
        if mode == Mode::Acc {
            let (p1, r) = rmw_result(op, self.p, self.a);
            (Cpu { a: r, p: with_zn(p1, r), ..self }.spend(2), b)
        } else {
            let (c1, b1, ea, cross) = self.resolve_s(mode, b);
            let v = b1.peek(ea);
            let (p1, r) = rmw_result(op, c1.p, v);
            let b2 = b1.after_read(ea).after_write(ea, v).after_write(ea, r);
            (Cpu { p: with_zn(p1, r), ..c1 }.spend(rmw_cycle_count(mode) as int), b2)
        }
    }

    /// A conditional branch: two cycles, plus one when taken, plus one more
    /// when the target lies in another page.
    pub open spec fn branch_s<B: Bus>(self, taken: bool, b: B) -> (Cpu, B) {
        let (c1, b1, off) = self.fetch_s(b);
        let c2 = c1.spend(2);
        if taken {
            let target = branch_target(c1.pc, off);
            (Cpu { pc: target, ..c2.spend(1 + bit(page_crossed(c1.pc, target))) }, b1)
        } else {
            (c2, b1)
        }
    }

    /// Interrupt entry: push PC and status, set I, load PC from `vector`.
    pub open spec fn interrupt_s<B: Bus>(self, b: B, vector: u16, brk: bool) -> (Cpu, B) {
        let (c1, b1) = self.push16_s(b, self.pc);
        let pp = if brk {
            pushed_status(self.p)
        } else {
            irq_status(self.p)
        };
        let (c2, b2) = c1.push_s(b1, pp);
        let b3 = b2.after_read(vector);
        let target = word(b2.peek(vector), b3.peek((vector + 1) as u16));
        (Cpu { p: c2.p | FLAG_I, pc: target, ..c2 }.spend(7), b3.after_read((vector + 1) as u16))
    }

    /// One instruction with its operands already at PC (the opcode consumed).
    pub open spec fn execute_s<B: Bus>(self, op: Op, mode: Mode, b: B) -> (Cpu, B) {
        match op {
            Op::Lda | Op::Ldx | Op::Ldy | Op::Adc | Op::Sbc | Op::And | Op::Ora | Op::Eor
            | Op::Cmp | Op::Cpx | Op::Cpy | Op::Bit | Op::Nop => self.exec_read_s(op, mode, b),
            Op::Sta | Op::Stx | Op::Sty => self.exec_store_s(op, mode, b),
            Op::Inc | Op::Dec | Op::Asl | Op::Lsr | Op::Rol | Op::Ror => self.exec_rmw_s(op, mode, b),
            Op::Jmp => {
                let (c1, b1, ea, cross) = self.resolve_s(mode, b);
                (Cpu { pc: ea, ..c1 }.spend(if mode == Mode::Ind { 5 } else { 3 }), b1)
            },
            Op::Jsr => {
                // The pushed return address is the instruction's last byte.
                let (c1, b1, target) = self.fetch16_s(b);
                let (c2, b2) = c1.push16_s(b1, wrap16(c1.pc - 1));
                (Cpu { pc: target, ..c2 }.spend(6), b2)
            },
            Op::Rts => {
                let (c1, b1, ret) = self.pop16_s(b);
                (Cpu { pc: wrap16(ret + 1), ..c1 }.spend(6), b1)
            },
            Op::Rti => {
                let (c1, b1, v) = self.pop_s(b);
                let (c2, b2, ret) = c1.pop16_s(b1);
                (Cpu { p: pulled_status(v), pc: ret, ..c2 }.spend(6), b2)
            },
            Op::BrPl | Op::BrMi | Op::BrVc | Op::BrVs | Op::BrCc | Op::BrCs | Op::BrNe
            | Op::BrEq => self.branch_s(branch_taken(op, self.p), b),
            Op::Inx => (Cpu { x: wrap8(self.x + 1), p: with_zn(self.p, wrap8(self.x + 1)), ..self }.spend(2), b),
            Op::Iny => (Cpu { y: wrap8(self.y + 1), p: with_zn(self.p, wrap8(self.y + 1)), ..self }.spend(2), b),
            Op::Dex => (Cpu { x: wrap8(self.x - 1), p: with_zn(self.p, wrap8(self.x - 1)), ..self }.spend(2), b),
            Op::Dey => (Cpu { y: wrap8(self.y - 1), p: with_zn(self.p, wrap8(self.y - 1)), ..self }.spend(2), b),
            Op::Tax => (Cpu { x: self.a, p: with_zn(self.p, self.a), ..self }.spend(2), b),
            Op::Tay => (Cpu { y: self.a, p: with_zn(self.p, self.a), ..self }.spend(2), b),
            Op::Txa => (Cpu { a: self.x, p: with_zn(self.p, self.x), ..self }.spend(2), b),
            Op::Tya => (Cpu { a: self.y, p: with_zn(self.p, self.y), ..self }.spend(2), b),
            Op::Tsx => (Cpu { x: self.s, p: with_zn(self.p, self.s), ..self }.spend(2), b),
            // TXS is the only transfer that does not touch flags.
            Op::Txs => (Cpu { s: self.x, ..self }.spend(2), b),
            Op::Pha => {
                let (c1, b1) = self.push_s(b, self.a);
                (c1.spend(3), b1)
            },
            Op::Php => {
                let (c1, b1) = self.push_s(b, pushed_status(self.p));
                (c1.spend(3), b1)
            },
            Op::Pla => {
                let (c1, b1, v) = self.pop_s(b);
                (Cpu { a: v, p: with_zn(c1.p, v), ..c1 }.spend(4), b1)
            },
            Op::Plp => {
                let (c1, b1, v) = self.pop_s(b);
                (Cpu { p: pulled_status(v), ..c1 }.spend(4), b1)
            },
            Op::Clc => (Cpu { p: with_flag(self.p, FLAG_C, false), ..self }.spend(2), b),
            Op::Sec => (Cpu { p: with_flag(self.p, FLAG_C, true), ..self }.spend(2), b),
            Op::Cli => (Cpu { p: with_flag(self.p, FLAG_I, false), ..self }.spend(2), b),
            Op::Sei => (Cpu { p: with_flag(self.p, FLAG_I, true), ..self }.spend(2), b),
            Op::Cld => (Cpu { p: with_flag(self.p, FLAG_D, false), ..self }.spend(2), b),
            Op::Sed => (Cpu { p: with_flag(self.p, FLAG_D, true), ..self }.spend(2), b),
            Op::Clv => (Cpu { p: with_flag(self.p, FLAG_V, false), ..self }.spend(2), b),
            // BRK is a two-byte instruction: the signature byte is skipped.
            Op::Brk => Cpu { pc: wrap16(self.pc + 1), ..self }.interrupt_s(b, IRQ_VECTOR, true),
        }
    }

    /// One step: a latched NMI is taken first, then an unmasked IRQ, and
    /// otherwise one instruction is fetched and executed.
    #[verifier::opaque]
    pub open spec fn step_s<B: Bus>(self, b: B) -> (Cpu, B) {
        if self.nmi_pending {
            Cpu { nmi_pending: false, ..self }.interrupt_s(b, NMI_VECTOR, false)
        } else if self.irq_line && !flag(self.p, FLAG_I) {
            self.interrupt_s(b, IRQ_VECTOR, false)
        } else {
            let (c1, b1, opcode) = self.fetch_s(b);
            c1.execute_s(decoded(opcode).0, decoded(opcode).1, b1)
        }
    }

    /// Reset: registers to their power-on values, PC from the reset vector,
    /// seven cycles, any latched NMI dropped.
    pub open spec fn reset_s<B: Bus>(self, b: B) -> (Cpu, B) {
        let b1 = b.after_read(RESET_VECTOR);
        let target = word(b.peek(RESET_VECTOR), b1.peek((RESET_VECTOR + 1) as u16));
        (
            Cpu {
                a: 0,
                x: 0,
                y: 0,
                s: 0xFD,
                p: FLAG_U | FLAG_I,
                pc: target,
                cycles: (self.cycles + 7) as u64,
                nmi_pending: false,
                ..self
            },
            b1.after_read((RESET_VECTOR + 1) as u16),
        )
    }
}

// ---------------------------------------------------------------- execution

impl Cpu {
    pub fn new() -> (c: Cpu)
        ensures
            c == Cpu::power_on(),
    {
        Cpu {
            a: 0,
            x: 0,
            y: 0,
            s: 0xFD,
            pc: 0,
            p: FLAG_U | FLAG_I,
            cycles: 0,
            irq_line: false,
            nmi_pending: false,
        }
    }

    /// Reset the CPU through the reset vector ($FFFC), charging seven cycles.
    pub fn reset<B: Bus>(&mut self, bus: &mut B)
        requires
            old(self).cycles <= u64::MAX - MAX_STEP_CYCLES,
        ensures
            (*final(self), *final(bus)) == old(self).reset_s(*old(bus)),
    {
        self.a = 0;
        self.x = 0;
        self.y = 0;
        self.s = 0xFD;
        self.p = FLAG_U | FLAG_I;
        self.pc = self.read_vector(bus, RESET_VECTOR);
        self.cycles = self.cycles + 7;
        self.nmi_pending = false;
    }

    /// Execute one instruction (or a pending interrupt), returning the cycles
    /// it consumed. Also accumulates into `self.cycles`.
    pub fn step<B: Bus>(&mut self, bus: &mut B) -> (spent: u32)
        requires
            old(self).cycles <= u64::MAX - MAX_STEP_CYCLES,
        ensures
            (*final(self), *final(bus)) == old(self).step_s(*old(bus)),
            spent == final(self).cycles - old(self).cycles,
    {
        proof {
            lemma_step_cost(*self, *bus);
            reveal(Cpu::step_s);
        }
        let before = self.cycles;
        if self.nmi_pending {
            self.nmi_pending = false;
            self.interrupt(bus, NMI_VECTOR, false);
            return (self.cycles - before) as u32;
        }
        if self.irq_line && self.p & FLAG_I == 0 {
            self.interrupt(bus, IRQ_VECTOR, false);
            return (self.cycles - before) as u32;
        }
        let opcode = self.fetch8(bus);
        let (op, mode) = decode(opcode);
        self.execute(op, mode, bus);
        (self.cycles - before) as u32
    }

    /// Raise an NMI (edge-triggered; taken before the next instruction).
    pub fn nmi(&mut self)
        ensures
            *final(self) == (Cpu { nmi_pending: true, ..*old(self) }),
            final(self).nmi_latched(),
    {
        self.nmi_pending = true;
    }

    // ---- Fetch / stack primitives -------------------------------------

    fn fetch8<B: Bus>(&mut self, bus: &mut B) -> (v: u8)
        ensures
            (*final(self), *final(bus), v) == old(self).fetch_s(*old(bus)),
    {
        let v = bus.read(self.pc);
        self.pc = inc16(self.pc);
        v
    }

    fn fetch16<B: Bus>(&mut self, bus: &mut B) -> (v: u16)
        ensures
            (*final(self), *final(bus), v) == old(self).fetch16_s(*old(bus)),
    {
        let lo = self.fetch8(bus);
        let hi = self.fetch8(bus);
        lo as u16 + 256 * hi as u16
    }

    fn read_vector<B: Bus>(&mut self, bus: &mut B, v: u16) -> (r: u16)
        requires
            v < 0xFFFF,
        ensures
            *final(self) == *old(self),
            *final(bus) == old(bus).after_read(v).after_read((v + 1) as u16),
            r == word(old(bus).peek(v), old(bus).after_read(v).peek((v + 1) as u16)),
    {
        let lo = bus.read(v);
        let hi = bus.read(v + 1);
        lo as u16 + 256 * hi as u16
    }

    fn push<B: Bus>(&mut self, bus: &mut B, v: u8)
        ensures
            (*final(self), *final(bus)) == old(self).push_s(*old(bus), v),
    {
        bus.write(0x0100 + self.s as u16, v);
        self.s = dec8(self.s);
    }

    fn pop<B: Bus>(&mut self, bus: &mut B) -> (v: u8)
        ensures
            (*final(self), *final(bus), v) == old(self).pop_s(*old(bus)),
    {
        self.s = inc8(self.s);
        bus.read(0x0100 + self.s as u16)
    }

    fn push16<B: Bus>(&mut self, bus: &mut B, v: u16)
        ensures
            (*final(self), *final(bus)) == old(self).push16_s(*old(bus), v),
    {
        self.push(bus, (v / 256) as u8);
        self.push(bus, (v % 256) as u8);
    }

    fn pop16<B: Bus>(&mut self, bus: &mut B) -> (v: u16)
        ensures
            (*final(self), *final(bus), v) == old(self).pop16_s(*old(bus)),
    {
        let lo = self.pop(bus);
        let hi = self.pop(bus);
        lo as u16 + 256 * hi as u16
    }

    // ---- Flags ----------------------------------------------------------

    fn set_flag(&mut self, f: u8, on: bool)
        ensures
            *final(self) == (Cpu { p: with_flag(old(self).p, f, on), ..*old(self) }),
    {
        if on {
            self.p = self.p | f;
        } else {
            self.p = self.p & !f;
        }
    }

    fn set_zn(&mut self, v: u8)
        ensures
            *final(self) == (Cpu { p: with_zn(old(self).p, v), ..*old(self) }),
    {
        self.set_flag(FLAG_Z, v == 0);
        self.set_flag(FLAG_N, v >= 0x80);
    }

    // ---- Addressing ------------------------------------------------------

    /// Resolve an addressing mode to an effective address, consuming operand
    /// bytes. Returns `(ea, crossed_page)`; the bool is the extra-cycle
    /// penalty for indexed reads.
    #[verifier::spinoff_prover]
    #[verifier::rlimit(30)]
    fn resolve<B: Bus>(&mut self, mode: Mode, bus: &mut B) -> (r: (u16, bool))
        ensures
            (*final(self), *final(bus), r.0, r.1) == old(self).resolve_s(mode, *old(bus)),
    {
        match mode {
            Mode::Imp | Mode::Acc | Mode::Rel => (0, false),
            Mode::Imm => {
                let ea = self.pc;
                self.pc = inc16(self.pc);
                (ea, false)
            },
            Mode::Zp => {
                let z = self.fetch8(bus);
                (z as u16, false)
            },
            Mode::Zpx => {
                let z = self.fetch8(bus);
                (add8(z, self.x) as u16, false)
            },
            Mode::Zpy => {
                let z = self.fetch8(bus);
                (add8(z, self.y) as u16, false)
            },
            Mode::Abs => {
                let w = self.fetch16(bus);
                (w, false)
            },
            Mode::Abx => {
                let w = self.fetch16(bus);
                let ea = add16(w, self.x as u16);
                (ea, w / 256 != ea / 256)
            },
            Mode::Aby => {
                let w = self.fetch16(bus);
                let ea = add16(w, self.y as u16);
                (ea, w / 256 != ea / 256)
            },
            Mode::Izx => {
                let z0 = self.fetch8(bus);
                let z = add8(z0, self.x);
                let lo = bus.read(z as u16);
                let hi = bus.read(add8(z, 1) as u16);
                (lo as u16 + 256 * hi as u16, false)
            },
            Mode::Izy => {
                let z = self.fetch8(bus);
                let lo = bus.read(z as u16);
                let hi = bus.read(add8(z, 1) as u16);
                let w = lo as u16 + 256 * hi as u16;
                let ea = add16(w, self.y as u16);
                (ea, w / 256 != ea / 256)
            },
            Mode::Ind => {
                let ptr = self.fetch16(bus);
                // NMOS bug: the pointer's high byte never increments: $xxFF
                // wraps back to $xx00 for the second byte.
                let lo = bus.read(ptr);
                let hi = bus.read(ptr / 256 * 256 + add16(ptr, 1) % 256);
                (lo as u16 + 256 * hi as u16, false)
            },
        }
    }

    // ---- Execution -------------------------------------------------------

    fn execute<B: Bus>(&mut self, op: Op, mode: Mode, bus: &mut B)
        requires
            old(self).cycles <= u64::MAX - MAX_STEP_CYCLES,
        ensures
            (*final(self), *final(bus)) == old(self).execute_s(op, mode, *old(bus)),
    {
        match op {
            Op::Lda | Op::Ldx | Op::Ldy | Op::Adc | Op::Sbc | Op::And | Op::Ora | Op::Eor
            | Op::Cmp | Op::Cpx | Op::Cpy | Op::Bit | Op::Nop => self.exec_read(op, mode, bus),
            Op::Sta | Op::Stx | Op::Sty => self.exec_store(op, mode, bus),
            Op::Inc | Op::Dec | Op::Asl | Op::Lsr | Op::Rol | Op::Ror => self.exec_rmw(op, mode, bus),
            Op::Jmp => {
                let (ea, _) = self.resolve(mode, bus);
                self.pc = ea;
                self.cycles = self.cycles + if mode == Mode::Ind { 5 } else { 3 };
            },
            Op::Jsr => {
                let target = self.fetch16(bus);
                // Return address points at the third byte of the instruction.
                let ret = dec16(self.pc);
                self.push16(bus, ret);
                self.pc = target;
                self.cycles = self.cycles + 6;
            },
            Op::Rts => {
                let ret = self.pop16(bus);
                self.pc = inc16(ret);
                self.cycles = self.cycles + 6;
            },
            Op::Rti => {
                let v = self.pop(bus);
                self.p = v & !FLAG_B | FLAG_U;
                self.pc = self.pop16(bus);
                self.cycles = self.cycles + 6;
            },
            Op::BrPl => self.branch(self.p & FLAG_N == 0, bus),
            Op::BrMi => self.branch(self.p & FLAG_N != 0, bus),
            Op::BrVc => self.branch(self.p & FLAG_V == 0, bus),
            Op::BrVs => self.branch(self.p & FLAG_V != 0, bus),
            Op::BrCc => self.branch(self.p & FLAG_C == 0, bus),
            Op::BrCs => self.branch(self.p & FLAG_C != 0, bus),
            Op::BrNe => self.branch(self.p & FLAG_Z == 0, bus),
            Op::BrEq => self.branch(self.p & FLAG_Z != 0, bus),
            Op::Inx => {
                self.x = inc8(self.x);
                self.set_zn(self.x);
                self.cycles = self.cycles + 2;
            },
            Op::Iny => {
                self.y = inc8(self.y);
                self.set_zn(self.y);
                self.cycles = self.cycles + 2;
            },
            Op::Dex => {
                self.x = dec8(self.x);
                self.set_zn(self.x);
                self.cycles = self.cycles + 2;
            },
            Op::Dey => {
                self.y = dec8(self.y);
                self.set_zn(self.y);
                self.cycles = self.cycles + 2;
            },
            Op::Tax => {
                self.x = self.a;
                self.set_zn(self.x);
                self.cycles = self.cycles + 2;
            },
            Op::Tay => {
                self.y = self.a;
                self.set_zn(self.y);
                self.cycles = self.cycles + 2;
            },
            Op::Txa => {
                self.a = self.x;
                self.set_zn(self.a);
                self.cycles = self.cycles + 2;
            },
            Op::Tya => {
                self.a = self.y;
                self.set_zn(self.a);
                self.cycles = self.cycles + 2;
            },
            Op::Tsx => {
                self.x = self.s;
                self.set_zn(self.x);
                self.cycles = self.cycles + 2;
            },
            // TXS is the only transfer that does not touch flags.
            Op::Txs => {
                self.s = self.x;
                self.cycles = self.cycles + 2;
            },
            Op::Pha => {
                let v = self.a;
                self.push(bus, v);
                self.cycles = self.cycles + 3;
            },
            Op::Php => {
                let v = self.p | FLAG_B | FLAG_U;
                self.push(bus, v);
                self.cycles = self.cycles + 3;
            },
            Op::Pla => {
                let v = self.pop(bus);
                self.a = v;
                self.set_zn(v);
                self.cycles = self.cycles + 4;
            },
            Op::Plp => {
                let v = self.pop(bus);
                self.p = v & !FLAG_B | FLAG_U;
                self.cycles = self.cycles + 4;
            },
            Op::Clc => {
                self.set_flag(FLAG_C, false);
                self.cycles = self.cycles + 2;
            },
            Op::Sec => {
                self.set_flag(FLAG_C, true);
                self.cycles = self.cycles + 2;
            },
            Op::Cli => {
                self.set_flag(FLAG_I, false);
                self.cycles = self.cycles + 2;
            },
            Op::Sei => {
                self.set_flag(FLAG_I, true);
                self.cycles = self.cycles + 2;
            },
            Op::Cld => {
                self.set_flag(FLAG_D, false);
                self.cycles = self.cycles + 2;
            },
            Op::Sed => {
                self.set_flag(FLAG_D, true);
                self.cycles = self.cycles + 2;
            },
            Op::Clv => {
                self.set_flag(FLAG_V, false);
                self.cycles = self.cycles + 2;
            },
            Op::Brk => {
                // BRK is a two-byte instruction: skip the signature byte.
                self.pc = inc16(self.pc);
                self.interrupt(bus, IRQ_VECTOR, true);
            },
        }
    }

    fn exec_read<B: Bus>(&mut self, op: Op, mode: Mode, bus: &mut B)
        requires
            old(self).cycles <= u64::MAX - MAX_STEP_CYCLES,
        ensures
            (*final(self), *final(bus)) == old(self).exec_read_s(op, mode, *old(bus)),
    {
        let (ea, cross) = self.resolve(mode, bus);
        let m = bus.read(ea);
        self.cycles = self.cycles + read_cycles(mode) + if cross { 1 } else { 0 };
        match op {
            Op::Lda => {
                self.a = m;
                self.set_zn(m);
            },
            Op::Ldx => {
                self.x = m;
                self.set_zn(m);
            },
            Op::Ldy => {
                self.y = m;
                self.set_zn(m);
            },
            Op::Adc => self.adc(m),
            Op::Sbc => self.sbc(m),
            Op::And => {
                self.a = self.a & m;
                self.set_zn(self.a);
            },
            Op::Ora => {
                self.a = self.a | m;
                self.set_zn(self.a);
            },
            Op::Eor => {
                self.a = self.a ^ m;
                self.set_zn(self.a);
            },
            Op::Cmp => self.compare(self.a, m),
            Op::Cpx => self.compare(self.x, m),
            Op::Cpy => self.compare(self.y, m),
            Op::Bit => {
                self.set_flag(FLAG_Z, self.a & m == 0);
                self.set_flag(FLAG_N, m >= 0x80);
                self.set_flag(FLAG_V, m / 64 % 2 == 1);
            },
            _ => {},
        }
    }

    fn exec_store<B: Bus>(&mut self, op: Op, mode: Mode, bus: &mut B)
        requires
            old(self).cycles <= u64::MAX - MAX_STEP_CYCLES,
        ensures
            (*final(self), *final(bus)) == old(self).exec_store_s(op, mode, *old(bus)),
    {
        let v = match op {
            Op::Sta => self.a,
            Op::Stx => self.x,
            _ => self.y,
        };
        let (ea, _) = self.resolve(mode, bus);
        bus.write(ea, v);
        self.cycles = self.cycles + store_cycles(mode);
    }

    fn exec_rmw<B: Bus>(&mut self, op: Op, mode: Mode, bus: &mut B)
        requires
            old(self).cycles <= u64::MAX - MAX_STEP_CYCLES,
        ensures
            (*final(self), *final(bus)) == old(self).exec_rmw_s(op, mode, *old(bus)),
    {
        if mode == Mode::Acc {
            let r = self.rmw_value(op, self.a);
            self.a = r;
            self.set_zn(r);
            self.cycles = self.cycles + 2;
        } else {
            let (ea, _) = self.resolve(mode, bus);
            let v = bus.read(ea);
            // NMOS read-modify-write puts the old value on the bus before the
            // new one; I/O registers see both writes.
            bus.write(ea, v);
            let r = self.rmw_value(op, v);
            bus.write(ea, r);
            self.set_zn(r);
            self.cycles = self.cycles + rmw_cycles(mode);
        }
    }

    fn rmw_value(&mut self, op: Op, v: u8) -> (r: u8)
        ensures
            *final(self) == (Cpu { p: rmw_result(op, old(self).p, v).0, ..*old(self) }),
            r == rmw_result(op, old(self).p, v).1,
    {
        let c: u8 = if self.p & FLAG_C != 0 { 1 } else { 0 };
        match op {
            Op::Inc => inc8(v),
            Op::Dec => dec8(v),
            Op::Asl => {
                self.set_flag(FLAG_C, v >= 0x80);
                ((v as u16 * 2) % 256) as u8
            },
            Op::Lsr => {
                self.set_flag(FLAG_C, v % 2 == 1);
                v / 2
            },
            Op::Rol => {
                self.set_flag(FLAG_C, v >= 0x80);
                ((v as u16 * 2 + c as u16) % 256) as u8
            },
            Op::Ror => {
                self.set_flag(FLAG_C, v % 2 == 1);
                v / 2 + 128 * c
            },
            _ => v,
        }
    }

    fn branch<B: Bus>(&mut self, taken: bool, bus: &mut B)
        requires
            old(self).cycles <= u64::MAX - MAX_STEP_CYCLES,
        ensures
            (*final(self), *final(bus)) == old(self).branch_s(taken, *old(bus)),
    {
        let off = self.fetch8(bus);
        self.cycles = self.cycles + 2;
        if taken {
            let base = self.pc;
            let target = if off < 128 {
                add16(base, off as u16)
            } else {
                add16(base, 0xFF00 + off as u16)
            };
            self.cycles = self.cycles + 1 + if base / 256 != target / 256 { 1 } else { 0 };
            self.pc = target;
        }
    }

    fn compare(&mut self, reg: u8, m: u8)
        ensures
            *final(self) == (Cpu { p: with_zn(with_flag(old(self).p, FLAG_C, reg >= m), wrap8(reg - m)), ..*old(self) }),
    {
        let r = sub8(reg, m);
        self.set_flag(FLAG_C, reg >= m);
        self.set_zn(r);
    }

    // ---- Arithmetic ------------------------------------------------------

    /// ADC. NMOS decimal mode: V from the binary sum, N from the
    /// pre-correction intermediate, Z/C from the decimal result.
    fn adc(&mut self, m: u8)
        ensures
            *final(self) == (Cpu {
                a: adc_result(old(self).a, m, old(self).p).0,
                p: adc_result(old(self).a, m, old(self).p).1,
                ..*old(self)
            }),
    {
        let a = self.a;
        let decimal = self.p & FLAG_D != 0;
        let c_in: u16 = if self.p & FLAG_C != 0 { 1 } else { 0 };
        let bin = a as u16 + m as u16 + c_in;
        let bin_b = (bin % 256) as u8;
        self.set_flag(FLAG_V, (bin_b ^ a) & (bin_b ^ m) & 0x80 != 0);
        if decimal {
            let mut lo = (a % 16) as u16 + (m % 16) as u16 + c_in;
            if lo > 9 {
                lo = lo + 6;
            }
            let mut hi = (a / 16 * 16) as u16 + (m / 16 * 16) as u16 + lo / 16 * 16;
            self.set_flag(FLAG_N, hi / 128 % 2 == 1);
            let carry = hi >= 0xA0;
            if carry {
                hi = hi + 0x60;
            }
            let r = ((hi / 16 % 16 * 16 + lo % 16) % 256) as u8;
            self.set_flag(FLAG_C, carry);
            self.set_flag(FLAG_Z, r == 0);
            self.a = r;
        } else {
            self.set_flag(FLAG_C, bin > 0xFF);
            self.set_zn(bin_b);
            self.a = bin_b;
        }
    }

    /// SBC. NMOS decimal mode: all flags from the binary result; only the
    /// value is decimal-corrected (nines-complement borrow adjustment).
    fn sbc(&mut self, m: u8)
        ensures
            *final(self) == (Cpu {
                a: sbc_result(old(self).a, m, old(self).p).0,
                p: sbc_result(old(self).a, m, old(self).p).1,
                ..*old(self)
            }),
    {
        let a = self.a;
        let decimal = self.p & FLAG_D != 0;
        let c_in: i32 = if self.p & FLAG_C != 0 { 1 } else { 0 };
        let bin: i32 = a as i32 - m as i32 - (1 - c_in);
        let bin_b = ((bin + 256) % 256) as u8;
        assert(bin_b == wrap8(bin as int)) by {
            assert((bin + 256) % 256 == bin % 256) by (nonlinear_arith)
                requires -256 <= bin < 256;
        }
        self.set_flag(FLAG_C, bin >= 0);
        self.set_flag(FLAG_V, (a ^ m) & (a ^ bin_b) & 0x80 != 0);
        self.set_zn(bin_b);
        if decimal {
            let al0: i32 = (a % 16) as i32 - (m % 16) as i32 + c_in - 1;
            let al: i32 = if al0 < 0 {
                assert((al0 - 6 + 32) % 16 == (al0 - 6) % 16) by (nonlinear_arith)
                    requires -17 <= al0 < 0;
                (al0 - 6 + 32) % 16 - 16
            } else {
                al0
            };
            let mut r: i32 = (a / 16 * 16) as i32 - (m / 16 * 16) as i32 + al;
            if r < 0 {
                r = r - 0x60;
            }
            assert((r + 512) % 256 == r % 256) by (nonlinear_arith)
                requires -400 <= r < 400;
            self.a = ((r + 512) % 256) as u8;
        } else {
            self.a = bin_b;
        }
    }

    // ---- Interrupts ------------------------------------------------------

    fn interrupt<B: Bus>(&mut self, bus: &mut B, vector: u16, brk_flag: bool)
        requires
            old(self).cycles <= u64::MAX - MAX_STEP_CYCLES,
            vector < 0xFFFF,
        ensures
            (*final(self), *final(bus)) == old(self).interrupt_s(*old(bus), vector, brk_flag),
    {
        let ret = self.pc;
        self.push16(bus, ret);
        let p = if brk_flag {
            self.p | FLAG_B | FLAG_U
        } else {
            self.p & !FLAG_B | FLAG_U
        };
        self.push(bus, p);
        self.p = self.p | FLAG_I;
        self.pc = self.read_vector(bus, vector);
        self.cycles = self.cycles + 7;
    }
}

impl Default for Cpu {
    fn default() -> (c: Cpu)
        ensures
            c == Cpu::power_on(),
    {
        Cpu::new()
    }
}

// ------------------------------------------------------- wrapping helpers

fn inc8(x: u8) -> (r: u8)
    ensures
        r == wrap8(x + 1),
{
    if x == 0xFF {
        0
    } else {
        x + 1
    }
}

fn dec8(x: u8) -> (r: u8)
    ensures
        r == wrap8(x - 1),
{
    if x == 0 {
        0xFF
    } else {
        x - 1
    }
}

fn add8(x: u8, y: u8) -> (r: u8)
    ensures
        r == wrap8(x + y),
{
    ((x as u16 + y as u16) % 256) as u8
}

fn sub8(x: u8, y: u8) -> (r: u8)
    ensures
        r == wrap8(x - y),
{
    ((x as u16 + 256 - y as u16) % 256) as u8
}

fn inc16(x: u16) -> (r: u16)
    ensures
        r == wrap16(x + 1),
{
    if x == 0xFFFF {
        0
    } else {
        x + 1
    }
}

fn dec16(x: u16) -> (r: u16)
    ensures
        r == wrap16(x - 1),
{
    if x == 0 {
        0xFFFF
    } else {
        x - 1
    }
}

fn add16(x: u16, y: u16) -> (r: u16)
    ensures
        r == wrap16(x + y),
{
    ((x as u32 + y as u32) % 65536) as u16
}

// ------------------------------------------------------------------- laws

/// Every step charges between two and seven cycles, never touches the IRQ
/// input line, and never raises an NMI.
#[verifier::rlimit(50)]
pub proof fn lemma_step_cost<B: Bus>(c: Cpu, b: B)
    requires
        c.cycles <= u64::MAX - MAX_STEP_CYCLES,
    ensures
        c.cycles + 2 <= c.step_s(b).0.cycles <= c.cycles + MAX_STEP_CYCLES,
        c.step_s(b).0.irq_line == c.irq_line,
        c.step_s(b).0.nmi_pending ==> c.nmi_pending,
{
    reveal(Cpu::step_s);

}

/// A read-modify-write instruction on memory does what the NMOS part does
/// on the bus: it reads the operand, writes the old value back, then writes
/// the result; Z and N come from the result, and it costs the mode's RMW
/// cycle count.
pub proof fn lemma_rmw_writes_twice<B: Bus>(c: Cpu, op: Op, mode: Mode, b: B)
    requires
        op == Op::Inc || op == Op::Dec || op == Op::Asl || op == Op::Lsr || op == Op::Rol || op == Op::Ror,
        mode != Mode::Acc,
    ensures
        ({
            let (c1, b1, ea, cross) = c.resolve_s(mode, b);
            let v = b1.peek(ea);
            let r = rmw_result(op, c1.p, v).1;
            let (c2, b2) = c.execute_s(op, mode, b);
            &&& b2 == b1.after_read(ea).after_write(ea, v).after_write(ea, r)
            &&& flag(c2.p, FLAG_Z) == (r == 0)
            &&& flag(c2.p, FLAG_N) == (r >= 128)
            &&& c2.cycles == (c1.cycles + rmw_cycle_count(mode)) as u64
        }),
{
    let (c1, b1, ea, cross) = c.resolve_s(mode, b);
    let v = b1.peek(ea);
    let (p1, r) = rmw_result(op, c1.p, v);
    let q = with_zn(p1, r);
    let z = r == 0;
    let n = r >= 128;
    assert(flag(with_flag(with_flag(p1, FLAG_Z, z), FLAG_N, n), FLAG_Z) == z) by (bit_vector);
    assert(flag(with_flag(with_flag(p1, FLAG_Z, z), FLAG_N, n), FLAG_N) == n) by (bit_vector);
}

/// In binary mode SBC is ADC of the operand's ones' complement: the same
/// result and the same flags, carry meaning "no borrow".
pub proof fn lemma_sbc_is_adc_of_complement(a: u8, m: u8, p: u8)
    requires
        !flag(p, FLAG_D),
    ensures
        sbc_result(a, m, p) == adc_result(a, !m, p),
{
    let c = bit(flag(p, FLAG_C));
    let nm: u8 = !m;
    assert(nm as int == 255 - m) by (bit_vector)
        requires
            nm == !m,
    ;
    let sub = a - m - (1 - c);
    let add = a + nm + c;
    assert(add == sub + 256);
    let bb = wrap8(sub);
    assert(wrap8(add) == bb);
    assert(((bb ^ a) & (bb ^ nm) & 0x80u8 != 0) == ((a ^ m) & (a ^ bb) & 0x80u8 != 0)) by (bit_vector)
        requires
            nm == !m,
    ;
    let v = (a ^ m) & (a ^ bb) & 0x80u8 != 0;
    let cy = sub >= 0;
    assert(with_flag(with_flag(p, FLAG_V, v), FLAG_C, cy) == with_flag(with_flag(p, FLAG_C, cy), FLAG_V, v))
        by (bit_vector);
}

/// The value of a packed-BCD byte: two decimal digits, tens in the high
/// nibble.
pub open spec fn bcd_value(v: u8) -> int {
    (v / 16) as int * 10 + (v % 16) as int
}

/// Whether both nibbles of `v` are decimal digits.
pub open spec fn is_bcd(v: u8) -> bool {
    v % 16 <= 9 && v / 16 <= 9
}

proof fn lemma_carry_flag(x: u8, carry: bool, zero: bool)
    ensures
        flag(with_flag(with_flag(x, FLAG_C, carry), FLAG_Z, zero), FLAG_C) == carry,
{
    assert(flag(with_flag(with_flag(x, FLAG_C, carry), FLAG_Z, zero), FLAG_C) == carry) by (bit_vector);
}

proof fn lemma_sbc_carry_kept(p: u8, carry: bool, over: bool, v: u8)
    ensures
        flag(with_zn(with_flag(with_flag(p, FLAG_C, carry), FLAG_V, over), v), FLAG_C) == carry,
{
    let z = v == 0;
    let n = v >= 128;
    assert(flag(
        with_flag(with_flag(with_flag(with_flag(p, FLAG_C, carry), FLAG_V, over), FLAG_Z, z), FLAG_N, n),
        FLAG_C,
    ) == carry) by (bit_vector);
}

/// Decimal-mode ADC adds packed BCD: on valid BCD operands the result is
/// the BCD form of the decimal sum (with carry in) modulo 100, and carry is
/// set exactly when that sum reaches 100.
#[verifier::spinoff_prover]
#[verifier::rlimit(30)]
pub proof fn lemma_decimal_adc(a: u8, m: u8, p: u8)
    requires
        flag(p, FLAG_D),
        is_bcd(a),
        is_bcd(m),
    ensures
        ({
            let (r, q) = adc_result(a, m, p);
            let sum = bcd_value(a) + bcd_value(m) + bit(flag(p, FLAG_C));
            &&& is_bcd(r)
            &&& bcd_value(r) == sum % 100
            &&& flag(q, FLAG_C) == (sum >= 100)
        }),
{
    let c = bit(flag(p, FLAG_C));
    let lo0 = a % 16 + m % 16 + c;
    let lo = if lo0 > 9 {
        lo0 + 6
    } else {
        lo0
    };
    let hi0 = a / 16 * 16 + m / 16 * 16 + lo / 16 * 16;
    let carry = hi0 >= 0xA0;
    let hi = if carry {
        hi0 + 0x60
    } else {
        hi0
    };
    let r = wrap8(hi / 16 % 16 * 16 + lo % 16);
    let sum = bcd_value(a) + bcd_value(m) + c;
    assert(lo / 16 == (if lo0 > 9 { 1int } else { 0int }));
    assert(lo % 16 == (if lo0 > 9 { lo0 - 10 } else { lo0 }));
    assert(hi / 16 % 16 == (if carry { a / 16 + m / 16 + lo / 16 - 10 } else { a / 16 + m / 16
        + lo / 16 }));
    assert(r == hi / 16 % 16 * 16 + lo % 16);
    assert(r / 16 == hi / 16 % 16 && r % 16 == lo % 16);
    assert(carry == (sum >= 100));
    assert(bcd_value(r) == sum % 100);
    let p1 = with_flag(p, FLAG_V, (wrap8(a + m + c) ^ a) & (wrap8(a + m + c) ^ m) & 0x80u8 != 0);
    let p2 = with_flag(p1, FLAG_N, hi0 / 128 % 2 == 1);
    lemma_carry_flag(p2, carry, r == 0);
}

/// Decimal-mode SBC subtracts packed BCD: on valid BCD operands the result
/// is the BCD form of the decimal difference (with borrow in) modulo 100,
/// and carry is set exactly when there is no borrow out.
#[verifier::spinoff_prover]
#[verifier::rlimit(30)]
pub proof fn lemma_decimal_sbc(a: u8, m: u8, p: u8)
    requires
        flag(p, FLAG_D),
        is_bcd(a),
        is_bcd(m),
    ensures
        ({
            let (r, q) = sbc_result(a, m, p);
            let diff = bcd_value(a) - bcd_value(m) - (1 - bit(flag(p, FLAG_C)));
            &&& is_bcd(r)
            &&& bcd_value(r) == diff % 100
            &&& flag(q, FLAG_C) == (diff >= 0)
        }),
{
    let c = bit(flag(p, FLAG_C));
    let ah = (a / 16) as int;
    let al = (a % 16) as int;
    let mh = (m / 16) as int;
    let ml = (m % 16) as int;
    assert(a == 16 * ah + al && m == 16 * mh + ml);
    let al0 = a % 16 - m % 16 + c - 1;
    assert(al0 == al - ml + c - 1);
    let low = if al0 < 0 {
        (al0 - 6) % 16 - 16
    } else {
        al0
    };
    let r0 = a / 16 * 16 - m / 16 * 16 + low;
    let r = if r0 < 0 {
        r0 - 0x60
    } else {
        r0
    };
    let diff = bcd_value(a) - bcd_value(m) - (1 - c);
    assert(diff == 10 * (ah - mh) + al0);
    // The decimal borrow: `d` is the units digit, `t` the tens.
    let (t, d) = if al0 < 0 {
        (ah - mh - 1, al0 + 10)
    } else {
        (ah - mh, al0)
    };
    assert(0 <= d <= 9 && -10 <= t <= 9);
    assert(diff == 10 * t + d);
    if al0 < 0 {
        assert((al0 - 6) % 16 == al0 + 10);
        assert(low == al0 - 6);
    }
    assert(r0 == 16 * t + d);
    if t >= 0 {
        assert(r == 16 * t + d);
        assert(wrap8(r) as int == 16 * t + d);
        assert(diff % 100 == diff);
    } else {
        assert(r == 16 * (t + 10) + d - 256);
        assert(wrap8(r) as int == 16 * (t + 10) + d);
        assert(diff % 100 == diff + 100);
    }
    assert(wrap8(r) / 16 == (if t >= 0 { t } else { t + 10 }));
    assert(wrap8(r) % 16 == d);
    assert(bcd_value(wrap8(r)) == diff % 100);
    let bin = a - m - (1 - c);
    assert(bin == 16 * (ah - mh) + al - ml - (1 - c));
    assert((bin >= 0) == (diff >= 0));
    let bb = wrap8(bin);
    lemma_sbc_carry_kept(p, bin >= 0, (a ^ m) & (a ^ bb) & 0x80u8 != 0, bb);
}

/// Zero-page addressing never leaves page zero: the indexed forms wrap
/// within it.
pub proof fn lemma_zero_page_wraps<B: Bus>(c: Cpu, b: B, mode: Mode)
    requires
        mode == Mode::Zp || mode == Mode::Zpx || mode == Mode::Zpy,
    ensures
        c.resolve_s(mode, b).2 < 0x100,
{
}

/// The stack lives in page one: a push writes, and a pull reads, at
/// `$0100 + S` (the pull after moving S), S wrapping within the page.
pub proof fn lemma_stack_in_page_one<B: Bus>(c: Cpu, b: B, v: u8)
    ensures
        c.push_s(b, v).1 == b.after_write((0x100 + c.s) as u16, v),
        c.push_s(b, v).0.s == wrap8(c.s - 1),
        c.pop_s(b).0.s == wrap8(c.s + 1),
        c.pop_s(b).2 == b.peek((0x100 + wrap8(c.s + 1)) as u16),
{
}


// ------------------------------------------------ instruction semantics

/// Whether `f` is one of the eight status bits.
pub open spec fn status_bit(f: u8) -> bool {
    f == 1 || f == 2 || f == 4 || f == 8 || f == 16 || f == 32 || f == 64 || f == 128
}

proof fn lemma_with_flag_bits(p: u8, f: u8, g: u8, on: bool)
    requires
        status_bit(f),
        status_bit(g),
    ensures
        flag(with_flag(p, f, on), f) == on,
        f != g ==> flag(with_flag(p, f, on), g) == flag(p, g),
{
    assert(flag(with_flag(p, f, on), f) == on && (f != g ==> flag(with_flag(p, f, on), g) == flag(p, g)))
        by (bit_vector)
        requires
            f == 1 || f == 2 || f == 4 || f == 8 || f == 16 || f == 32 || f == 64 || f == 128,
            g == 1 || g == 2 || g == 4 || g == 8 || g == 16 || g == 32 || g == 64 || g == 128,
    ;
}

/// Setting or clearing one status bit sets or clears that bit and leaves
/// every other bit as it was.
pub proof fn lemma_flag_updates()
    ensures
        forall|p: u8, f: u8, g: u8, on: bool|
            status_bit(f) && status_bit(g) ==> #[trigger] flag(with_flag(p, f, on), g) == (if f == g {
                on
            } else {
                flag(p, g)
            }),
{
    assert forall|p: u8, f: u8, g: u8, on: bool| status_bit(f) && status_bit(g) implies #[trigger] flag(
        with_flag(p, f, on),
        g,
    ) == (if f == g {
        on
    } else {
        flag(p, g)
    }) by {
        lemma_with_flag_bits(p, f, g, on);
    }
}

/// An operand-reading instruction in immediate mode: its operand is the byte
/// after the opcode, it takes two cycles, and it leaves the bus untouched
/// but for that read.
pub open spec fn imm_result<B: Bus>(c: Cpu, op: Op, b: B) -> Cpu {
    c.execute_s(op, Mode::Imm, b).0
}

proof fn lemma_imm_read<B: Bus>(c: Cpu, op: Op, b: B)
    requires
        op == Op::Cmp || op == Op::Cpx || op == Op::Cpy || op == Op::Lda || op == Op::Ldx || op == Op::Ldy
            || op == Op::And || op == Op::Ora || op == Op::Eor || op == Op::Bit || op == Op::Adc || op == Op::Sbc,
    ensures
        imm_result(c, op, b) == (Cpu { pc: wrap16(c.pc + 1), ..c }).spend(2).read_op_s(op, b.peek(c.pc)),
{
}

proof fn lemma_compare_flags(q: u8, p: u8, reg: u8, m: u8)
    requires
        q == with_zn(with_flag(p, FLAG_C, (reg >= m)), wrap8(reg - m)),
    ensures
        flag(q, FLAG_C) == (reg >= m) && flag(q, FLAG_Z) == (reg == m),
        flag(q, FLAG_N) == ((reg - m) % 256 >= 128),
        flag(q, FLAG_V) == flag(p, FLAG_V) && flag(q, FLAG_D) == flag(p, FLAG_D) && flag(q, FLAG_I) == flag(p, FLAG_I),
{
    lemma_flag_updates();
    assert(status_bit(FLAG_C) && status_bit(FLAG_Z) && status_bit(FLAG_N) && status_bit(FLAG_V));
    assert(status_bit(FLAG_D) && status_bit(FLAG_I));
}

/// Compares: CMP, CPX and CPY set the flags of the binary subtraction of the
/// operand from the register: carry iff register >= operand (unsigned),
/// zero iff they are equal, negative from bit 7 of the difference mod 256;
/// no register and neither V, I nor D changes.
pub proof fn lemma_compare_semantics<B: Bus>(c: Cpu, b: B)
    ensures
        ({
            let m = b.peek(c.pc);
            let r1 = imm_result(c, Op::Cmp, b);
            let r2 = imm_result(c, Op::Cpx, b);
            let r3 = imm_result(c, Op::Cpy, b);
            &&& flag(r1.p, FLAG_C) == (c.a >= m) && flag(r1.p, FLAG_Z) == (c.a == m)
            &&& flag(r1.p, FLAG_N) == ((c.a - m) % 256 >= 128)
            &&& flag(r2.p, FLAG_C) == (c.x >= m) && flag(r2.p, FLAG_Z) == (c.x == m)
            &&& flag(r2.p, FLAG_N) == ((c.x - m) % 256 >= 128)
            &&& flag(r3.p, FLAG_C) == (c.y >= m) && flag(r3.p, FLAG_Z) == (c.y == m)
            &&& flag(r3.p, FLAG_N) == ((c.y - m) % 256 >= 128)
            &&& r1.a == c.a && r1.x == c.x && r1.y == c.y && r1.s == c.s
            &&& r2.a == c.a && r2.x == c.x && r2.y == c.y && r2.s == c.s
            &&& r3.a == c.a && r3.x == c.x && r3.y == c.y && r3.s == c.s
            &&& flag(r1.p, FLAG_V) == flag(c.p, FLAG_V) && flag(r1.p, FLAG_D) == flag(c.p, FLAG_D)
            &&& flag(r1.p, FLAG_I) == flag(c.p, FLAG_I)
        }),
{
    let m = b.peek(c.pc);
    lemma_imm_read(c, Op::Cmp, b);
    lemma_imm_read(c, Op::Cpx, b);
    lemma_imm_read(c, Op::Cpy, b);
    lemma_compare_flags(imm_result(c, Op::Cmp, b).p, c.p, c.a, m);
    lemma_compare_flags(imm_result(c, Op::Cpx, b).p, c.p, c.x, m);
    lemma_compare_flags(imm_result(c, Op::Cpy, b).p, c.p, c.y, m);
}

/// Loads: LDA, LDX and LDY put the operand in their register and set Z iff
/// it is zero and N from its bit 7, leaving C, V, I and D and the other
/// registers alone; an immediate operand advances PC past itself and costs
/// two cycles.
pub proof fn lemma_load_semantics<B: Bus>(c: Cpu, b: B)
    requires
        c.cycles + 2 <= u64::MAX,
    ensures
        ({
            let m = b.peek(c.pc);
            let r1 = imm_result(c, Op::Lda, b);
            let r2 = imm_result(c, Op::Ldx, b);
            let r3 = imm_result(c, Op::Ldy, b);
            &&& r1.a == m && r1.x == c.x && r1.y == c.y
            &&& r2.x == m && r2.a == c.a && r2.y == c.y
            &&& r3.y == m && r3.a == c.a && r3.x == c.x
            &&& flag(r1.p, FLAG_Z) == (m == 0) && flag(r1.p, FLAG_N) == (m >= 128)
            &&& flag(r2.p, FLAG_Z) == (m == 0) && flag(r2.p, FLAG_N) == (m >= 128)
            &&& flag(r3.p, FLAG_Z) == (m == 0) && flag(r3.p, FLAG_N) == (m >= 128)
            &&& flag(r1.p, FLAG_C) == flag(c.p, FLAG_C) && flag(r1.p, FLAG_V) == flag(c.p, FLAG_V)
            &&& r1.pc == (c.pc + 1) % 65536 && r1.cycles == c.cycles + 2
        }),
{
    lemma_flag_updates();
    assert(status_bit(FLAG_C) && status_bit(FLAG_Z) && status_bit(FLAG_N) && status_bit(FLAG_V));
}

/// Logic: AND, ORA and EOR leave the bitwise and, or and exclusive or of A
/// and the operand in A, with Z iff it is zero and N from its bit 7; BIT
/// leaves A alone and sets Z iff A and the operand share no bit, N from bit
/// 7 and V from bit 6 of the operand.
pub proof fn lemma_logic_semantics<B: Bus>(c: Cpu, b: B)
    ensures
        ({
            let m = b.peek(c.pc);
            let r1 = imm_result(c, Op::And, b);
            let r2 = imm_result(c, Op::Ora, b);
            let r3 = imm_result(c, Op::Eor, b);
            let r4 = imm_result(c, Op::Bit, b);
            &&& r1.a == c.a & m && flag(r1.p, FLAG_Z) == (c.a & m == 0) && flag(r1.p, FLAG_N) == (c.a & m >= 128)
            &&& r2.a == c.a | m && flag(r2.p, FLAG_Z) == (c.a | m == 0) && flag(r2.p, FLAG_N) == (c.a | m >= 128)
            &&& r3.a == c.a ^ m && flag(r3.p, FLAG_Z) == (c.a ^ m == 0) && flag(r3.p, FLAG_N) == (c.a ^ m >= 128)
            &&& r1.x == c.x && r2.y == c.y && flag(r3.p, FLAG_C) == flag(c.p, FLAG_C)
            &&& r4.a == c.a && flag(r4.p, FLAG_Z) == (c.a & m == 0)
            &&& flag(r4.p, FLAG_N) == (m & 0x80 != 0) && flag(r4.p, FLAG_V) == (m & 0x40 != 0)
            &&& flag(r4.p, FLAG_C) == flag(c.p, FLAG_C)
        }),
{
    lemma_flag_updates();
    let m = b.peek(c.pc);
    assert(status_bit(FLAG_C) && status_bit(FLAG_Z) && status_bit(FLAG_N) && status_bit(FLAG_V));
    assert((m >= 128) == (m & 0x80 != 0) && (m / 64 % 2 == 1) == (m & 0x40 != 0)) by (bit_vector);
}

proof fn lemma_add_overflow(a: u8, m: u8, r: u8, cin: u8)
    requires
        cin <= 1,
        r == (a + m + cin) % 256,
    ensures
        ((r ^ a) & (r ^ m) & 0x80u8 != 0) == ((a < 128 && m < 128 && r >= 128) || (a >= 128 && m >= 128 && r < 128)),
{
    assert(((r ^ a) & (r ^ m) & 0x80u8 != 0) == ((a < 128 && m < 128 && r >= 128) || (a >= 128 && m >= 128 && r
        < 128))) by (bit_vector);
}

/// Binary addition: with D clear, ADC leaves A + M + C mod 256 in A, sets
/// carry iff that sum reaches 256, V iff both operands have the same sign
/// and the result the other, Z iff the result is zero and N from its bit 7.
pub proof fn lemma_adc_binary(a: u8, m: u8, p: u8)
    requires
        !flag(p, FLAG_D),
    ensures
        ({
            let cin = if flag(p, FLAG_C) { 1int } else { 0int };
            let (r, q) = adc_result(a, m, p);
            &&& r == (a + m + cin) % 256
            &&& flag(q, FLAG_C) == (a + m + cin >= 256)
            &&& flag(q, FLAG_V) == ((a < 128 && m < 128 && r >= 128) || (a >= 128 && m >= 128 && r < 128))
            &&& flag(q, FLAG_Z) == (r == 0) && flag(q, FLAG_N) == (r >= 128)
            &&& flag(q, FLAG_D) == flag(p, FLAG_D) && flag(q, FLAG_I) == flag(p, FLAG_I)
        }),
{
    lemma_flag_updates();
    assert(status_bit(FLAG_C) && status_bit(FLAG_Z) && status_bit(FLAG_N) && status_bit(FLAG_V));
    assert(status_bit(FLAG_D) && status_bit(FLAG_I));
    let cin: u8 = if flag(p, FLAG_C) { 1 } else { 0 };
    let r = adc_result(a, m, p).0;
    lemma_add_overflow(a, m, r, cin);
}

/// Binary subtraction: with D clear, SBC leaves A - M - (1 - C) mod 256 in
/// A, sets carry iff no borrow (the difference is not negative), V iff A
/// and M have different signs and the result's sign differs from A's, Z iff
/// the result is zero and N from its bit 7.
pub proof fn lemma_sbc_binary(a: u8, m: u8, p: u8)
    requires
        !flag(p, FLAG_D),
    ensures
        ({
            let cin = if flag(p, FLAG_C) { 1int } else { 0int };
            let (r, q) = sbc_result(a, m, p);
            &&& r == (a - m - (1 - cin)) % 256
            &&& flag(q, FLAG_C) == (a - m - (1 - cin) >= 0)
            &&& flag(q, FLAG_V) == ((a < 128 && m >= 128 && r >= 128) || (a >= 128 && m < 128 && r < 128))
            &&& flag(q, FLAG_Z) == (r == 0) && flag(q, FLAG_N) == (r >= 128)
        }),
{
    lemma_sbc_is_adc_of_complement(a, m, p);
    lemma_adc_binary(a, !m, p);
    assert((!m) as int == 255 - m) by (bit_vector);
    assert((!m < 128) == (m >= 128)) by (bit_vector);
}


/// The status bits and interrupt vectors of the NMOS 6502: C, Z, I, D, B,
/// the unused bit, V and N from bit 0 up; NMI at $FFFA, reset at $FFFC,
/// IRQ and BRK at $FFFE.
pub proof fn lemma_status_layout()
    ensures
        FLAG_C == 0x01 && FLAG_Z == 0x02 && FLAG_I == 0x04 && FLAG_D == 0x08,
        FLAG_B == 0x10 && FLAG_U == 0x20 && FLAG_V == 0x40 && FLAG_N == 0x80,
        NMI_VECTOR == 0xFFFA && RESET_VECTOR == 0xFFFC && IRQ_VECTOR == 0xFFFE,
        forall|p: u8| #[trigger] pushed_status(p) == p | 0x30,
        forall|p: u8| #[trigger] irq_status(p) == (p & 0xEF) | 0x20,
        forall|v: u8| #[trigger] pulled_status(v) == (v & 0xEF) | 0x20,
{
    assert forall|p: u8| #[trigger] pushed_status(p) == p | 0x30 by {
        assert(p | 0x10u8 | 0x20u8 == p | 0x30) by (bit_vector);
    }
    assert forall|p: u8| #[trigger] irq_status(p) == (p & 0xEF) | 0x20 by {
        assert(p & !0x10u8 | 0x20u8 == (p & 0xEF) | 0x20) by (bit_vector);
    }
    assert forall|v: u8| #[trigger] pulled_status(v) == (v & 0xEF) | 0x20 by {
        assert(v & !0x10u8 | 0x20u8 == (v & 0xEF) | 0x20) by (bit_vector);
    }
}

/// Shifts and rotates: ASL and ROL shift left, bit 7 into carry, with ROL
/// feeding the old carry into bit 0; LSR and ROR shift right, bit 0 into
/// carry, with ROR feeding the old carry into bit 7; INC and DEC add and
/// subtract one modulo 256 and leave carry alone.
pub proof fn lemma_shift_semantics(p: u8, v: u8)
    ensures
        ({
            let cin: u8 = if p & 1 != 0 { 1 } else { 0 };
            &&& rmw_result(Op::Asl, p, v).1 == v << 1u8 && flag(rmw_result(Op::Asl, p, v).0, FLAG_C) == (v & 0x80 != 0)
            &&& rmw_result(Op::Lsr, p, v).1 == v >> 1u8 && flag(rmw_result(Op::Lsr, p, v).0, FLAG_C) == (v & 1 != 0)
            &&& rmw_result(Op::Rol, p, v).1 == (v << 1u8) | cin
            &&& flag(rmw_result(Op::Rol, p, v).0, FLAG_C) == (v & 0x80 != 0)
            &&& rmw_result(Op::Ror, p, v).1 == (v >> 1u8) | (cin << 7u8)
            &&& flag(rmw_result(Op::Ror, p, v).0, FLAG_C) == (v & 1 != 0)
            &&& rmw_result(Op::Inc, p, v).1 == (v + 1) % 256 && rmw_result(Op::Inc, p, v).0 == p
            &&& rmw_result(Op::Dec, p, v).1 == (v + 255) % 256 && rmw_result(Op::Dec, p, v).0 == p
            &&& forall|g: u8| status_bit(g) && g != 1 ==> #[trigger] flag(rmw_result(Op::Rol, p, v).0, g) == flag(p, g)
        }),
{
    lemma_flag_updates();
    assert(status_bit(FLAG_C));
    let cin: u8 = if p & 1 != 0 { 1 } else { 0 };
    assert(((2 * v) % 256) as u8 == v << 1u8 && (v >= 128) == (v & 0x80 != 0)) by (bit_vector);
    assert(v / 2 == v >> 1u8 && (v % 2 == 1) == (v & 1 != 0)) by (bit_vector);
    assert(cin <= 1 ==> ((2 * v + cin) % 256) as u8 == (v << 1u8) | cin) by (bit_vector);
    assert(cin <= 1 ==> (v / 2 + 128 * cin) as u8 == (v >> 1u8) | (cin << 7u8)) by (bit_vector);
    assert(flag(p, FLAG_C) == (p & 1 != 0));
}

/// The branch conditions: BPL/BMI on N (bit 7), BVC/BVS on V (bit 6),
/// BCC/BCS on C (bit 0), BNE/BEQ on Z (bit 1), the first of each pair taken
/// when the bit is clear.
pub proof fn lemma_branch_conditions(p: u8)
    ensures
        branch_taken(Op::BrPl, p) == (p & 0x80 == 0) && branch_taken(Op::BrMi, p) == (p & 0x80 != 0),
        branch_taken(Op::BrVc, p) == (p & 0x40 == 0) && branch_taken(Op::BrVs, p) == (p & 0x40 != 0),
        branch_taken(Op::BrCc, p) == (p & 0x01 == 0) && branch_taken(Op::BrCs, p) == (p & 0x01 != 0),
        branch_taken(Op::BrNe, p) == (p & 0x02 == 0) && branch_taken(Op::BrEq, p) == (p & 0x02 != 0),
{
}

/// Transfers copy one register into another, setting Z and N from the
/// value copied; TXS alone leaves the flags untouched.
#[verifier::spinoff_prover]
pub proof fn lemma_transfer_ops<B: Bus>(c: Cpu, b: B)
    ensures
        c.execute_s(Op::Tax, Mode::Imp, b).0.x == c.a && c.execute_s(Op::Tay, Mode::Imp, b).0.y == c.a,
        c.execute_s(Op::Txa, Mode::Imp, b).0.a == c.x && c.execute_s(Op::Tya, Mode::Imp, b).0.a == c.y,
        c.execute_s(Op::Tsx, Mode::Imp, b).0.x == c.s && c.execute_s(Op::Txs, Mode::Imp, b).0.s == c.x,
        c.execute_s(Op::Txs, Mode::Imp, b).0.p == c.p,
        flag(c.execute_s(Op::Tax, Mode::Imp, b).0.p, FLAG_Z) == (c.a == 0),
        flag(c.execute_s(Op::Tax, Mode::Imp, b).0.p, FLAG_N) == (c.a >= 128),
{
    lemma_flag_updates();
    assert(status_bit(FLAG_Z) && status_bit(FLAG_N));
}

proof fn lemma_wrap_step(v: u8)
    ensures
        wrap8(v + 1) == (v + 1) % 256,
        wrap8(v - 1) == (v + 255) % 256,
{
    assert(((v + 1) % 256) as u8 == (v + 1) % 256 && ((v - 1) % 256) as u8 == (v + 255) % 256) by (bit_vector);
}

/// Increments and decrements of X and Y wrap modulo 256.
#[verifier::spinoff_prover]
pub proof fn lemma_count_ops<B: Bus>(c: Cpu, b: B)
    ensures
        c.execute_s(Op::Inx, Mode::Imp, b).0.x == (c.x + 1) % 256,
        c.execute_s(Op::Iny, Mode::Imp, b).0.y == (c.y + 1) % 256,
        c.execute_s(Op::Dex, Mode::Imp, b).0.x == (c.x + 255) % 256,
        c.execute_s(Op::Dey, Mode::Imp, b).0.y == (c.y + 255) % 256,
{
    lemma_wrap_step(c.x);
    lemma_wrap_step(c.y);
}

/// The flag instructions clear or set exactly their own bit: C (CLC/SEC),
/// I (CLI/SEI), D (CLD/SED) and V (CLV).
#[verifier::spinoff_prover]
pub proof fn lemma_flag_ops<B: Bus>(c: Cpu, b: B)
    ensures
        c.execute_s(Op::Clc, Mode::Imp, b).0.p == c.p & 0xFE && c.execute_s(Op::Sec, Mode::Imp, b).0.p == c.p | 0x01,
        c.execute_s(Op::Cli, Mode::Imp, b).0.p == c.p & 0xFB && c.execute_s(Op::Sei, Mode::Imp, b).0.p == c.p | 0x04,
        c.execute_s(Op::Cld, Mode::Imp, b).0.p == c.p & 0xF7 && c.execute_s(Op::Sed, Mode::Imp, b).0.p == c.p | 0x08,
        c.execute_s(Op::Clv, Mode::Imp, b).0.p == c.p & 0xBF,
{
    let p = c.p;
    assert(p & !1u8 == p & 0xFE && p & !4u8 == p & 0xFB && p & !8u8 == p & 0xF7 && p & !0x40u8 == p & 0xBF)
        by (bit_vector);
}
} // verus!
