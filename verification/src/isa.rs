//! The 6502 instruction set: opcodes, addressing modes and timing tables,
//! shared by the CPU core, the disassembler and the assembler.

use vstd::prelude::*;

verus! {

/// Addressing modes of the NMOS 6502.
#[derive(Clone, Copy, PartialEq, Eq, Debug, Structural)]
pub enum Mode {
    Imp,
    Acc,
    Imm,
    Zp,
    Zpx,
    Zpy,
    Abs,
    Abx,
    Aby,
    Ind,
    Izx,
    Izy,
    Rel,
}

/// Operations of the NMOS 6502 (the eight conditional branches are spelled out).
#[derive(Clone, Copy, PartialEq, Eq, Debug, Structural)]
pub enum Op {
    Lda, Ldx, Ldy, Sta, Stx, Sty,
    Adc, Sbc, And, Ora, Eor, Cmp, Cpx, Cpy,
    Inc, Dec, Asl, Lsr, Rol, Ror, Bit,
    Jmp, Jsr, Rts, Rti,
    BrPl, BrMi, BrVc, BrVs, BrCc, BrCs, BrNe, BrEq,
    Inx, Iny, Dex, Dey,
    Tax, Tay, Txa, Tya, Tsx, Txs,
    Pha, Php, Pla, Plp,
    Clc, Sec, Cli, Sei, Cld, Sed, Clv,
    Brk, Nop,
}

/// The opcode table. The stable undocumented opcodes decode to NOPs that
/// still consume their operands; every other unassigned byte is a one-byte NOP.
pub open spec fn decoded(opcode: u8) -> (Op, Mode) {
    match opcode {
        0xA9 => (Op::Lda, Mode::Imm),
        0xA5 => (Op::Lda, Mode::Zp),
        0xB5 => (Op::Lda, Mode::Zpx),
        0xAD => (Op::Lda, Mode::Abs),
        0xBD => (Op::Lda, Mode::Abx),
        0xB9 => (Op::Lda, Mode::Aby),
        0xA1 => (Op::Lda, Mode::Izx),
        0xB1 => (Op::Lda, Mode::Izy),
        0xA2 => (Op::Ldx, Mode::Imm),
        0xA6 => (Op::Ldx, Mode::Zp),
        0xB6 => (Op::Ldx, Mode::Zpy),
        0xAE => (Op::Ldx, Mode::Abs),
        0xBE => (Op::Ldx, Mode::Aby),
        0xA0 => (Op::Ldy, Mode::Imm),
        0xA4 => (Op::Ldy, Mode::Zp),
        0xB4 => (Op::Ldy, Mode::Zpx),
        0xAC => (Op::Ldy, Mode::Abs),
        0xBC => (Op::Ldy, Mode::Abx),
        0x85 => (Op::Sta, Mode::Zp),
        0x95 => (Op::Sta, Mode::Zpx),
        0x8D => (Op::Sta, Mode::Abs),
        0x9D => (Op::Sta, Mode::Abx),
        0x99 => (Op::Sta, Mode::Aby),
        0x81 => (Op::Sta, Mode::Izx),
        0x91 => (Op::Sta, Mode::Izy),
        0x86 => (Op::Stx, Mode::Zp),
        0x96 => (Op::Stx, Mode::Zpy),
        0x8E => (Op::Stx, Mode::Abs),
        0x84 => (Op::Sty, Mode::Zp),
        0x94 => (Op::Sty, Mode::Zpx),
        0x8C => (Op::Sty, Mode::Abs),
        0x69 => (Op::Adc, Mode::Imm),
        0x65 => (Op::Adc, Mode::Zp),
        0x75 => (Op::Adc, Mode::Zpx),
        0x6D => (Op::Adc, Mode::Abs),
        0x7D => (Op::Adc, Mode::Abx),
        0x79 => (Op::Adc, Mode::Aby),
        0x61 => (Op::Adc, Mode::Izx),
        0x71 => (Op::Adc, Mode::Izy),
        0xE9 => (Op::Sbc, Mode::Imm),
        0xE5 => (Op::Sbc, Mode::Zp),
        0xF5 => (Op::Sbc, Mode::Zpx),
        0xED => (Op::Sbc, Mode::Abs),
        0xFD => (Op::Sbc, Mode::Abx),
        0xF9 => (Op::Sbc, Mode::Aby),
        0xE1 => (Op::Sbc, Mode::Izx),
        0xF1 => (Op::Sbc, Mode::Izy),
        0x29 => (Op::And, Mode::Imm),
        0x25 => (Op::And, Mode::Zp),
        0x35 => (Op::And, Mode::Zpx),
        0x2D => (Op::And, Mode::Abs),
        0x3D => (Op::And, Mode::Abx),
        0x39 => (Op::And, Mode::Aby),
        0x21 => (Op::And, Mode::Izx),
        0x31 => (Op::And, Mode::Izy),
        0x09 => (Op::Ora, Mode::Imm),
        0x05 => (Op::Ora, Mode::Zp),
        0x15 => (Op::Ora, Mode::Zpx),
        0x0D => (Op::Ora, Mode::Abs),
        0x1D => (Op::Ora, Mode::Abx),
        0x19 => (Op::Ora, Mode::Aby),
        0x01 => (Op::Ora, Mode::Izx),
        0x11 => (Op::Ora, Mode::Izy),
        0x49 => (Op::Eor, Mode::Imm),
        0x45 => (Op::Eor, Mode::Zp),
        0x55 => (Op::Eor, Mode::Zpx),
        0x4D => (Op::Eor, Mode::Abs),
        0x5D => (Op::Eor, Mode::Abx),
        0x59 => (Op::Eor, Mode::Aby),
        0x41 => (Op::Eor, Mode::Izx),
        0x51 => (Op::Eor, Mode::Izy),
        0xC9 => (Op::Cmp, Mode::Imm),
        0xC5 => (Op::Cmp, Mode::Zp),
        0xD5 => (Op::Cmp, Mode::Zpx),
        0xCD => (Op::Cmp, Mode::Abs),
        0xDD => (Op::Cmp, Mode::Abx),
        0xD9 => (Op::Cmp, Mode::Aby),
        0xC1 => (Op::Cmp, Mode::Izx),
        0xD1 => (Op::Cmp, Mode::Izy),
        0xE0 => (Op::Cpx, Mode::Imm),
        0xE4 => (Op::Cpx, Mode::Zp),
        0xEC => (Op::Cpx, Mode::Abs),
        0xC0 => (Op::Cpy, Mode::Imm),
        0xC4 => (Op::Cpy, Mode::Zp),
        0xCC => (Op::Cpy, Mode::Abs),
        0xE6 => (Op::Inc, Mode::Zp),
        0xF6 => (Op::Inc, Mode::Zpx),
        0xEE => (Op::Inc, Mode::Abs),
        0xFE => (Op::Inc, Mode::Abx),
        0xC6 => (Op::Dec, Mode::Zp),
        0xD6 => (Op::Dec, Mode::Zpx),
        0xCE => (Op::Dec, Mode::Abs),
        0xDE => (Op::Dec, Mode::Abx),
        0x0A => (Op::Asl, Mode::Acc),
        0x06 => (Op::Asl, Mode::Zp),
        0x16 => (Op::Asl, Mode::Zpx),
        0x0E => (Op::Asl, Mode::Abs),
        0x1E => (Op::Asl, Mode::Abx),
        0x4A => (Op::Lsr, Mode::Acc),
        0x46 => (Op::Lsr, Mode::Zp),
        0x56 => (Op::Lsr, Mode::Zpx),
        0x4E => (Op::Lsr, Mode::Abs),
        0x5E => (Op::Lsr, Mode::Abx),
        0x2A => (Op::Rol, Mode::Acc),
        0x26 => (Op::Rol, Mode::Zp),
        0x36 => (Op::Rol, Mode::Zpx),
        0x2E => (Op::Rol, Mode::Abs),
        0x3E => (Op::Rol, Mode::Abx),
        0x6A => (Op::Ror, Mode::Acc),
        0x66 => (Op::Ror, Mode::Zp),
        0x76 => (Op::Ror, Mode::Zpx),
        0x6E => (Op::Ror, Mode::Abs),
        0x7E => (Op::Ror, Mode::Abx),
        0x24 => (Op::Bit, Mode::Zp),
        0x2C => (Op::Bit, Mode::Abs),
        0x4C => (Op::Jmp, Mode::Abs),
        0x6C => (Op::Jmp, Mode::Ind),
        0x20 => (Op::Jsr, Mode::Abs),
        0x60 => (Op::Rts, Mode::Imp),
        0x40 => (Op::Rti, Mode::Imp),
        0x10 => (Op::BrPl, Mode::Rel),
        0x30 => (Op::BrMi, Mode::Rel),
        0x50 => (Op::BrVc, Mode::Rel),
        0x70 => (Op::BrVs, Mode::Rel),
        0x90 => (Op::BrCc, Mode::Rel),
        0xB0 => (Op::BrCs, Mode::Rel),
        0xD0 => (Op::BrNe, Mode::Rel),
        0xF0 => (Op::BrEq, Mode::Rel),
        0xE8 => (Op::Inx, Mode::Imp),
        0xC8 => (Op::Iny, Mode::Imp),
        0xCA => (Op::Dex, Mode::Imp),
        0x88 => (Op::Dey, Mode::Imp),
        0xAA => (Op::Tax, Mode::Imp),
        0xA8 => (Op::Tay, Mode::Imp),
        0x8A => (Op::Txa, Mode::Imp),
        0x98 => (Op::Tya, Mode::Imp),
        0xBA => (Op::Tsx, Mode::Imp),
        0x9A => (Op::Txs, Mode::Imp),
        0x48 => (Op::Pha, Mode::Imp),
        0x08 => (Op::Php, Mode::Imp),
        0x68 => (Op::Pla, Mode::Imp),
        0x28 => (Op::Plp, Mode::Imp),
        0x18 => (Op::Clc, Mode::Imp),
        0x38 => (Op::Sec, Mode::Imp),
        0x58 => (Op::Cli, Mode::Imp),
        0x78 => (Op::Sei, Mode::Imp),
        0xD8 => (Op::Cld, Mode::Imp),
        0xF8 => (Op::Sed, Mode::Imp),
        0xB8 => (Op::Clv, Mode::Imp),
        0x00 => (Op::Brk, Mode::Imp),
        0xEA => (Op::Nop, Mode::Imp),
        0x80 | 0x82 | 0x89 | 0xC2 | 0xE2 => (Op::Nop, Mode::Imm),
        0x04 | 0x44 | 0x64 => (Op::Nop, Mode::Zp),
        0x14 | 0x34 | 0x54 | 0x74 | 0xD4 | 0xF4 => (Op::Nop, Mode::Zpx),
        0x0C => (Op::Nop, Mode::Abs),
        0x1C | 0x3C | 0x5C | 0x7C | 0xDC | 0xFC => (Op::Nop, Mode::Abx),
        _ => (Op::Nop, Mode::Imp),
    }
}

/// An opcode is official when it is one of the 151 documented NMOS opcodes:
/// everything that decodes to a real operation, plus the canonical NOP $EA.
pub open spec fn official(opcode: u8) -> bool {
    decoded(opcode).0 != Op::Nop || opcode == 0xEA
}

/// The canonical (official) opcode of an operation in a mode, if any.
pub open spec fn encoding(op: Op, mode: Mode) -> Option<u8> {
    match (op, mode) {
        (Op::Lda, Mode::Imm) => Some(0xA9u8),
        (Op::Lda, Mode::Zp) => Some(0xA5u8),
        (Op::Lda, Mode::Zpx) => Some(0xB5u8),
        (Op::Lda, Mode::Abs) => Some(0xADu8),
        (Op::Lda, Mode::Abx) => Some(0xBDu8),
        (Op::Lda, Mode::Aby) => Some(0xB9u8),
        (Op::Lda, Mode::Izx) => Some(0xA1u8),
        (Op::Lda, Mode::Izy) => Some(0xB1u8),
        (Op::Ldx, Mode::Imm) => Some(0xA2u8),
        (Op::Ldx, Mode::Zp) => Some(0xA6u8),
        (Op::Ldx, Mode::Zpy) => Some(0xB6u8),
        (Op::Ldx, Mode::Abs) => Some(0xAEu8),
        (Op::Ldx, Mode::Aby) => Some(0xBEu8),
        (Op::Ldy, Mode::Imm) => Some(0xA0u8),
        (Op::Ldy, Mode::Zp) => Some(0xA4u8),
        (Op::Ldy, Mode::Zpx) => Some(0xB4u8),
        (Op::Ldy, Mode::Abs) => Some(0xACu8),
        (Op::Ldy, Mode::Abx) => Some(0xBCu8),
        (Op::Sta, Mode::Zp) => Some(0x85u8),
        (Op::Sta, Mode::Zpx) => Some(0x95u8),
        (Op::Sta, Mode::Abs) => Some(0x8Du8),
        (Op::Sta, Mode::Abx) => Some(0x9Du8),
        (Op::Sta, Mode::Aby) => Some(0x99u8),
        (Op::Sta, Mode::Izx) => Some(0x81u8),
        (Op::Sta, Mode::Izy) => Some(0x91u8),
        (Op::Stx, Mode::Zp) => Some(0x86u8),
        (Op::Stx, Mode::Zpy) => Some(0x96u8),
        (Op::Stx, Mode::Abs) => Some(0x8Eu8),
        (Op::Sty, Mode::Zp) => Some(0x84u8),
        (Op::Sty, Mode::Zpx) => Some(0x94u8),
        (Op::Sty, Mode::Abs) => Some(0x8Cu8),
        (Op::Adc, Mode::Imm) => Some(0x69u8),
        (Op::Adc, Mode::Zp) => Some(0x65u8),
        (Op::Adc, Mode::Zpx) => Some(0x75u8),
        (Op::Adc, Mode::Abs) => Some(0x6Du8),
        (Op::Adc, Mode::Abx) => Some(0x7Du8),
        (Op::Adc, Mode::Aby) => Some(0x79u8),
        (Op::Adc, Mode::Izx) => Some(0x61u8),
        (Op::Adc, Mode::Izy) => Some(0x71u8),
        (Op::Sbc, Mode::Imm) => Some(0xE9u8),
        (Op::Sbc, Mode::Zp) => Some(0xE5u8),
        (Op::Sbc, Mode::Zpx) => Some(0xF5u8),
        (Op::Sbc, Mode::Abs) => Some(0xEDu8),
        (Op::Sbc, Mode::Abx) => Some(0xFDu8),
        (Op::Sbc, Mode::Aby) => Some(0xF9u8),
        (Op::Sbc, Mode::Izx) => Some(0xE1u8),
        (Op::Sbc, Mode::Izy) => Some(0xF1u8),
        (Op::And, Mode::Imm) => Some(0x29u8),
        (Op::And, Mode::Zp) => Some(0x25u8),
        (Op::And, Mode::Zpx) => Some(0x35u8),
        (Op::And, Mode::Abs) => Some(0x2Du8),
        (Op::And, Mode::Abx) => Some(0x3Du8),
        (Op::And, Mode::Aby) => Some(0x39u8),
        (Op::And, Mode::Izx) => Some(0x21u8),
        (Op::And, Mode::Izy) => Some(0x31u8),
        (Op::Ora, Mode::Imm) => Some(0x09u8),
        (Op::Ora, Mode::Zp) => Some(0x05u8),
        (Op::Ora, Mode::Zpx) => Some(0x15u8),
        (Op::Ora, Mode::Abs) => Some(0x0Du8),
        (Op::Ora, Mode::Abx) => Some(0x1Du8),
        (Op::Ora, Mode::Aby) => Some(0x19u8),
        (Op::Ora, Mode::Izx) => Some(0x01u8),
        (Op::Ora, Mode::Izy) => Some(0x11u8),
        (Op::Eor, Mode::Imm) => Some(0x49u8),
        (Op::Eor, Mode::Zp) => Some(0x45u8),
        (Op::Eor, Mode::Zpx) => Some(0x55u8),
        (Op::Eor, Mode::Abs) => Some(0x4Du8),
        (Op::Eor, Mode::Abx) => Some(0x5Du8),
        (Op::Eor, Mode::Aby) => Some(0x59u8),
        (Op::Eor, Mode::Izx) => Some(0x41u8),
        (Op::Eor, Mode::Izy) => Some(0x51u8),
        (Op::Cmp, Mode::Imm) => Some(0xC9u8),
        (Op::Cmp, Mode::Zp) => Some(0xC5u8),
        (Op::Cmp, Mode::Zpx) => Some(0xD5u8),
        (Op::Cmp, Mode::Abs) => Some(0xCDu8),
        (Op::Cmp, Mode::Abx) => Some(0xDDu8),
        (Op::Cmp, Mode::Aby) => Some(0xD9u8),
        (Op::Cmp, Mode::Izx) => Some(0xC1u8),
        (Op::Cmp, Mode::Izy) => Some(0xD1u8),
        (Op::Cpx, Mode::Imm) => Some(0xE0u8),
        (Op::Cpx, Mode::Zp) => Some(0xE4u8),
        (Op::Cpx, Mode::Abs) => Some(0xECu8),
        (Op::Cpy, Mode::Imm) => Some(0xC0u8),
        (Op::Cpy, Mode::Zp) => Some(0xC4u8),
        (Op::Cpy, Mode::Abs) => Some(0xCCu8),
        (Op::Inc, Mode::Zp) => Some(0xE6u8),
        (Op::Inc, Mode::Zpx) => Some(0xF6u8),
        (Op::Inc, Mode::Abs) => Some(0xEEu8),
        (Op::Inc, Mode::Abx) => Some(0xFEu8),
        (Op::Dec, Mode::Zp) => Some(0xC6u8),
        (Op::Dec, Mode::Zpx) => Some(0xD6u8),
        (Op::Dec, Mode::Abs) => Some(0xCEu8),
        (Op::Dec, Mode::Abx) => Some(0xDEu8),
        (Op::Asl, Mode::Acc) => Some(0x0Au8),
        (Op::Asl, Mode::Zp) => Some(0x06u8),
        (Op::Asl, Mode::Zpx) => Some(0x16u8),
        (Op::Asl, Mode::Abs) => Some(0x0Eu8),
        (Op::Asl, Mode::Abx) => Some(0x1Eu8),
        (Op::Lsr, Mode::Acc) => Some(0x4Au8),
        (Op::Lsr, Mode::Zp) => Some(0x46u8),
        (Op::Lsr, Mode::Zpx) => Some(0x56u8),
        (Op::Lsr, Mode::Abs) => Some(0x4Eu8),
        (Op::Lsr, Mode::Abx) => Some(0x5Eu8),
        (Op::Rol, Mode::Acc) => Some(0x2Au8),
        (Op::Rol, Mode::Zp) => Some(0x26u8),
        (Op::Rol, Mode::Zpx) => Some(0x36u8),
        (Op::Rol, Mode::Abs) => Some(0x2Eu8),
        (Op::Rol, Mode::Abx) => Some(0x3Eu8),
        (Op::Ror, Mode::Acc) => Some(0x6Au8),
        (Op::Ror, Mode::Zp) => Some(0x66u8),
        (Op::Ror, Mode::Zpx) => Some(0x76u8),
        (Op::Ror, Mode::Abs) => Some(0x6Eu8),
        (Op::Ror, Mode::Abx) => Some(0x7Eu8),
        (Op::Bit, Mode::Zp) => Some(0x24u8),
        (Op::Bit, Mode::Abs) => Some(0x2Cu8),
        (Op::Jmp, Mode::Abs) => Some(0x4Cu8),
        (Op::Jmp, Mode::Ind) => Some(0x6Cu8),
        (Op::Jsr, Mode::Abs) => Some(0x20u8),
        (Op::Rts, Mode::Imp) => Some(0x60u8),
        (Op::Rti, Mode::Imp) => Some(0x40u8),
        (Op::BrPl, Mode::Rel) => Some(0x10u8),
        (Op::BrMi, Mode::Rel) => Some(0x30u8),
        (Op::BrVc, Mode::Rel) => Some(0x50u8),
        (Op::BrVs, Mode::Rel) => Some(0x70u8),
        (Op::BrCc, Mode::Rel) => Some(0x90u8),
        (Op::BrCs, Mode::Rel) => Some(0xB0u8),
        (Op::BrNe, Mode::Rel) => Some(0xD0u8),
        (Op::BrEq, Mode::Rel) => Some(0xF0u8),
        (Op::Inx, Mode::Imp) => Some(0xE8u8),
        (Op::Iny, Mode::Imp) => Some(0xC8u8),
        (Op::Dex, Mode::Imp) => Some(0xCAu8),
        (Op::Dey, Mode::Imp) => Some(0x88u8),
        (Op::Tax, Mode::Imp) => Some(0xAAu8),
        (Op::Tay, Mode::Imp) => Some(0xA8u8),
        (Op::Txa, Mode::Imp) => Some(0x8Au8),
        (Op::Tya, Mode::Imp) => Some(0x98u8),
        (Op::Tsx, Mode::Imp) => Some(0xBAu8),
        (Op::Txs, Mode::Imp) => Some(0x9Au8),
        (Op::Pha, Mode::Imp) => Some(0x48u8),
        (Op::Php, Mode::Imp) => Some(0x08u8),
        (Op::Pla, Mode::Imp) => Some(0x68u8),
        (Op::Plp, Mode::Imp) => Some(0x28u8),
        (Op::Clc, Mode::Imp) => Some(0x18u8),
        (Op::Sec, Mode::Imp) => Some(0x38u8),
        (Op::Cli, Mode::Imp) => Some(0x58u8),
        (Op::Sei, Mode::Imp) => Some(0x78u8),
        (Op::Cld, Mode::Imp) => Some(0xD8u8),
        (Op::Sed, Mode::Imp) => Some(0xF8u8),
        (Op::Clv, Mode::Imp) => Some(0xB8u8),
        (Op::Brk, Mode::Imp) => Some(0x00u8),
        (Op::Nop, Mode::Imp) => Some(0xEAu8),
        _ => None,
    }
}

/// Total byte length of an instruction (opcode plus operand) in a mode.
pub open spec fn len_of(mode: Mode) -> u8 {
    match mode {
        Mode::Imp | Mode::Acc => 1,
        Mode::Imm | Mode::Zp | Mode::Zpx | Mode::Zpy | Mode::Izx | Mode::Izy | Mode::Rel => 2,
        Mode::Abs | Mode::Abx | Mode::Aby | Mode::Ind => 3,
    }
}

/// Base cycles of an operand-reading instruction (before the page-cross penalty).
pub open spec fn read_cycle_count(mode: Mode) -> u64 {
    match mode {
        Mode::Imm => 2,
        Mode::Zp => 3,
        Mode::Zpx | Mode::Zpy => 4,
        Mode::Abs => 4,
        Mode::Abx | Mode::Aby => 4,
        Mode::Izx => 6,
        Mode::Izy => 5,
        _ => 2,
    }
}

/// Cycles of a store in a mode (indexed stores never take a page-cross penalty).
pub open spec fn store_cycle_count(mode: Mode) -> u64 {
    match mode {
        Mode::Zp => 3,
        Mode::Zpx | Mode::Zpy => 4,
        Mode::Abs => 4,
        Mode::Abx | Mode::Aby => 5,
        Mode::Izx => 6,
        Mode::Izy => 6,
        _ => 2,
    }
}

/// Cycles of a read-modify-write instruction in a mode.
pub open spec fn rmw_cycle_count(mode: Mode) -> u64 {
    match mode {
        Mode::Acc => 2,
        Mode::Zp => 5,
        Mode::Zpx | Mode::Zpy => 6,
        Mode::Abs => 6,
        Mode::Abx | Mode::Aby => 7,
        _ => 2,
    }
}

/// Decode an opcode byte into its operation and addressing mode.
pub fn decode(opcode: u8) -> (r: (Op, Mode))
    ensures
        r == decoded(opcode),
{
    match opcode {
        0xA9 => (Op::Lda, Mode::Imm),
        0xA5 => (Op::Lda, Mode::Zp),
        0xB5 => (Op::Lda, Mode::Zpx),
        0xAD => (Op::Lda, Mode::Abs),
        0xBD => (Op::Lda, Mode::Abx),
        0xB9 => (Op::Lda, Mode::Aby),
        0xA1 => (Op::Lda, Mode::Izx),
        0xB1 => (Op::Lda, Mode::Izy),
        0xA2 => (Op::Ldx, Mode::Imm),
        0xA6 => (Op::Ldx, Mode::Zp),
        0xB6 => (Op::Ldx, Mode::Zpy),
        0xAE => (Op::Ldx, Mode::Abs),
        0xBE => (Op::Ldx, Mode::Aby),
        0xA0 => (Op::Ldy, Mode::Imm),
        0xA4 => (Op::Ldy, Mode::Zp),
        0xB4 => (Op::Ldy, Mode::Zpx),
        0xAC => (Op::Ldy, Mode::Abs),
        0xBC => (Op::Ldy, Mode::Abx),
        0x85 => (Op::Sta, Mode::Zp),
        0x95 => (Op::Sta, Mode::Zpx),
        0x8D => (Op::Sta, Mode::Abs),
        0x9D => (Op::Sta, Mode::Abx),
        0x99 => (Op::Sta, Mode::Aby),
        0x81 => (Op::Sta, Mode::Izx),
        0x91 => (Op::Sta, Mode::Izy),
        0x86 => (Op::Stx, Mode::Zp),
        0x96 => (Op::Stx, Mode::Zpy),
        0x8E => (Op::Stx, Mode::Abs),
        0x84 => (Op::Sty, Mode::Zp),
        0x94 => (Op::Sty, Mode::Zpx),
        0x8C => (Op::Sty, Mode::Abs),
        0x69 => (Op::Adc, Mode::Imm),
        0x65 => (Op::Adc, Mode::Zp),
        0x75 => (Op::Adc, Mode::Zpx),
        0x6D => (Op::Adc, Mode::Abs),
        0x7D => (Op::Adc, Mode::Abx),
        0x79 => (Op::Adc, Mode::Aby),
        0x61 => (Op::Adc, Mode::Izx),
        0x71 => (Op::Adc, Mode::Izy),
        0xE9 => (Op::Sbc, Mode::Imm),
        0xE5 => (Op::Sbc, Mode::Zp),
        0xF5 => (Op::Sbc, Mode::Zpx),
        0xED => (Op::Sbc, Mode::Abs),
        0xFD => (Op::Sbc, Mode::Abx),
        0xF9 => (Op::Sbc, Mode::Aby),
        0xE1 => (Op::Sbc, Mode::Izx),
        0xF1 => (Op::Sbc, Mode::Izy),
        0x29 => (Op::And, Mode::Imm),
        0x25 => (Op::And, Mode::Zp),
        0x35 => (Op::And, Mode::Zpx),
        0x2D => (Op::And, Mode::Abs),
        0x3D => (Op::And, Mode::Abx),
        0x39 => (Op::And, Mode::Aby),
        0x21 => (Op::And, Mode::Izx),
        0x31 => (Op::And, Mode::Izy),
        0x09 => (Op::Ora, Mode::Imm),
        0x05 => (Op::Ora, Mode::Zp),
        0x15 => (Op::Ora, Mode::Zpx),
        0x0D => (Op::Ora, Mode::Abs),
        0x1D => (Op::Ora, Mode::Abx),
        0x19 => (Op::Ora, Mode::Aby),
        0x01 => (Op::Ora, Mode::Izx),
        0x11 => (Op::Ora, Mode::Izy),
        0x49 => (Op::Eor, Mode::Imm),
        0x45 => (Op::Eor, Mode::Zp),
        0x55 => (Op::Eor, Mode::Zpx),
        0x4D => (Op::Eor, Mode::Abs),
        0x5D => (Op::Eor, Mode::Abx),
        0x59 => (Op::Eor, Mode::Aby),
        0x41 => (Op::Eor, Mode::Izx),
        0x51 => (Op::Eor, Mode::Izy),
        0xC9 => (Op::Cmp, Mode::Imm),
        0xC5 => (Op::Cmp, Mode::Zp),
        0xD5 => (Op::Cmp, Mode::Zpx),
        0xCD => (Op::Cmp, Mode::Abs),
        0xDD => (Op::Cmp, Mode::Abx),
        0xD9 => (Op::Cmp, Mode::Aby),
        0xC1 => (Op::Cmp, Mode::Izx),
        0xD1 => (Op::Cmp, Mode::Izy),
        0xE0 => (Op::Cpx, Mode::Imm),
        0xE4 => (Op::Cpx, Mode::Zp),
        0xEC => (Op::Cpx, Mode::Abs),
        0xC0 => (Op::Cpy, Mode::Imm),
        0xC4 => (Op::Cpy, Mode::Zp),
        0xCC => (Op::Cpy, Mode::Abs),
        0xE6 => (Op::Inc, Mode::Zp),
        0xF6 => (Op::Inc, Mode::Zpx),
        0xEE => (Op::Inc, Mode::Abs),
        0xFE => (Op::Inc, Mode::Abx),
        0xC6 => (Op::Dec, Mode::Zp),
        0xD6 => (Op::Dec, Mode::Zpx),
        0xCE => (Op::Dec, Mode::Abs),
        0xDE => (Op::Dec, Mode::Abx),
        0x0A => (Op::Asl, Mode::Acc),
        0x06 => (Op::Asl, Mode::Zp),
        0x16 => (Op::Asl, Mode::Zpx),
        0x0E => (Op::Asl, Mode::Abs),
        0x1E => (Op::Asl, Mode::Abx),
        0x4A => (Op::Lsr, Mode::Acc),
        0x46 => (Op::Lsr, Mode::Zp),
        0x56 => (Op::Lsr, Mode::Zpx),
        0x4E => (Op::Lsr, Mode::Abs),
        0x5E => (Op::Lsr, Mode::Abx),
        0x2A => (Op::Rol, Mode::Acc),
        0x26 => (Op::Rol, Mode::Zp),
        0x36 => (Op::Rol, Mode::Zpx),
        0x2E => (Op::Rol, Mode::Abs),
        0x3E => (Op::Rol, Mode::Abx),
        0x6A => (Op::Ror, Mode::Acc),
        0x66 => (Op::Ror, Mode::Zp),
        0x76 => (Op::Ror, Mode::Zpx),
        0x6E => (Op::Ror, Mode::Abs),
        0x7E => (Op::Ror, Mode::Abx),
        0x24 => (Op::Bit, Mode::Zp),
        0x2C => (Op::Bit, Mode::Abs),
        0x4C => (Op::Jmp, Mode::Abs),
        0x6C => (Op::Jmp, Mode::Ind),
        0x20 => (Op::Jsr, Mode::Abs),
        0x60 => (Op::Rts, Mode::Imp),
        0x40 => (Op::Rti, Mode::Imp),
        0x10 => (Op::BrPl, Mode::Rel),
        0x30 => (Op::BrMi, Mode::Rel),
        0x50 => (Op::BrVc, Mode::Rel),
        0x70 => (Op::BrVs, Mode::Rel),
        0x90 => (Op::BrCc, Mode::Rel),
        0xB0 => (Op::BrCs, Mode::Rel),
        0xD0 => (Op::BrNe, Mode::Rel),
        0xF0 => (Op::BrEq, Mode::Rel),
        0xE8 => (Op::Inx, Mode::Imp),
        0xC8 => (Op::Iny, Mode::Imp),
        0xCA => (Op::Dex, Mode::Imp),
        0x88 => (Op::Dey, Mode::Imp),
        0xAA => (Op::Tax, Mode::Imp),
        0xA8 => (Op::Tay, Mode::Imp),
        0x8A => (Op::Txa, Mode::Imp),
        0x98 => (Op::Tya, Mode::Imp),
        0xBA => (Op::Tsx, Mode::Imp),
        0x9A => (Op::Txs, Mode::Imp),
        0x48 => (Op::Pha, Mode::Imp),
        0x08 => (Op::Php, Mode::Imp),
        0x68 => (Op::Pla, Mode::Imp),
        0x28 => (Op::Plp, Mode::Imp),
        0x18 => (Op::Clc, Mode::Imp),
        0x38 => (Op::Sec, Mode::Imp),
        0x58 => (Op::Cli, Mode::Imp),
        0x78 => (Op::Sei, Mode::Imp),
        0xD8 => (Op::Cld, Mode::Imp),
        0xF8 => (Op::Sed, Mode::Imp),
        0xB8 => (Op::Clv, Mode::Imp),
        0x00 => (Op::Brk, Mode::Imp),
        0xEA => (Op::Nop, Mode::Imp),
        0x80 | 0x82 | 0x89 | 0xC2 | 0xE2 => (Op::Nop, Mode::Imm),
        0x04 | 0x44 | 0x64 => (Op::Nop, Mode::Zp),
        0x14 | 0x34 | 0x54 | 0x74 | 0xD4 | 0xF4 => (Op::Nop, Mode::Zpx),
        0x0C => (Op::Nop, Mode::Abs),
        0x1C | 0x3C | 0x5C | 0x7C | 0xDC | 0xFC => (Op::Nop, Mode::Abx),
        _ => (Op::Nop, Mode::Imp),
    }
}

/// The canonical opcode for `op` in `mode`, or `None` when the 6502 has no
/// official instruction of that shape.
pub fn encode(op: Op, mode: Mode) -> (r: Option<u8>)
    ensures
        r == encoding(op, mode),
{
    match (op, mode) {
        (Op::Lda, Mode::Imm) => Some(0xA9u8),
        (Op::Lda, Mode::Zp) => Some(0xA5u8),
        (Op::Lda, Mode::Zpx) => Some(0xB5u8),
        (Op::Lda, Mode::Abs) => Some(0xADu8),
        (Op::Lda, Mode::Abx) => Some(0xBDu8),
        (Op::Lda, Mode::Aby) => Some(0xB9u8),
        (Op::Lda, Mode::Izx) => Some(0xA1u8),
        (Op::Lda, Mode::Izy) => Some(0xB1u8),
        (Op::Ldx, Mode::Imm) => Some(0xA2u8),
        (Op::Ldx, Mode::Zp) => Some(0xA6u8),
        (Op::Ldx, Mode::Zpy) => Some(0xB6u8),
        (Op::Ldx, Mode::Abs) => Some(0xAEu8),
        (Op::Ldx, Mode::Aby) => Some(0xBEu8),
        (Op::Ldy, Mode::Imm) => Some(0xA0u8),
        (Op::Ldy, Mode::Zp) => Some(0xA4u8),
        (Op::Ldy, Mode::Zpx) => Some(0xB4u8),
        (Op::Ldy, Mode::Abs) => Some(0xACu8),
        (Op::Ldy, Mode::Abx) => Some(0xBCu8),
        (Op::Sta, Mode::Zp) => Some(0x85u8),
        (Op::Sta, Mode::Zpx) => Some(0x95u8),
        (Op::Sta, Mode::Abs) => Some(0x8Du8),
        (Op::Sta, Mode::Abx) => Some(0x9Du8),
        (Op::Sta, Mode::Aby) => Some(0x99u8),
        (Op::Sta, Mode::Izx) => Some(0x81u8),
        (Op::Sta, Mode::Izy) => Some(0x91u8),
        (Op::Stx, Mode::Zp) => Some(0x86u8),
        (Op::Stx, Mode::Zpy) => Some(0x96u8),
        (Op::Stx, Mode::Abs) => Some(0x8Eu8),
        (Op::Sty, Mode::Zp) => Some(0x84u8),
        (Op::Sty, Mode::Zpx) => Some(0x94u8),
        (Op::Sty, Mode::Abs) => Some(0x8Cu8),
        (Op::Adc, Mode::Imm) => Some(0x69u8),
        (Op::Adc, Mode::Zp) => Some(0x65u8),
        (Op::Adc, Mode::Zpx) => Some(0x75u8),
        (Op::Adc, Mode::Abs) => Some(0x6Du8),
        (Op::Adc, Mode::Abx) => Some(0x7Du8),
        (Op::Adc, Mode::Aby) => Some(0x79u8),
        (Op::Adc, Mode::Izx) => Some(0x61u8),
        (Op::Adc, Mode::Izy) => Some(0x71u8),
        (Op::Sbc, Mode::Imm) => Some(0xE9u8),
        (Op::Sbc, Mode::Zp) => Some(0xE5u8),
        (Op::Sbc, Mode::Zpx) => Some(0xF5u8),
        (Op::Sbc, Mode::Abs) => Some(0xEDu8),
        (Op::Sbc, Mode::Abx) => Some(0xFDu8),
        (Op::Sbc, Mode::Aby) => Some(0xF9u8),
        (Op::Sbc, Mode::Izx) => Some(0xE1u8),
        (Op::Sbc, Mode::Izy) => Some(0xF1u8),
        (Op::And, Mode::Imm) => Some(0x29u8),
        (Op::And, Mode::Zp) => Some(0x25u8),
        (Op::And, Mode::Zpx) => Some(0x35u8),
        (Op::And, Mode::Abs) => Some(0x2Du8),
        (Op::And, Mode::Abx) => Some(0x3Du8),
        (Op::And, Mode::Aby) => Some(0x39u8),
        (Op::And, Mode::Izx) => Some(0x21u8),
        (Op::And, Mode::Izy) => Some(0x31u8),
        (Op::Ora, Mode::Imm) => Some(0x09u8),
        (Op::Ora, Mode::Zp) => Some(0x05u8),
        (Op::Ora, Mode::Zpx) => Some(0x15u8),
        (Op::Ora, Mode::Abs) => Some(0x0Du8),
        (Op::Ora, Mode::Abx) => Some(0x1Du8),
        (Op::Ora, Mode::Aby) => Some(0x19u8),
        (Op::Ora, Mode::Izx) => Some(0x01u8),
        (Op::Ora, Mode::Izy) => Some(0x11u8),
        (Op::Eor, Mode::Imm) => Some(0x49u8),
        (Op::Eor, Mode::Zp) => Some(0x45u8),
        (Op::Eor, Mode::Zpx) => Some(0x55u8),
        (Op::Eor, Mode::Abs) => Some(0x4Du8),
        (Op::Eor, Mode::Abx) => Some(0x5Du8),
        (Op::Eor, Mode::Aby) => Some(0x59u8),
        (Op::Eor, Mode::Izx) => Some(0x41u8),
        (Op::Eor, Mode::Izy) => Some(0x51u8),
        (Op::Cmp, Mode::Imm) => Some(0xC9u8),
        (Op::Cmp, Mode::Zp) => Some(0xC5u8),
        (Op::Cmp, Mode::Zpx) => Some(0xD5u8),
        (Op::Cmp, Mode::Abs) => Some(0xCDu8),
        (Op::Cmp, Mode::Abx) => Some(0xDDu8),
        (Op::Cmp, Mode::Aby) => Some(0xD9u8),
        (Op::Cmp, Mode::Izx) => Some(0xC1u8),
        (Op::Cmp, Mode::Izy) => Some(0xD1u8),
        (Op::Cpx, Mode::Imm) => Some(0xE0u8),
        (Op::Cpx, Mode::Zp) => Some(0xE4u8),
        (Op::Cpx, Mode::Abs) => Some(0xECu8),
        (Op::Cpy, Mode::Imm) => Some(0xC0u8),
        (Op::Cpy, Mode::Zp) => Some(0xC4u8),
        (Op::Cpy, Mode::Abs) => Some(0xCCu8),
        (Op::Inc, Mode::Zp) => Some(0xE6u8),
        (Op::Inc, Mode::Zpx) => Some(0xF6u8),
        (Op::Inc, Mode::Abs) => Some(0xEEu8),
        (Op::Inc, Mode::Abx) => Some(0xFEu8),
        (Op::Dec, Mode::Zp) => Some(0xC6u8),
        (Op::Dec, Mode::Zpx) => Some(0xD6u8),
        (Op::Dec, Mode::Abs) => Some(0xCEu8),
        (Op::Dec, Mode::Abx) => Some(0xDEu8),
        (Op::Asl, Mode::Acc) => Some(0x0Au8),
        (Op::Asl, Mode::Zp) => Some(0x06u8),
        (Op::Asl, Mode::Zpx) => Some(0x16u8),
        (Op::Asl, Mode::Abs) => Some(0x0Eu8),
        (Op::Asl, Mode::Abx) => Some(0x1Eu8),
        (Op::Lsr, Mode::Acc) => Some(0x4Au8),
        (Op::Lsr, Mode::Zp) => Some(0x46u8),
        (Op::Lsr, Mode::Zpx) => Some(0x56u8),
        (Op::Lsr, Mode::Abs) => Some(0x4Eu8),
        (Op::Lsr, Mode::Abx) => Some(0x5Eu8),
        (Op::Rol, Mode::Acc) => Some(0x2Au8),
        (Op::Rol, Mode::Zp) => Some(0x26u8),
        (Op::Rol, Mode::Zpx) => Some(0x36u8),
        (Op::Rol, Mode::Abs) => Some(0x2Eu8),
        (Op::Rol, Mode::Abx) => Some(0x3Eu8),
        (Op::Ror, Mode::Acc) => Some(0x6Au8),
        (Op::Ror, Mode::Zp) => Some(0x66u8),
        (Op::Ror, Mode::Zpx) => Some(0x76u8),
        (Op::Ror, Mode::Abs) => Some(0x6Eu8),
        (Op::Ror, Mode::Abx) => Some(0x7Eu8),
        (Op::Bit, Mode::Zp) => Some(0x24u8),
        (Op::Bit, Mode::Abs) => Some(0x2Cu8),
        (Op::Jmp, Mode::Abs) => Some(0x4Cu8),
        (Op::Jmp, Mode::Ind) => Some(0x6Cu8),
        (Op::Jsr, Mode::Abs) => Some(0x20u8),
        (Op::Rts, Mode::Imp) => Some(0x60u8),
        (Op::Rti, Mode::Imp) => Some(0x40u8),
        (Op::BrPl, Mode::Rel) => Some(0x10u8),
        (Op::BrMi, Mode::Rel) => Some(0x30u8),
        (Op::BrVc, Mode::Rel) => Some(0x50u8),
        (Op::BrVs, Mode::Rel) => Some(0x70u8),
        (Op::BrCc, Mode::Rel) => Some(0x90u8),
        (Op::BrCs, Mode::Rel) => Some(0xB0u8),
        (Op::BrNe, Mode::Rel) => Some(0xD0u8),
        (Op::BrEq, Mode::Rel) => Some(0xF0u8),
        (Op::Inx, Mode::Imp) => Some(0xE8u8),
        (Op::Iny, Mode::Imp) => Some(0xC8u8),
        (Op::Dex, Mode::Imp) => Some(0xCAu8),
        (Op::Dey, Mode::Imp) => Some(0x88u8),
        (Op::Tax, Mode::Imp) => Some(0xAAu8),
        (Op::Tay, Mode::Imp) => Some(0xA8u8),
        (Op::Txa, Mode::Imp) => Some(0x8Au8),
        (Op::Tya, Mode::Imp) => Some(0x98u8),
        (Op::Tsx, Mode::Imp) => Some(0xBAu8),
        (Op::Txs, Mode::Imp) => Some(0x9Au8),
        (Op::Pha, Mode::Imp) => Some(0x48u8),
        (Op::Php, Mode::Imp) => Some(0x08u8),
        (Op::Pla, Mode::Imp) => Some(0x68u8),
        (Op::Plp, Mode::Imp) => Some(0x28u8),
        (Op::Clc, Mode::Imp) => Some(0x18u8),
        (Op::Sec, Mode::Imp) => Some(0x38u8),
        (Op::Cli, Mode::Imp) => Some(0x58u8),
        (Op::Sei, Mode::Imp) => Some(0x78u8),
        (Op::Cld, Mode::Imp) => Some(0xD8u8),
        (Op::Sed, Mode::Imp) => Some(0xF8u8),
        (Op::Clv, Mode::Imp) => Some(0xB8u8),
        (Op::Brk, Mode::Imp) => Some(0x00u8),
        (Op::Nop, Mode::Imp) => Some(0xEAu8),
        _ => None,
    }
}

/// Byte length of an instruction in `mode`, opcode included.
pub fn instruction_len(mode: Mode) -> (r: u8)
    ensures
        r == len_of(mode),
{
    match mode {
        Mode::Imp | Mode::Acc => 1,
        Mode::Imm | Mode::Zp | Mode::Zpx | Mode::Zpy | Mode::Izx | Mode::Izy | Mode::Rel => 2,
        Mode::Abs | Mode::Abx | Mode::Aby | Mode::Ind => 3,
    }
}

/// Base cycles for operand-reading instructions; the caller adds the
/// page-cross penalty.
pub fn read_cycles(mode: Mode) -> (r: u64)
    ensures
        r == read_cycle_count(mode),
{
    match mode {
        Mode::Imm => 2,
        Mode::Zp => 3,
        Mode::Zpx | Mode::Zpy => 4,
        Mode::Abs => 4,
        Mode::Abx | Mode::Aby => 4,
        Mode::Izx => 6,
        Mode::Izy => 5,
        _ => 2,
    }
}

/// Cycles of a store instruction in `mode`.
pub fn store_cycles(mode: Mode) -> (r: u64)
    ensures
        r == store_cycle_count(mode),
{
    match mode {
        Mode::Zp => 3,
        Mode::Zpx | Mode::Zpy => 4,
        Mode::Abs => 4,
        Mode::Abx | Mode::Aby => 5,
        Mode::Izx => 6,
        Mode::Izy => 6,
        _ => 2,
    }
}

/// Cycles of a read-modify-write instruction in `mode`.
pub fn rmw_cycles(mode: Mode) -> (r: u64)
    ensures
        r == rmw_cycle_count(mode),
{
    match mode {
        Mode::Acc => 2,
        Mode::Zp => 5,
        Mode::Zpx | Mode::Zpy => 6,
        Mode::Abs => 6,
        Mode::Abx | Mode::Aby => 7,
        _ => 2,
    }
}

/// Encoding then decoding gives back the operation and mode: every canonical
/// opcode is official and decodes to what it encodes.
pub proof fn lemma_encode_then_decode(op: Op, mode: Mode)
    ensures
        encoding(op, mode) matches Some(b) ==> decoded(b) == (op, mode) && official(b),
{
}

/// Decoding an official opcode and encoding the result gives back the opcode.
pub proof fn lemma_decode_then_encode(opcode: u8)
    requires
        official(opcode),
    ensures
        encoding(decoded(opcode).0, decoded(opcode).1) == Some(opcode),
{
}


/// How many of the opcodes below `n` are official.
pub open spec fn official_below(n: int) -> nat
    decreases n,
{
    if n <= 0 {
        0
    } else {
        official_below(n - 1) + (if official((n - 1) as u8) {
            1nat
        } else {
            0nat
        })
    }
}

/// Exactly 151 of the 256 opcodes are official; the other 105 decode as NOPs.
pub proof fn lemma_official_count()
    ensures
        official_below(256) == 151,
{
    reveal_with_fuel(official_below, 17);
    assert(official_below(16) == 9);
    assert(official_below(32) == 17);
    assert(official_below(48) == 28);
    assert(official_below(64) == 36);
    assert(official_below(80) == 46);
    assert(official_below(96) == 54);
    assert(official_below(112) == 64);
    assert(official_below(128) == 72);
    assert(official_below(144) == 81);
    assert(official_below(160) == 90);
    assert(official_below(176) == 102);
    assert(official_below(192) == 113);
    assert(official_below(208) == 124);
    assert(official_below(224) == 132);
    assert(official_below(240) == 143);
    assert(official_below(256) == 151);
}

/// The NMOS 6502 opcode map, value by value: every documented opcode with
/// its operation and addressing mode, each stable undocumented NOP with the
/// operand it skips, and every other undocumented byte a one-byte NOP.
pub proof fn lemma_opcode_map(opcode: u8)
    ensures
        decoded(0xA9) == (Op::Lda, Mode::Imm),
        decoded(0xA5) == (Op::Lda, Mode::Zp),
        decoded(0xB5) == (Op::Lda, Mode::Zpx),
        decoded(0xAD) == (Op::Lda, Mode::Abs),
        decoded(0xBD) == (Op::Lda, Mode::Abx),
        decoded(0xB9) == (Op::Lda, Mode::Aby),
        decoded(0xA1) == (Op::Lda, Mode::Izx),
        decoded(0xB1) == (Op::Lda, Mode::Izy),
        decoded(0xA2) == (Op::Ldx, Mode::Imm),
        decoded(0xA6) == (Op::Ldx, Mode::Zp),
        decoded(0xB6) == (Op::Ldx, Mode::Zpy),
        decoded(0xAE) == (Op::Ldx, Mode::Abs),
        decoded(0xBE) == (Op::Ldx, Mode::Aby),
        decoded(0xA0) == (Op::Ldy, Mode::Imm),
        decoded(0xA4) == (Op::Ldy, Mode::Zp),
        decoded(0xB4) == (Op::Ldy, Mode::Zpx),
        decoded(0xAC) == (Op::Ldy, Mode::Abs),
        decoded(0xBC) == (Op::Ldy, Mode::Abx),
        decoded(0x85) == (Op::Sta, Mode::Zp),
        decoded(0x95) == (Op::Sta, Mode::Zpx),
        decoded(0x8D) == (Op::Sta, Mode::Abs),
        decoded(0x9D) == (Op::Sta, Mode::Abx),
        decoded(0x99) == (Op::Sta, Mode::Aby),
        decoded(0x81) == (Op::Sta, Mode::Izx),
        decoded(0x91) == (Op::Sta, Mode::Izy),
        decoded(0x86) == (Op::Stx, Mode::Zp),
        decoded(0x96) == (Op::Stx, Mode::Zpy),
        decoded(0x8E) == (Op::Stx, Mode::Abs),
        decoded(0x84) == (Op::Sty, Mode::Zp),
        decoded(0x94) == (Op::Sty, Mode::Zpx),
        decoded(0x8C) == (Op::Sty, Mode::Abs),
        decoded(0x69) == (Op::Adc, Mode::Imm),
        decoded(0x65) == (Op::Adc, Mode::Zp),
        decoded(0x75) == (Op::Adc, Mode::Zpx),
        decoded(0x6D) == (Op::Adc, Mode::Abs),
        decoded(0x7D) == (Op::Adc, Mode::Abx),
        decoded(0x79) == (Op::Adc, Mode::Aby),
        decoded(0x61) == (Op::Adc, Mode::Izx),
        decoded(0x71) == (Op::Adc, Mode::Izy),
        decoded(0xE9) == (Op::Sbc, Mode::Imm),
        decoded(0xE5) == (Op::Sbc, Mode::Zp),
        decoded(0xF5) == (Op::Sbc, Mode::Zpx),
        decoded(0xED) == (Op::Sbc, Mode::Abs),
        decoded(0xFD) == (Op::Sbc, Mode::Abx),
        decoded(0xF9) == (Op::Sbc, Mode::Aby),
        decoded(0xE1) == (Op::Sbc, Mode::Izx),
        decoded(0xF1) == (Op::Sbc, Mode::Izy),
        decoded(0x29) == (Op::And, Mode::Imm),
        decoded(0x25) == (Op::And, Mode::Zp),
        decoded(0x35) == (Op::And, Mode::Zpx),
        decoded(0x2D) == (Op::And, Mode::Abs),
        decoded(0x3D) == (Op::And, Mode::Abx),
        decoded(0x39) == (Op::And, Mode::Aby),
        decoded(0x21) == (Op::And, Mode::Izx),
        decoded(0x31) == (Op::And, Mode::Izy),
        decoded(0x09) == (Op::Ora, Mode::Imm),
        decoded(0x05) == (Op::Ora, Mode::Zp),
        decoded(0x15) == (Op::Ora, Mode::Zpx),
        decoded(0x0D) == (Op::Ora, Mode::Abs),
        decoded(0x1D) == (Op::Ora, Mode::Abx),
        decoded(0x19) == (Op::Ora, Mode::Aby),
        decoded(0x01) == (Op::Ora, Mode::Izx),
        decoded(0x11) == (Op::Ora, Mode::Izy),
        decoded(0x49) == (Op::Eor, Mode::Imm),
        decoded(0x45) == (Op::Eor, Mode::Zp),
        decoded(0x55) == (Op::Eor, Mode::Zpx),
        decoded(0x4D) == (Op::Eor, Mode::Abs),
        decoded(0x5D) == (Op::Eor, Mode::Abx),
        decoded(0x59) == (Op::Eor, Mode::Aby),
        decoded(0x41) == (Op::Eor, Mode::Izx),
        decoded(0x51) == (Op::Eor, Mode::Izy),
        decoded(0xC9) == (Op::Cmp, Mode::Imm),
        decoded(0xC5) == (Op::Cmp, Mode::Zp),
        decoded(0xD5) == (Op::Cmp, Mode::Zpx),
        decoded(0xCD) == (Op::Cmp, Mode::Abs),
        decoded(0xDD) == (Op::Cmp, Mode::Abx),
        decoded(0xD9) == (Op::Cmp, Mode::Aby),
        decoded(0xC1) == (Op::Cmp, Mode::Izx),
        decoded(0xD1) == (Op::Cmp, Mode::Izy),
        decoded(0xE0) == (Op::Cpx, Mode::Imm),
        decoded(0xE4) == (Op::Cpx, Mode::Zp),
        decoded(0xEC) == (Op::Cpx, Mode::Abs),
        decoded(0xC0) == (Op::Cpy, Mode::Imm),
        decoded(0xC4) == (Op::Cpy, Mode::Zp),
        decoded(0xCC) == (Op::Cpy, Mode::Abs),
        decoded(0xE6) == (Op::Inc, Mode::Zp),
        decoded(0xF6) == (Op::Inc, Mode::Zpx),
        decoded(0xEE) == (Op::Inc, Mode::Abs),
        decoded(0xFE) == (Op::Inc, Mode::Abx),
        decoded(0xC6) == (Op::Dec, Mode::Zp),
        decoded(0xD6) == (Op::Dec, Mode::Zpx),
        decoded(0xCE) == (Op::Dec, Mode::Abs),
        decoded(0xDE) == (Op::Dec, Mode::Abx),
        decoded(0x0A) == (Op::Asl, Mode::Acc),
        decoded(0x06) == (Op::Asl, Mode::Zp),
        decoded(0x16) == (Op::Asl, Mode::Zpx),
        decoded(0x0E) == (Op::Asl, Mode::Abs),
        decoded(0x1E) == (Op::Asl, Mode::Abx),
        decoded(0x4A) == (Op::Lsr, Mode::Acc),
        decoded(0x46) == (Op::Lsr, Mode::Zp),
        decoded(0x56) == (Op::Lsr, Mode::Zpx),
        decoded(0x4E) == (Op::Lsr, Mode::Abs),
        decoded(0x5E) == (Op::Lsr, Mode::Abx),
        decoded(0x2A) == (Op::Rol, Mode::Acc),
        decoded(0x26) == (Op::Rol, Mode::Zp),
        decoded(0x36) == (Op::Rol, Mode::Zpx),
        decoded(0x2E) == (Op::Rol, Mode::Abs),
        decoded(0x3E) == (Op::Rol, Mode::Abx),
        decoded(0x6A) == (Op::Ror, Mode::Acc),
        decoded(0x66) == (Op::Ror, Mode::Zp),
        decoded(0x76) == (Op::Ror, Mode::Zpx),
        decoded(0x6E) == (Op::Ror, Mode::Abs),
        decoded(0x7E) == (Op::Ror, Mode::Abx),
        decoded(0x24) == (Op::Bit, Mode::Zp),
        decoded(0x2C) == (Op::Bit, Mode::Abs),
        decoded(0x4C) == (Op::Jmp, Mode::Abs),
        decoded(0x6C) == (Op::Jmp, Mode::Ind),
        decoded(0x20) == (Op::Jsr, Mode::Abs),
        decoded(0x60) == (Op::Rts, Mode::Imp),
        decoded(0x40) == (Op::Rti, Mode::Imp),
        decoded(0x10) == (Op::BrPl, Mode::Rel),
        decoded(0x30) == (Op::BrMi, Mode::Rel),
        decoded(0x50) == (Op::BrVc, Mode::Rel),
        decoded(0x70) == (Op::BrVs, Mode::Rel),
        decoded(0x90) == (Op::BrCc, Mode::Rel),
        decoded(0xB0) == (Op::BrCs, Mode::Rel),
        decoded(0xD0) == (Op::BrNe, Mode::Rel),
        decoded(0xF0) == (Op::BrEq, Mode::Rel),
        decoded(0xE8) == (Op::Inx, Mode::Imp),
        decoded(0xC8) == (Op::Iny, Mode::Imp),
        decoded(0xCA) == (Op::Dex, Mode::Imp),
        decoded(0x88) == (Op::Dey, Mode::Imp),
        decoded(0xAA) == (Op::Tax, Mode::Imp),
        decoded(0xA8) == (Op::Tay, Mode::Imp),
        decoded(0x8A) == (Op::Txa, Mode::Imp),
        decoded(0x98) == (Op::Tya, Mode::Imp),
        decoded(0xBA) == (Op::Tsx, Mode::Imp),
        decoded(0x9A) == (Op::Txs, Mode::Imp),
        decoded(0x48) == (Op::Pha, Mode::Imp),
        decoded(0x08) == (Op::Php, Mode::Imp),
        decoded(0x68) == (Op::Pla, Mode::Imp),
        decoded(0x28) == (Op::Plp, Mode::Imp),
        decoded(0x18) == (Op::Clc, Mode::Imp),
        decoded(0x38) == (Op::Sec, Mode::Imp),
        decoded(0x58) == (Op::Cli, Mode::Imp),
        decoded(0x78) == (Op::Sei, Mode::Imp),
        decoded(0xD8) == (Op::Cld, Mode::Imp),
        decoded(0xF8) == (Op::Sed, Mode::Imp),
        decoded(0xB8) == (Op::Clv, Mode::Imp),
        decoded(0x00) == (Op::Brk, Mode::Imp),
        decoded(0xEA) == (Op::Nop, Mode::Imp),
        decoded(0xE2) == (Op::Nop, Mode::Imm),
        decoded(0x64) == (Op::Nop, Mode::Zp),
        decoded(0xF4) == (Op::Nop, Mode::Zpx),
        decoded(0x0C) == (Op::Nop, Mode::Abs),
        decoded(0xFC) == (Op::Nop, Mode::Abx),
        decoded(0x04) == (Op::Nop, Mode::Zp),
        decoded(0x14) == (Op::Nop, Mode::Zpx),
        decoded(0x1C) == (Op::Nop, Mode::Abx),
        decoded(0x34) == (Op::Nop, Mode::Zpx),
        decoded(0x3C) == (Op::Nop, Mode::Abx),
        decoded(0x44) == (Op::Nop, Mode::Zp),
        decoded(0x54) == (Op::Nop, Mode::Zpx),
        decoded(0x5C) == (Op::Nop, Mode::Abx),
        decoded(0x74) == (Op::Nop, Mode::Zpx),
        decoded(0x7C) == (Op::Nop, Mode::Abx),
        decoded(0x80) == (Op::Nop, Mode::Imm),
        decoded(0x82) == (Op::Nop, Mode::Imm),
        decoded(0x89) == (Op::Nop, Mode::Imm),
        decoded(0xC2) == (Op::Nop, Mode::Imm),
        decoded(0xD4) == (Op::Nop, Mode::Zpx),
        decoded(0xDC) == (Op::Nop, Mode::Abx),
        decoded(opcode).0 == Op::Nop && opcode != 0xEA && !(opcode == 0x04 || opcode == 0x0C || opcode == 0x14 || opcode == 0x1C || opcode == 0x34 || opcode == 0x3C || opcode == 0x44 || opcode == 0x54 || opcode == 0x5C || opcode == 0x64 || opcode == 0x74 || opcode == 0x7C || opcode == 0x80 || opcode == 0x82 || opcode == 0x89 || opcode == 0xC2 || opcode == 0xD4 || opcode == 0xDC || opcode == 0xE2 || opcode == 0xF4 || opcode == 0xFC) ==> decoded(opcode).1 == Mode::Imp,
{
}

/// The NMOS timing and length tables: base cycles of operand reads, of
/// stores and of read-modify-write instructions, and instruction lengths,
/// per addressing mode.
pub proof fn lemma_timing_tables()
    ensures
        read_cycle_count(Mode::Imm) == 2 && read_cycle_count(Mode::Zp) == 3,
        read_cycle_count(Mode::Zpx) == 4 && read_cycle_count(Mode::Zpy) == 4,
        read_cycle_count(Mode::Abs) == 4 && read_cycle_count(Mode::Abx) == 4 && read_cycle_count(Mode::Aby) == 4,
        read_cycle_count(Mode::Izx) == 6 && read_cycle_count(Mode::Izy) == 5,
        store_cycle_count(Mode::Zp) == 3 && store_cycle_count(Mode::Zpx) == 4 && store_cycle_count(Mode::Zpy) == 4,
        store_cycle_count(Mode::Abs) == 4 && store_cycle_count(Mode::Abx) == 5 && store_cycle_count(Mode::Aby) == 5,
        store_cycle_count(Mode::Izx) == 6 && store_cycle_count(Mode::Izy) == 6,
        rmw_cycle_count(Mode::Acc) == 2 && rmw_cycle_count(Mode::Zp) == 5 && rmw_cycle_count(Mode::Zpx) == 6,
        rmw_cycle_count(Mode::Abs) == 6 && rmw_cycle_count(Mode::Abx) == 7,
        len_of(Mode::Imp) == 1 && len_of(Mode::Acc) == 1,
        len_of(Mode::Imm) == 2 && len_of(Mode::Zp) == 2 && len_of(Mode::Zpx) == 2 && len_of(Mode::Zpy) == 2,
        len_of(Mode::Izx) == 2 && len_of(Mode::Izy) == 2 && len_of(Mode::Rel) == 2,
        len_of(Mode::Abs) == 3 && len_of(Mode::Abx) == 3 && len_of(Mode::Aby) == 3 && len_of(Mode::Ind) == 3,
{
}

} // verus!
