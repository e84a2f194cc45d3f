//! 6502 disassembler: renders bytes back to assembler syntax, so that
//! assembling the text of an official instruction at its address gives back
//! its bytes (`reassembly` proves it; an absolute operand below $100 where a
//! zero-page form exists, and a branch whose target wraps around the address
//! space, are the two cases the assembler writes differently).

use vstd::prelude::*;

pub mod reassembly;

use crate::cpu::wrap16;
use crate::isa::{decode, decoded, instruction_len, len_of, Mode, Op};
use crate::text::{hex2, hex4, push_hex2, push_hex4};

verus! {

/// The assembler mnemonic of an operation.
pub open spec fn mnemonic_text(op: Op) -> Seq<char> {
    match op {
        Op::Lda => "lda"@,
        Op::Ldx => "ldx"@,
        Op::Ldy => "ldy"@,
        Op::Sta => "sta"@,
        Op::Stx => "stx"@,
        Op::Sty => "sty"@,
        Op::Adc => "adc"@,
        Op::Sbc => "sbc"@,
        Op::And => "and"@,
        Op::Ora => "ora"@,
        Op::Eor => "eor"@,
        Op::Cmp => "cmp"@,
        Op::Cpx => "cpx"@,
        Op::Cpy => "cpy"@,
        Op::Inc => "inc"@,
        Op::Dec => "dec"@,
        Op::Asl => "asl"@,
        Op::Lsr => "lsr"@,
        Op::Rol => "rol"@,
        Op::Ror => "ror"@,
        Op::Bit => "bit"@,
        Op::Jmp => "jmp"@,
        Op::Jsr => "jsr"@,
        Op::Rts => "rts"@,
        Op::Rti => "rti"@,
        Op::BrPl => "bpl"@,
        Op::BrMi => "bmi"@,
        Op::BrVc => "bvc"@,
        Op::BrVs => "bvs"@,
        Op::BrCc => "bcc"@,
        Op::BrCs => "bcs"@,
        Op::BrNe => "bne"@,
        Op::BrEq => "beq"@,
        Op::Inx => "inx"@,
        Op::Iny => "iny"@,
        Op::Dex => "dex"@,
        Op::Dey => "dey"@,
        Op::Tax => "tax"@,
        Op::Tay => "tay"@,
        Op::Txa => "txa"@,
        Op::Tya => "tya"@,
        Op::Tsx => "tsx"@,
        Op::Txs => "txs"@,
        Op::Pha => "pha"@,
        Op::Php => "php"@,
        Op::Pla => "pla"@,
        Op::Plp => "plp"@,
        Op::Clc => "clc"@,
        Op::Sec => "sec"@,
        Op::Cli => "cli"@,
        Op::Sei => "sei"@,
        Op::Cld => "cld"@,
        Op::Sed => "sed"@,
        Op::Clv => "clv"@,
        Op::Brk => "brk"@,
        Op::Nop => "nop"@,
    }
}

/// The target a relative branch at `addr` with offset byte `off` names.
pub open spec fn rel_target(addr: u16, off: u8) -> u16 {
    wrap16(addr + 2 + (if off < 128 { off as int } else { off - 256 }))
}

/// The disassembly of the instruction at the start of `bytes`, which lives at
/// `addr`: its byte length and text, or `None` when `bytes` is empty or
/// its operand bytes are cut short.
pub open spec fn disassembly(bytes: Seq<u8>, addr: u16) -> Option<(u8, Seq<char>)> {
    if bytes.len() == 0 {
        None
    } else {
        let (op, mode) = decoded(bytes[0]);
        let name = mnemonic_text(op);
        let len = len_of(mode);
        if bytes.len() < len {
            None
        } else {
            let text = match mode {
                Mode::Imp => name,
                Mode::Acc => name + " a"@,
                Mode::Imm => name + " #$"@ + hex2(bytes[1]),
                Mode::Zp => name + " $"@ + hex2(bytes[1]),
                Mode::Zpx => name + " $"@ + hex2(bytes[1]) + ",x"@,
                Mode::Zpy => name + " $"@ + hex2(bytes[1]) + ",y"@,
                Mode::Izx => name + " ($"@ + hex2(bytes[1]) + ",x)"@,
                Mode::Izy => name + " ($"@ + hex2(bytes[1]) + "),y"@,
                Mode::Abs => name + " $"@ + hex4((bytes[1] + 256 * bytes[2]) as u16),
                Mode::Abx => name + " $"@ + hex4((bytes[1] + 256 * bytes[2]) as u16) + ",x"@,
                Mode::Aby => name + " $"@ + hex4((bytes[1] + 256 * bytes[2]) as u16) + ",y"@,
                Mode::Ind => name + " ($"@ + hex4((bytes[1] + 256 * bytes[2]) as u16) + ")"@,
                Mode::Rel => name + " $"@ + hex4(rel_target(addr, bytes[1])),
            };
            Some((len, text))
        }
    }
}

/// Disassemble one instruction from the start of `bytes`, which lives at
/// `addr` in memory. Returns `(byte length, text)`, or `None` if the operand
/// bytes are truncated. The text is exactly the assembler's syntax.
pub fn disasm_one(bytes: &[u8], addr: u16) -> (r: Option<(u8, String)>)
    ensures
        match r {
            Some((n, t)) => disassembly(bytes@, addr) == Some((n, t@)),
            None => disassembly(bytes@, addr) is None,
        },
{
    if bytes.len() == 0 {
        return None;
    }
    let opcode = bytes[0];
    let (op, mode) = decode(opcode);
    let len = instruction_len(mode);
    let name = mnemonic_name(op);
    let mut text = name.to_owned();
    match mode {
        Mode::Imp => {},
        Mode::Acc => text.append(" a"),
        Mode::Imm => {
            if bytes.len() < 2 {
                return None;
            }
            text.append(" #$");
            push_hex2(&mut text, bytes[1]);
        },
        Mode::Zp => {
            if bytes.len() < 2 {
                return None;
            }
            text.append(" $");
            push_hex2(&mut text, bytes[1]);
        },
        Mode::Zpx => {
            if bytes.len() < 2 {
                return None;
            }
            text.append(" $");
            push_hex2(&mut text, bytes[1]);
            text.append(",x");
        },
        Mode::Zpy => {
            if bytes.len() < 2 {
                return None;
            }
            text.append(" $");
            push_hex2(&mut text, bytes[1]);
            text.append(",y");
        },
        Mode::Izx => {
            if bytes.len() < 2 {
                return None;
            }
            text.append(" ($");
            push_hex2(&mut text, bytes[1]);
            text.append(",x)");
        },
        Mode::Izy => {
            if bytes.len() < 2 {
                return None;
            }
            text.append(" ($");
            push_hex2(&mut text, bytes[1]);
            text.append("),y");
        },
        Mode::Abs => {
            let Some(w) = word(bytes) else {
                return None;
            };
            text.append(" $");
            push_hex4(&mut text, w);
        },
        Mode::Abx => {
            let Some(w) = word(bytes) else {
                return None;
            };
            text.append(" $");
            push_hex4(&mut text, w);
            text.append(",x");
        },
        Mode::Aby => {
            let Some(w) = word(bytes) else {
                return None;
            };
            text.append(" $");
            push_hex4(&mut text, w);
            text.append(",y");
        },
        Mode::Ind => {
            let Some(w) = word(bytes) else {
                return None;
            };
            text.append(" ($");
            push_hex4(&mut text, w);
            text.append(")");
        },
        Mode::Rel => {
            if bytes.len() < 2 {
                return None;
            }
            let off = bytes[1];
            let t: u32 = if off < 128 {
                addr as u32 + 2 + off as u32
            } else {
                addr as u32 + 2 + 0x10000 + off as u32 - 256
            };
            assert(t % 0x10000 == (addr + 2 + (if off < 128 { off as int } else { off - 256 })) % 0x10000)
                by (nonlinear_arith)
                requires
                    off < 128 ==> t == addr + 2 + off,
                    off >= 128 ==> t == addr + 2 + 0x10000 + off - 256,
            ;
            text.append(" $");
            push_hex4(&mut text, (t % 0x10000) as u16);
        },
    }
    Some((len, text))
}

/// The little-endian word in the operand bytes after the opcode at the start
/// of `bytes`, if both are present.
fn word(bytes: &[u8]) -> (r: Option<u16>)
    ensures
        bytes@.len() >= 3 ==> r == Some((bytes@[1] + 256 * bytes@[2]) as u16),
        bytes@.len() < 3 ==> r is None,
{
    if bytes.len() < 3 {
        return None;
    }
    Some(bytes[1] as u16 + 256 * bytes[2] as u16)
}

/// The assembler mnemonic of `op`.
fn mnemonic_name(op: Op) -> (r: &'static str)
    ensures
        r@ == mnemonic_text(op),
{
    match op {
        Op::Lda => "lda",
        Op::Ldx => "ldx",
        Op::Ldy => "ldy",
        Op::Sta => "sta",
        Op::Stx => "stx",
        Op::Sty => "sty",
        Op::Adc => "adc",
        Op::Sbc => "sbc",
        Op::And => "and",
        Op::Ora => "ora",
        Op::Eor => "eor",
        Op::Cmp => "cmp",
        Op::Cpx => "cpx",
        Op::Cpy => "cpy",
        Op::Inc => "inc",
        Op::Dec => "dec",
        Op::Asl => "asl",
        Op::Lsr => "lsr",
        Op::Rol => "rol",
        Op::Ror => "ror",
        Op::Bit => "bit",
        Op::Jmp => "jmp",
        Op::Jsr => "jsr",
        Op::Rts => "rts",
        Op::Rti => "rti",
        Op::BrPl => "bpl",
        Op::BrMi => "bmi",
        Op::BrVc => "bvc",
        Op::BrVs => "bvs",
        Op::BrCc => "bcc",
        Op::BrCs => "bcs",
        Op::BrNe => "bne",
        Op::BrEq => "beq",
        Op::Inx => "inx",
        Op::Iny => "iny",
        Op::Dex => "dex",
        Op::Dey => "dey",
        Op::Tax => "tax",
        Op::Tay => "tay",
        Op::Txa => "txa",
        Op::Tya => "tya",
        Op::Tsx => "tsx",
        Op::Txs => "txs",
        Op::Pha => "pha",
        Op::Php => "php",
        Op::Pla => "pla",
        Op::Plp => "plp",
        Op::Clc => "clc",
        Op::Sec => "sec",
        Op::Cli => "cli",
        Op::Sei => "sei",
        Op::Cld => "cld",
        Op::Sed => "sed",
        Op::Clv => "clv",
        Op::Brk => "brk",
        Op::Nop => "nop",
    }
}


/// The standard 6502 mnemonics, letter by letter, of every operation.
pub proof fn lemma_mnemonic_names()
    ensures
        mnemonic_text(Op::Lda) == seq!['l', 'd', 'a'],
        mnemonic_text(Op::Ldx) == seq!['l', 'd', 'x'],
        mnemonic_text(Op::Ldy) == seq!['l', 'd', 'y'],
        mnemonic_text(Op::Sta) == seq!['s', 't', 'a'],
        mnemonic_text(Op::Stx) == seq!['s', 't', 'x'],
        mnemonic_text(Op::Sty) == seq!['s', 't', 'y'],
        mnemonic_text(Op::Adc) == seq!['a', 'd', 'c'],
        mnemonic_text(Op::Sbc) == seq!['s', 'b', 'c'],
        mnemonic_text(Op::And) == seq!['a', 'n', 'd'],
        mnemonic_text(Op::Ora) == seq!['o', 'r', 'a'],
        mnemonic_text(Op::Eor) == seq!['e', 'o', 'r'],
        mnemonic_text(Op::Cmp) == seq!['c', 'm', 'p'],
        mnemonic_text(Op::Cpx) == seq!['c', 'p', 'x'],
        mnemonic_text(Op::Cpy) == seq!['c', 'p', 'y'],
        mnemonic_text(Op::Inc) == seq!['i', 'n', 'c'],
        mnemonic_text(Op::Dec) == seq!['d', 'e', 'c'],
        mnemonic_text(Op::Asl) == seq!['a', 's', 'l'],
        mnemonic_text(Op::Lsr) == seq!['l', 's', 'r'],
        mnemonic_text(Op::Rol) == seq!['r', 'o', 'l'],
        mnemonic_text(Op::Ror) == seq!['r', 'o', 'r'],
        mnemonic_text(Op::Bit) == seq!['b', 'i', 't'],
        mnemonic_text(Op::Jmp) == seq!['j', 'm', 'p'],
        mnemonic_text(Op::Jsr) == seq!['j', 's', 'r'],
        mnemonic_text(Op::Rts) == seq!['r', 't', 's'],
        mnemonic_text(Op::Rti) == seq!['r', 't', 'i'],
        mnemonic_text(Op::BrPl) == seq!['b', 'p', 'l'],
        mnemonic_text(Op::BrMi) == seq!['b', 'm', 'i'],
        mnemonic_text(Op::BrVc) == seq!['b', 'v', 'c'],
        mnemonic_text(Op::BrVs) == seq!['b', 'v', 's'],
        mnemonic_text(Op::BrCc) == seq!['b', 'c', 'c'],
        mnemonic_text(Op::BrCs) == seq!['b', 'c', 's'],
        mnemonic_text(Op::BrNe) == seq!['b', 'n', 'e'],
        mnemonic_text(Op::BrEq) == seq!['b', 'e', 'q'],
        mnemonic_text(Op::Inx) == seq!['i', 'n', 'x'],
        mnemonic_text(Op::Iny) == seq!['i', 'n', 'y'],
        mnemonic_text(Op::Dex) == seq!['d', 'e', 'x'],
        mnemonic_text(Op::Dey) == seq!['d', 'e', 'y'],
        mnemonic_text(Op::Tax) == seq!['t', 'a', 'x'],
        mnemonic_text(Op::Tay) == seq!['t', 'a', 'y'],
        mnemonic_text(Op::Txa) == seq!['t', 'x', 'a'],
        mnemonic_text(Op::Tya) == seq!['t', 'y', 'a'],
        mnemonic_text(Op::Tsx) == seq!['t', 's', 'x'],
        mnemonic_text(Op::Txs) == seq!['t', 'x', 's'],
        mnemonic_text(Op::Pha) == seq!['p', 'h', 'a'],
        mnemonic_text(Op::Php) == seq!['p', 'h', 'p'],
        mnemonic_text(Op::Pla) == seq!['p', 'l', 'a'],
        mnemonic_text(Op::Plp) == seq!['p', 'l', 'p'],
        mnemonic_text(Op::Clc) == seq!['c', 'l', 'c'],
        mnemonic_text(Op::Sec) == seq!['s', 'e', 'c'],
        mnemonic_text(Op::Cli) == seq!['c', 'l', 'i'],
        mnemonic_text(Op::Sei) == seq!['s', 'e', 'i'],
        mnemonic_text(Op::Cld) == seq!['c', 'l', 'd'],
        mnemonic_text(Op::Sed) == seq!['s', 'e', 'd'],
        mnemonic_text(Op::Clv) == seq!['c', 'l', 'v'],
        mnemonic_text(Op::Brk) == seq!['b', 'r', 'k'],
        mnemonic_text(Op::Nop) == seq!['n', 'o', 'p'],
{
    reveal_strlit("lda");
    reveal_strlit("ldx");
    reveal_strlit("ldy");
    reveal_strlit("sta");
    reveal_strlit("stx");
    reveal_strlit("sty");
    reveal_strlit("adc");
    reveal_strlit("sbc");
    reveal_strlit("and");
    reveal_strlit("ora");
    reveal_strlit("eor");
    reveal_strlit("cmp");
    reveal_strlit("cpx");
    reveal_strlit("cpy");
    reveal_strlit("inc");
    reveal_strlit("dec");
    reveal_strlit("asl");
    reveal_strlit("lsr");
    reveal_strlit("rol");
    reveal_strlit("ror");
    reveal_strlit("bit");
    reveal_strlit("jmp");
    reveal_strlit("jsr");
    reveal_strlit("rts");
    reveal_strlit("rti");
    reveal_strlit("bpl");
    reveal_strlit("bmi");
    reveal_strlit("bvc");
    reveal_strlit("bvs");
    reveal_strlit("bcc");
    reveal_strlit("bcs");
    reveal_strlit("bne");
    reveal_strlit("beq");
    reveal_strlit("inx");
    reveal_strlit("iny");
    reveal_strlit("dex");
    reveal_strlit("dey");
    reveal_strlit("tax");
    reveal_strlit("tay");
    reveal_strlit("txa");
    reveal_strlit("tya");
    reveal_strlit("tsx");
    reveal_strlit("txs");
    reveal_strlit("pha");
    reveal_strlit("php");
    reveal_strlit("pla");
    reveal_strlit("plp");
    reveal_strlit("clc");
    reveal_strlit("sec");
    reveal_strlit("cli");
    reveal_strlit("sei");
    reveal_strlit("cld");
    reveal_strlit("sed");
    reveal_strlit("clv");
    reveal_strlit("brk");
    reveal_strlit("nop");
    assert(mnemonic_text(Op::Lda) =~= seq!['l', 'd', 'a']);
    assert(mnemonic_text(Op::Ldx) =~= seq!['l', 'd', 'x']);
    assert(mnemonic_text(Op::Ldy) =~= seq!['l', 'd', 'y']);
    assert(mnemonic_text(Op::Sta) =~= seq!['s', 't', 'a']);
    assert(mnemonic_text(Op::Stx) =~= seq!['s', 't', 'x']);
    assert(mnemonic_text(Op::Sty) =~= seq!['s', 't', 'y']);
    assert(mnemonic_text(Op::Adc) =~= seq!['a', 'd', 'c']);
    assert(mnemonic_text(Op::Sbc) =~= seq!['s', 'b', 'c']);
    assert(mnemonic_text(Op::And) =~= seq!['a', 'n', 'd']);
    assert(mnemonic_text(Op::Ora) =~= seq!['o', 'r', 'a']);
    assert(mnemonic_text(Op::Eor) =~= seq!['e', 'o', 'r']);
    assert(mnemonic_text(Op::Cmp) =~= seq!['c', 'm', 'p']);
    assert(mnemonic_text(Op::Cpx) =~= seq!['c', 'p', 'x']);
    assert(mnemonic_text(Op::Cpy) =~= seq!['c', 'p', 'y']);
    assert(mnemonic_text(Op::Inc) =~= seq!['i', 'n', 'c']);
    assert(mnemonic_text(Op::Dec) =~= seq!['d', 'e', 'c']);
    assert(mnemonic_text(Op::Asl) =~= seq!['a', 's', 'l']);
    assert(mnemonic_text(Op::Lsr) =~= seq!['l', 's', 'r']);
    assert(mnemonic_text(Op::Rol) =~= seq!['r', 'o', 'l']);
    assert(mnemonic_text(Op::Ror) =~= seq!['r', 'o', 'r']);
    assert(mnemonic_text(Op::Bit) =~= seq!['b', 'i', 't']);
    assert(mnemonic_text(Op::Jmp) =~= seq!['j', 'm', 'p']);
    assert(mnemonic_text(Op::Jsr) =~= seq!['j', 's', 'r']);
    assert(mnemonic_text(Op::Rts) =~= seq!['r', 't', 's']);
    assert(mnemonic_text(Op::Rti) =~= seq!['r', 't', 'i']);
    assert(mnemonic_text(Op::BrPl) =~= seq!['b', 'p', 'l']);
    assert(mnemonic_text(Op::BrMi) =~= seq!['b', 'm', 'i']);
    assert(mnemonic_text(Op::BrVc) =~= seq!['b', 'v', 'c']);
    assert(mnemonic_text(Op::BrVs) =~= seq!['b', 'v', 's']);
    assert(mnemonic_text(Op::BrCc) =~= seq!['b', 'c', 'c']);
    assert(mnemonic_text(Op::BrCs) =~= seq!['b', 'c', 's']);
    assert(mnemonic_text(Op::BrNe) =~= seq!['b', 'n', 'e']);
    assert(mnemonic_text(Op::BrEq) =~= seq!['b', 'e', 'q']);
    assert(mnemonic_text(Op::Inx) =~= seq!['i', 'n', 'x']);
    assert(mnemonic_text(Op::Iny) =~= seq!['i', 'n', 'y']);
    assert(mnemonic_text(Op::Dex) =~= seq!['d', 'e', 'x']);
    assert(mnemonic_text(Op::Dey) =~= seq!['d', 'e', 'y']);
    assert(mnemonic_text(Op::Tax) =~= seq!['t', 'a', 'x']);
    assert(mnemonic_text(Op::Tay) =~= seq!['t', 'a', 'y']);
    assert(mnemonic_text(Op::Txa) =~= seq!['t', 'x', 'a']);
    assert(mnemonic_text(Op::Tya) =~= seq!['t', 'y', 'a']);
    assert(mnemonic_text(Op::Tsx) =~= seq!['t', 's', 'x']);
    assert(mnemonic_text(Op::Txs) =~= seq!['t', 'x', 's']);
    assert(mnemonic_text(Op::Pha) =~= seq!['p', 'h', 'a']);
    assert(mnemonic_text(Op::Php) =~= seq!['p', 'h', 'p']);
    assert(mnemonic_text(Op::Pla) =~= seq!['p', 'l', 'a']);
    assert(mnemonic_text(Op::Plp) =~= seq!['p', 'l', 'p']);
    assert(mnemonic_text(Op::Clc) =~= seq!['c', 'l', 'c']);
    assert(mnemonic_text(Op::Sec) =~= seq!['s', 'e', 'c']);
    assert(mnemonic_text(Op::Cli) =~= seq!['c', 'l', 'i']);
    assert(mnemonic_text(Op::Sei) =~= seq!['s', 'e', 'i']);
    assert(mnemonic_text(Op::Cld) =~= seq!['c', 'l', 'd']);
    assert(mnemonic_text(Op::Sed) =~= seq!['s', 'e', 'd']);
    assert(mnemonic_text(Op::Clv) =~= seq!['c', 'l', 'v']);
    assert(mnemonic_text(Op::Brk) =~= seq!['b', 'r', 'k']);
    assert(mnemonic_text(Op::Nop) =~= seq!['n', 'o', 'p']);
}

} // verus!
