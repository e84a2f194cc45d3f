//! Disassembler scenarios, and the round trip through the assembler.

use vintage::assembler::assemble;
use vintage::dis::disasm_one;
use vintage::isa::{decode, encode, instruction_len, Mode, Op};

fn dis(bytes: &[u8]) -> String {
    disasm_one(bytes, 0x8000).unwrap().1
}

#[test]
fn implied() {
    let (len, text) = disasm_one(&[0xE8], 0).unwrap();
    assert_eq!((len, text.as_str()), (1, "inx"));
}

#[test]
fn accumulator() {
    assert_eq!(dis(&[0x0A]), "asl a");
}

#[test]
fn dis_immediate() {
    assert_eq!(dis(&[0xA9, 0x41]), "lda #$41");
}

#[test]
fn zero_page_and_indexed() {
    assert_eq!(dis(&[0xA5, 0x10]), "lda $10");
    assert_eq!(dis(&[0xB5, 0x10]), "lda $10,x");
    assert_eq!(dis(&[0xB6, 0x10]), "ldx $10,y");
}

#[test]
fn absolute_and_indexed() {
    assert_eq!(dis(&[0xAD, 0x34, 0x12]), "lda $1234");
    assert_eq!(dis(&[0xBD, 0x34, 0x12]), "lda $1234,x");
    assert_eq!(dis(&[0x99, 0x34, 0x12]), "sta $1234,y");
}

#[test]
fn indirect_forms() {
    assert_eq!(dis(&[0x6C, 0x34, 0x12]), "jmp ($1234)");
    assert_eq!(dis(&[0xA1, 0x10]), "lda ($10,x)");
    assert_eq!(dis(&[0xB1, 0x10]), "lda ($10),y");
}

#[test]
fn branch_forward() {
    // $8000 + 2 + $05 = $8007
    let (len, text) = disasm_one(&[0xD0, 0x05], 0x8000).unwrap();
    assert_eq!((len, text.as_str()), (2, "bne $8007"));
}

#[test]
fn branch_backward() {
    // $8000 + 2 - $04 = $7FFE
    let (len, text) = disasm_one(&[0xF0, 0xFC], 0x8000).unwrap();
    assert_eq!((len, text.as_str()), (2, "beq $7FFE"));
}

#[test]
fn truncated_operand_is_none() {
    assert_eq!(disasm_one(&[0xAD], 0), None);
    assert_eq!(disasm_one(&[], 0), None);
    assert_eq!(disasm_one(&[0xA5], 0), None);
}

#[test]
fn every_official_opcode_roundtrips_through_the_assembler() {
    let mut covered = 0;
    for opcode in 0..=255u8 {
        let (op, mode) = decode(opcode);
        let Some(reencoded) = encode(op, mode) else {
            continue; // undocumented or non-canonical: not our syntax
        };
        if reencoded != opcode {
            continue; // illegal opcode that decodes to (nop, implied)
        }
        let operand: Vec<u8> = match mode {
            Mode::Imp | Mode::Acc => vec![],
            Mode::Imm | Mode::Zp | Mode::Zpx | Mode::Zpy | Mode::Izx | Mode::Izy => {
                vec![0x10]
            }
            Mode::Abs | Mode::Abx | Mode::Aby | Mode::Ind => vec![0x34, 0x12],
            Mode::Rel => vec![0x05],
        };
        let mut bytes = vec![opcode];
        bytes.extend_from_slice(&operand);
        let Some((len, text)) = disasm_one(&bytes, 0x8000) else {
            panic!("{opcode:#04x} failed to disassemble");
        };
        assert_eq!(instruction_len(mode), len, "{opcode:#04x} wrong length");
        let bin = assemble(&format!(" .org $8000\n {text}"))
            .unwrap_or_else(|e| panic!("{text}: {e:?}"));
        assert_eq!(
            bin.segments[0].1, bytes,
            "{text} did not reassemble to {bytes:02x?}"
        );
        covered += 1;
    }
    assert_eq!(covered, 151);
}

#[test]
fn absolute_operand_below_0100_reassembles_as_zero_page() {
    // The one shape the assembler writes differently: it prefers zero page.
    let (_, text) = disasm_one(&[0xAD, 0x10, 0x00], 0x8000).unwrap();
    assert_eq!(text, "lda $0010");
    let bin = assemble(&format!(" .org $8000\n {text}")).unwrap();
    assert_eq!(bin.segments[0].1, vec![0xA5, 0x10]);
    // Where no zero-page form exists the bytes come back unchanged.
    let (_, text) = disasm_one(&[0x20, 0x10, 0x00], 0x8000).unwrap();
    let bin = assemble(&format!(" .org $8000\n {text}")).unwrap();
    assert_eq!(bin.segments[0].1, vec![0x20, 0x10, 0x00]);
}

#[test]
fn reassembly_at_other_addresses() {
    for (bytes, pc) in [
        (vec![0xB1u8, 0xFE], 0xC000u16),
        (vec![0xD0, 0x80], 0x1234),
        (vec![0x6C, 0xFF, 0x02], 0xFFFD),
        (vec![0x0A], 0xFFFF),
    ] {
        let (len, text) = disasm_one(&bytes, pc).unwrap();
        assert_eq!(len as usize, bytes.len());
        let bin = assemble(&format!(" .org ${pc:04X}\n {text}")).unwrap();
        assert_eq!(bin.segments, vec![(pc, bytes.clone())], "{text}");
    }
}

#[test]
fn stable_undocumented_nops_consume_their_operands() {
    for o in [0x80u8, 0x82, 0x89, 0xC2, 0xE2] {
        assert_eq!(decode(o), (Op::Nop, Mode::Imm), "${o:02X}");
    }
    for o in [0x04u8, 0x44, 0x64] {
        assert_eq!(decode(o), (Op::Nop, Mode::Zp), "${o:02X}");
    }
    for o in [0x14u8, 0x34, 0x54, 0x74, 0xD4, 0xF4] {
        assert_eq!(decode(o), (Op::Nop, Mode::Zpx), "${o:02X}");
        assert_eq!(instruction_len(Mode::Zpx), 2);
    }
    assert_eq!(decode(0x0C), (Op::Nop, Mode::Abs));
    for o in [0x1Cu8, 0x3C, 0x5C, 0x7C, 0xDC, 0xFC] {
        assert_eq!(decode(o), (Op::Nop, Mode::Abx), "${o:02X}");
    }
}

#[test]
fn exactly_151_opcodes_are_official() {
    let official = (0..=255u8)
        .filter(|&o| {
            let (op, mode) = decode(o);
            encode(op, mode) == Some(o)
        })
        .count();
    assert_eq!(official, 151);
}
