//! Assembler scenarios: addressing-mode selection, symbols, directives and
//! errors with their line numbers.

use vintage::assembler::assemble;

fn bytes_of(src: &str) -> Vec<u8> {
    assemble(src).unwrap().segments[0].1.clone()
}

#[test]
fn asm_immediate() {
    assert_eq!(bytes_of("lda #$41"), vec![0xA9, 0x41]);
}

#[test]
fn zero_page_from_literal() {
    assert_eq!(bytes_of("lda $10"), vec![0xA5, 0x10]);
    assert_eq!(bytes_of("ldx $10"), vec![0xA6, 0x10]);
    assert_eq!(bytes_of("sta $20,x"), vec![0x95, 0x20]);
}

#[test]
fn absolute_is_little_endian() {
    assert_eq!(bytes_of("lda $1234"), vec![0xAD, 0x34, 0x12]);
    assert_eq!(bytes_of("jmp $1234"), vec![0x4C, 0x34, 0x12]);
    assert_eq!(bytes_of("jsr $1234"), vec![0x20, 0x34, 0x12]);
}

#[test]
fn symbolic_operands_are_absolute() {
    let bin = assemble("ptr = $1234\n lda ptr").unwrap();
    assert_eq!(bin.segments[0].1, vec![0xAD, 0x34, 0x12]);
}

#[test]
fn low_byte_operator_forces_zero_page() {
    let bin = assemble("ptr = $1234\n lda <ptr").unwrap();
    assert_eq!(bin.segments[0].1, vec![0xA5, 0x34]);
}

#[test]
fn missing_mode_falls_back_to_absolute() {
    // LDA has no zp,Y form, so `lda $12,y` must become absolute,Y; LDX
    // does have zp,Y and uses it.
    assert_eq!(bytes_of("lda $12,y"), vec![0xB9, 0x12, 0x00]);
    assert_eq!(bytes_of("ldx $12,y"), vec![0xB6, 0x12]);
}

#[test]
fn indexed_absolute() {
    assert_eq!(bytes_of("lda $1234,x"), vec![0xBD, 0x34, 0x12]);
    assert_eq!(bytes_of("sta $1234,y"), vec![0x99, 0x34, 0x12]);
}

#[test]
fn indirect_modes() {
    assert_eq!(bytes_of("lda ($10,x)"), vec![0xA1, 0x10]);
    assert_eq!(bytes_of("lda ($10),y"), vec![0xB1, 0x10]);
    assert_eq!(bytes_of("jmp ($1234)"), vec![0x6C, 0x34, 0x12]);
}

#[test]
fn implied_and_accumulator() {
    assert_eq!(bytes_of("inx"), vec![0xE8]);
    assert_eq!(bytes_of("asl"), vec![0x0A]);
    assert_eq!(bytes_of("asl a"), vec![0x0A]);
}

#[test]
fn branch_forward_and_backward() {
    let bin = assemble(" beq end\n nop\nend: nop").unwrap();
    assert_eq!(bin.segments[0].1, vec![0xF0, 0x01, 0xEA, 0xEA]);

    let bin = assemble("top: nop\n beq top").unwrap();
    assert_eq!(bin.segments[0].1, vec![0xEA, 0xF0, 0xFD]);
}

#[test]
fn branch_out_of_range_fails() {
    let err = assemble(" beq far\n .res 200\nfar: nop").unwrap_err();
    assert_eq!(err.line, 1);
}

#[test]
fn labels_and_forward_references() {
    let bin = assemble(" jmp start\n .res 3\nstart: nop").unwrap();
    assert_eq!(bin.segments[0].1[0..3], [0x4C, 0x06, 0x00]);
    assert_eq!(bin.segments[0].1.len(), 7);
}

#[test]
fn origin_directive_sets_base() {
    let bin = assemble(" .org $C000\n nop").unwrap();
    assert_eq!(bin.segments[0].0, 0xC000);
    assert_eq!(bin.segments[0].1, vec![0xEA]);
}

#[test]
fn byte_word_text_res_align() {
    let bin = assemble(
        " .byte 1,2,$03\n .word $1234, label\n .text \"hi\"\n .res 2\n .align 8\nlabel: nop",
    )
    .unwrap();
    assert_eq!(
        bin.segments[0].1,
        vec![
            0x01, 0x02, 0x03, // .byte
            0x34, 0x12, 0x10, 0x00, // .word $1234, label($0010)
            b'h', b'i', // .text
            0x00, 0x00, // .res 2
            0x00, 0x00, 0x00, 0x00, 0x00, // .align 8: 5 pad bytes to $10
            0xEA,
        ]
    );
}

#[test]
fn expressions_with_precedence() {
    let bin = assemble(" lda #(2+3*4)").unwrap();
    assert_eq!(bin.segments[0].1, vec![0xA9, 0x0E]);
    let bin = assemble(" lda #((2+3)*4)").unwrap();
    assert_eq!(bin.segments[0].1, vec![0xA9, 0x14]);
    let bin = assemble(" lda #'A'+1").unwrap();
    assert_eq!(bin.segments[0].1, vec![0xA9, 0x42]);
}

#[test]
fn multiple_origin_segments() {
    let bin = assemble(" .org $C000\n nop\n .org $FFFC\n .word $C000").unwrap();
    assert_eq!(bin.segments.len(), 2);
    assert_eq!(bin.segments[0], (0xC000, vec![0xEA]));
    assert_eq!(bin.segments[1], (0xFFFC, vec![0x00, 0xC0]));
}

#[test]
fn unknown_mnemonic_fails_with_line() {
    let err = assemble(" lda #$41\n bogus").unwrap_err();
    assert_eq!(err.line, 2);
}

#[test]
fn undefined_symbol_fails_with_line() {
    let err = assemble(" lda nowhere").unwrap_err();
    assert_eq!(err.line, 1);
}

#[test]
fn comments_and_case_insensitivity() {
    let bin = assemble(" ; leading comment\n LDA #$41 ; trailing\n NOP").unwrap();
    assert_eq!(bin.segments[0].1, vec![0xA9, 0x41, 0xEA]);
}

#[test]
fn current_address_symbol() {
    let bin = assemble(" here = *\n .byte here, here+1").unwrap();
    assert_eq!(bin.segments[0].1, vec![0x00, 0x01]);
}

#[test]
fn segments_are_maximal_contiguous_runs() {
    let bin = assemble(".org $1000\n nop\n .org $1001\n nop\n .org $2000\n .byte 1, 2\n .org $FFFF\n .byte 3\n").unwrap();
    assert_eq!(
        bin.segments,
        vec![(0x1000, vec![0xEA, 0xEA]), (0x2000, vec![1, 2]), (0xFFFF, vec![3])]
    );
    for w in bin.segments.windows(2) {
        assert_ne!(w[0].0 as usize + w[0].1.len(), w[1].0 as usize);
    }
    for (addr, bytes) in &bin.segments {
        assert!(!bytes.is_empty());
        assert!(*addr as usize + bytes.len() <= 0x1_0000);
    }
}

#[test]
fn zero_page_form_only_where_the_opcode_exists() {
    assert_eq!(bytes_of("ldx $10,y"), vec![0xB6, 0x10]);
    assert_eq!(bytes_of("lda $10,y"), vec![0xB9, 0x10, 0x00]);
    assert_eq!(bytes_of("jmp $0010"), vec![0x4C, 0x10, 0x00]);
    assert_eq!(bytes_of("lda $00FF"), vec![0xA5, 0xFF]);
    assert_eq!(bytes_of("lda $0100"), vec![0xAD, 0x00, 0x01]);
}
