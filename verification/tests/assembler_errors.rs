//! Every assembler error, with its line and message.

use vintage::assembler::assemble;

fn fails(src: &str) -> (usize, String) {
    let e = assemble(src).unwrap_err();
    (e.line, e.msg)
}

#[test]
fn lexical_errors() {
    assert_eq!(fails(" lda #$"), (1, "empty numeric literal".to_string()));
    assert_eq!(fails(" lda #99999999999"), (1, "bad number".to_string()));
    assert_eq!(fails(" lda #'ab'"), (1, "bad character literal".to_string()));
    assert_eq!(fails(" lda #@"), (1, "unexpected character '@'".to_string()));
}

#[test]
fn expression_errors() {
    assert_eq!(fails(" lda #(1"), (1, "syntax error in expression".to_string()));
    assert_eq!(fails(" lda #1 2"), (1, "trailing tokens in expression".to_string()));
}

#[test]
fn statement_errors() {
    assert_eq!(fails(" .byte"), (1, "directive needs at least one item".to_string()));
    assert_eq!(fails(" .text hi"), (1, "expected \"quoted string\"".to_string()));
    assert_eq!(fails(" .Foo 1"), (1, "unknown directive '.foo'".to_string()));
    assert_eq!(fails(" nop\n BOGUS"), (2, "unknown mnemonic 'bogus'".to_string()));
}

#[test]
fn operand_errors() {
    assert_eq!(fails(" lda (10"), (1, "unbalanced parentheses".to_string()));
    assert_eq!(
        fails(" lda ($10,y)"),
        (1, "(zp,y) does not exist; only (zp,x) and (zp),y".to_string())
    );
    assert_eq!(fails(" lda ($10),x"), (1, "malformed indirect operand".to_string()));
    assert_eq!(fails(" sta #1"), (1, "no such addressing mode for this instruction".to_string()));
    assert_eq!(fails(" lda ($1234)"), (1, "(abs) indirect is only valid on jmp".to_string()));
    assert_eq!(fails(" beq $10,x"), (1, "branches take a plain target, not an index".to_string()));
    assert_eq!(fails(" lda a"), (1, "'a' operand is only valid on shifts".to_string()));
}

#[test]
fn sizing_errors() {
    assert_eq!(fails("a: nop\na: nop"), (2, "duplicate symbol 'a'".to_string()));
    assert_eq!(fails("Top = 1\nTop: nop"), (2, "duplicate symbol 'Top'".to_string()));
    assert_eq!(fails("x = y"), (1, "equate references symbols not yet defined".to_string()));
    assert_eq!(fails(" .org later\nlater: nop"), (1, ".org needs a resolvable address".to_string()));
    assert_eq!(fails(" .res n\nn = 1"), (1, ".res needs a resolvable count".to_string()));
    assert_eq!(fails(" .res -1"), (1, ".res count is negative".to_string()));
    assert_eq!(fails(" .align n\nn = 1"), (1, ".align needs a resolvable value".to_string()));
    assert_eq!(fails(" .align 0"), (1, ".align must be positive".to_string()));
    assert_eq!(fails(" .bank n\nn = 1"), (1, ".bank needs a resolvable number".to_string()));
    assert_eq!(fails(" .bank 256"), (1, ".bank must be 0-255".to_string()));
    assert_eq!(fails(" .org $FFFF\n nop\n nop"), (3, "program runs past $FFFF".to_string()));
    assert_eq!(fails(" .org -1"), (1, "program runs past $FFFF".to_string()));
}

#[test]
fn emission_errors() {
    assert_eq!(
        fails(" nop\n .word nowhere"),
        (2, "undefined symbol or unresolvable expression".to_string())
    );
    assert_eq!(
        fails(" lda #1/0"),
        (1, "undefined symbol or unresolvable expression".to_string())
    );
    assert_eq!(fails(" beq far\n .res 200\nfar: nop"), (1, "branch target out of range".to_string()));
}

#[test]
fn a_syntax_error_anywhere_wins_over_an_earlier_sizing_error() {
    // Every line is parsed before any is sized.
    assert_eq!(fails("a: nop\na: nop\n bogus"), (3, "unknown mnemonic 'bogus'".to_string()));
}

#[test]
fn error_lines_stay_within_the_program() {
    let src = " nop\n nop\n lda missing";
    let (line, _) = fails(src);
    assert_eq!(line, src.lines().count());
}

#[test]
fn text_is_utf8() {
    let bin = assemble(" .text \"é;\"").unwrap();
    assert_eq!(bin.segments[0].1, vec![0xC3, 0xA9, b';']);
}

#[test]
fn symbol_operands_stay_absolute_even_when_small() {
    // `zp` is 16, yet the symbolic operand still takes three bytes.
    let bin = assemble("zp = $10\n lda zp\n lda <zp\n lda $10").unwrap();
    assert_eq!(bin.segments[0].1, vec![0xAD, 0x10, 0x00, 0xA5, 0x10, 0xA5, 0x10]);
}

#[test]
fn expression_operators() {
    let bin = assemble(
        " .byte 7&3, 4|1, 6^3, 1<<4, $80>>3, -1, 10/3, -7/2, <$1234, ($1234>>8)",
    )
    .unwrap();
    assert_eq!(bin.segments[0].1, vec![3, 5, 5, 16, 16, 0xFF, 3, 0xFD, 0x34, 0x12]);
}

#[test]
fn binary_and_char_literals_and_crlf_lines() {
    let bin = assemble(" .byte %1010, 'z'\r\n .word *\r\n").unwrap();
    assert_eq!(bin.segments[0].1, vec![0x0A, b'z', 0x02, 0x00]);
}

#[test]
fn comment_inside_quotes_is_text() {
    let bin = assemble(" .text \"a;b\" ; trailing").unwrap();
    assert_eq!(bin.segments[0].1, b"a;b".to_vec());
}
