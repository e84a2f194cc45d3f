//! The disassembler writes the assembler's own syntax: the text of an
//! official instruction, assembled at the same address, gives back the
//! instruction's bytes.

use vstd::prelude::*;

use crate::assembler::{
    digit_of, digits_end, digits_val, is_word, is_ws, lex, lower, p_bin, p_loop, p_primary,
    p_unary, parse_expr_spec, is_text_ci, mnemonic_of, branch_op, shift_op, comment_at, line_spec,
    operand_spec, skip_ws, trim_back, word_end, name_end, is_alpha, last_close, Index, Operand,
    Stmt, Expr, Fault, Tok, mode_choice, zp_mode, lines_from,
};
use crate::assembler::passes::{
    assembly, bank_segments, emitted, first_bad_line, instr_bytes, low_byte, place, put_all,
    rec_bytes, size_line, sizing, sizing_start, word_le, Chunk, Placed, Rec, Sizing,
};
use crate::dis::{disassembly, mnemonic_text, rel_target};
use crate::isa::{decoded, encoding, len_of, lemma_decode_then_encode, official, Mode, Op};
use crate::text::{hex2, hex4, hex_digit};

verus! {

/// The facts the assembler's scanner needs of a hex digit character.
proof fn lemma_hex_char(d: int)
    requires
        0 <= d < 16,
    ensures
        digit_of(hex_digit(d), 16) == d,
        is_word(hex_digit(d)),
        !is_ws(hex_digit(d)),
        hex_digit(d) != ',' && hex_digit(d) != ';' && hex_digit(d) != '"' && hex_digit(d) != ')'
            && hex_digit(d) != '\n' && hex_digit(d) != '.' && hex_digit(d) != '=',
        lower(hex_digit(d)) != 'x' && lower(hex_digit(d)) != 'y',
{
}

/// A number token list parses to that number.
proof fn lemma_parse_number(t: Seq<Tok>, v: i32)
    requires
        t == seq![Tok::Num(v)],
    ensures
        p_bin(t, 0, 0) == Some((Expr::Num(v), 1int)),
{
    assert(p_primary(t, 0) == Some((Expr::Num(v), 1int)));
    assert(p_unary(t, 0) == Some((Expr::Num(v), 1int)));
    assert(p_bin(t, 0, 6) == Some((Expr::Num(v), 1int)));
    assert(p_loop(t, Expr::Num(v), 1, 5) == Some((Expr::Num(v), 1int)));
    assert(p_bin(t, 0, 5) == Some((Expr::Num(v), 1int)));
    assert(p_loop(t, Expr::Num(v), 1, 4) == Some((Expr::Num(v), 1int)));
    assert(p_bin(t, 0, 4) == Some((Expr::Num(v), 1int)));
    assert(p_loop(t, Expr::Num(v), 1, 3) == Some((Expr::Num(v), 1int)));
    assert(p_bin(t, 0, 3) == Some((Expr::Num(v), 1int)));
    assert(p_loop(t, Expr::Num(v), 1, 2) == Some((Expr::Num(v), 1int)));
    assert(p_bin(t, 0, 2) == Some((Expr::Num(v), 1int)));
    assert(p_loop(t, Expr::Num(v), 1, 1) == Some((Expr::Num(v), 1int)));
    assert(p_bin(t, 0, 1) == Some((Expr::Num(v), 1int)));
    assert(p_loop(t, Expr::Num(v), 1, 0) == Some((Expr::Num(v), 1int)));
}

/// `$` and two hex digits parse to the byte they write.
proof fn lemma_parse_hex2(t: Seq<char>, i: int, b: u8, line: int)
    requires
        0 <= i,
        i + 3 <= t.len(),
        t.subrange(i, i + 3) == seq!['$'] + hex2(b),
    ensures
        parse_expr_spec(t, i, i + 3, line) == Ok::<Expr, Fault>(Expr::Num(b as i32)),
{
    let d1 = (b / 16) as int;
    let d0 = (b % 16) as int;
    lemma_hex_char(d1);
    lemma_hex_char(d0);
    assert(t[i] == t.subrange(i, i + 3)[0]);
    assert(t[i + 1] == t.subrange(i, i + 3)[1]);
    assert(t[i + 2] == t.subrange(i, i + 3)[2]);
    assert(digits_end(t, i + 3, i + 3, 16) == i + 3);
    assert(digits_end(t, i + 2, i + 3, 16) == i + 3);
    assert(digits_end(t, i + 1, i + 3, 16) == i + 3);
    assert(digits_val(t, i + 1, i + 1, 16) == 0);
    assert(digits_val(t, i + 1, i + 2, 16) == d1);
    assert(digits_val(t, i + 1, i + 3, 16) == b);
    assert(lex(t, i + 3, i + 3, line) == Ok::<Seq<Tok>, Fault>(seq![]));
    assert(lex(t, i, i + 3, line) == Ok::<Seq<Tok>, Fault>(seq![Tok::Num(b as i32)]));
    lemma_parse_number(seq![Tok::Num(b as i32)], b as i32);
}

/// `$` and four hex digits parse to the word they write.
proof fn lemma_parse_hex4(t: Seq<char>, i: int, w: u16, line: int)
    requires
        0 <= i,
        i + 5 <= t.len(),
        t.subrange(i, i + 5) == seq!['$'] + hex4(w),
    ensures
        parse_expr_spec(t, i, i + 5, line) == Ok::<Expr, Fault>(Expr::Num(w as i32)),
{
    let d3 = (w / 4096) as int;
    let d2 = (w / 256 % 16) as int;
    let d1 = (w / 16 % 16) as int;
    let d0 = (w % 16) as int;
    lemma_hex_char(d3);
    lemma_hex_char(d2);
    lemma_hex_char(d1);
    lemma_hex_char(d0);
    assert(t[i] == t.subrange(i, i + 5)[0]);
    assert(t[i + 1] == t.subrange(i, i + 5)[1]);
    assert(t[i + 2] == t.subrange(i, i + 5)[2]);
    assert(t[i + 3] == t.subrange(i, i + 5)[3]);
    assert(t[i + 4] == t.subrange(i, i + 5)[4]);
    assert(digits_end(t, i + 5, i + 5, 16) == i + 5);
    assert(digits_end(t, i + 4, i + 5, 16) == i + 5);
    assert(digits_end(t, i + 3, i + 5, 16) == i + 5);
    assert(digits_end(t, i + 2, i + 5, 16) == i + 5);
    assert(digits_end(t, i + 1, i + 5, 16) == i + 5);
    assert(digits_val(t, i + 1, i + 1, 16) == 0);
    assert(digits_val(t, i + 1, i + 2, 16) == d3);
    assert(digits_val(t, i + 1, i + 3, 16) == d3 * 16 + d2);
    assert(digits_val(t, i + 1, i + 4, 16) == (d3 * 16 + d2) * 16 + d1);
    assert(digits_val(t, i + 1, i + 5, 16) == w);
    assert(lex(t, i + 5, i + 5, line) == Ok::<Seq<Tok>, Fault>(seq![]));
    assert(lex(t, i, i + 5, line) == Ok::<Seq<Tok>, Fault>(seq![Tok::Num(w as i32)]));
    lemma_parse_number(seq![Tok::Num(w as i32)], w as i32);
}


/// Three-letter text compares, ignoring case, character by character.
proof fn lemma_text_ci3(t: Seq<char>, a: int)
    requires
        0 <= a,
        a + 3 <= t.len(),
    ensures
        forall|lit: Seq<char>|
            lit.len() == 3 ==> (#[trigger] is_text_ci(t, a, a + 3, lit) <==> (lower(t[a]) == lit[0]
                && lower(t[a + 1]) == lit[1] && lower(t[a + 2]) == lit[2])),
{
    assert forall|lit: Seq<char>| lit.len() == 3 implies (#[trigger] is_text_ci(t, a, a + 3, lit) <==> (
    lower(t[a]) == lit[0] && lower(t[a + 1]) == lit[1] && lower(t[a + 2]) == lit[2])) by {
        if lower(t[a]) == lit[0] && lower(t[a + 1]) == lit[1] && lower(t[a + 2]) == lit[2] {
            assert forall|k: int| 0 <= k < lit.len() implies lower(#[trigger] t[a + k]) == lit[k] by {
                if k == 0 {
                } else if k == 1 {
                } else {
                }
            }
        }
        if is_text_ci(t, a, a + 3, lit) {
            assert(lower(t[a + 0]) == lit[0]);
            assert(lower(t[a + 1]) == lit[1]);
            assert(lower(t[a + 2]) == lit[2]);
        }
    }
}

/// A mnemonic as the disassembler writes it names its operation.
proof fn lemma_mnemonic_roundtrip(t: Seq<char>, a: int, op: Op)
    requires
        0 <= a,
        a + 3 <= t.len(),
        t.subrange(a, a + 3) == mnemonic_text(op),
    ensures
        mnemonic_of(t, a, a + 3) == Some(op),
{
    reveal_strlit("lda");
    reveal_strlit("ldx");
    reveal_strlit("ldy");
    reveal_strlit("sta");
    reveal_strlit("stx");
    reveal_strlit("sty");
    reveal_strlit("adc");
    reveal_strlit("sbc");
    reveal_strlit("and");
    reveal_strlit("ora");
    reveal_strlit("eor");
    reveal_strlit("cmp");
    reveal_strlit("cpx");
    reveal_strlit("cpy");
    reveal_strlit("inc");
    reveal_strlit("dec");
    reveal_strlit("asl");
    reveal_strlit("lsr");
    reveal_strlit("rol");
    reveal_strlit("ror");
    reveal_strlit("bit");
    reveal_strlit("jmp");
    reveal_strlit("jsr");
    reveal_strlit("rts");
    reveal_strlit("rti");
    reveal_strlit("bpl");
    reveal_strlit("bmi");
    reveal_strlit("bvc");
    reveal_strlit("bvs");
    reveal_strlit("bcc");
    reveal_strlit("bcs");
    reveal_strlit("bne");
    reveal_strlit("beq");
    reveal_strlit("inx");
    reveal_strlit("iny");
    reveal_strlit("dex");
    reveal_strlit("dey");
    reveal_strlit("tax");
    reveal_strlit("tay");
    reveal_strlit("txa");
    reveal_strlit("tya");
    reveal_strlit("tsx");
    reveal_strlit("txs");
    reveal_strlit("pha");
    reveal_strlit("php");
    reveal_strlit("pla");
    reveal_strlit("plp");
    reveal_strlit("clc");
    reveal_strlit("sec");
    reveal_strlit("cli");
    reveal_strlit("sei");
    reveal_strlit("cld");
    reveal_strlit("sed");
    reveal_strlit("clv");
    reveal_strlit("brk");
    reveal_strlit("nop");
    lemma_text_ci3(t, a);
    assert(t[a] == t.subrange(a, a + 3)[0]);
    assert(t[a + 1] == t.subrange(a, a + 3)[1]);
    assert(t[a + 2] == t.subrange(a, a + 3)[2]);
    match op {
        Op::Lda => {},
        Op::Ldx => {},
        Op::Ldy => {},
        Op::Sta => {},
        Op::Stx => {},
        Op::Sty => {},
        Op::Adc => {},
        Op::Sbc => {},
        Op::And => {},
        Op::Ora => {},
        Op::Eor => {},
        Op::Cmp => {},
        Op::Cpx => {},
        Op::Cpy => {},
        Op::Inc => {},
        Op::Dec => {},
        Op::Asl => {},
        Op::Lsr => {},
        Op::Rol => {},
        Op::Ror => {},
        Op::Bit => {},
        Op::Jmp => {},
        Op::Jsr => {},
        Op::Rts => {},
        Op::Rti => {},
        Op::BrPl => {},
        Op::BrMi => {},
        Op::BrVc => {},
        Op::BrVs => {},
        Op::BrCc => {},
        Op::BrCs => {},
        Op::BrNe => {},
        Op::BrEq => {},
        Op::Inx => {},
        Op::Iny => {},
        Op::Dex => {},
        Op::Dey => {},
        Op::Tax => {},
        Op::Tay => {},
        Op::Txa => {},
        Op::Tya => {},
        Op::Tsx => {},
        Op::Txs => {},
        Op::Pha => {},
        Op::Php => {},
        Op::Pla => {},
        Op::Plp => {},
        Op::Clc => {},
        Op::Sec => {},
        Op::Cli => {},
        Op::Sei => {},
        Op::Cld => {},
        Op::Sed => {},
        Op::Clv => {},
        Op::Brk => {},
        Op::Nop => {},
    }
}


/// Mnemonics are three lower-case letters.
proof fn lemma_mnemonic_letters(op: Op)
    ensures
        mnemonic_text(op).len() == 3,
        forall|k: int| 0 <= k < 3 ==> 'a' <= #[trigger] mnemonic_text(op)[k] <= 'z',
{
    reveal_strlit("lda");
    reveal_strlit("ldx");
    reveal_strlit("ldy");
    reveal_strlit("sta");
    reveal_strlit("stx");
    reveal_strlit("sty");
    reveal_strlit("adc");
    reveal_strlit("sbc");
    reveal_strlit("and");
    reveal_strlit("ora");
    reveal_strlit("eor");
    reveal_strlit("cmp");
    reveal_strlit("cpx");
    reveal_strlit("cpy");
    reveal_strlit("inc");
    reveal_strlit("dec");
    reveal_strlit("asl");
    reveal_strlit("lsr");
    reveal_strlit("rol");
    reveal_strlit("ror");
    reveal_strlit("bit");
    reveal_strlit("jmp");
    reveal_strlit("jsr");
    reveal_strlit("rts");
    reveal_strlit("rti");
    reveal_strlit("bpl");
    reveal_strlit("bmi");
    reveal_strlit("bvc");
    reveal_strlit("bvs");
    reveal_strlit("bcc");
    reveal_strlit("bcs");
    reveal_strlit("bne");
    reveal_strlit("beq");
    reveal_strlit("inx");
    reveal_strlit("iny");
    reveal_strlit("dex");
    reveal_strlit("dey");
    reveal_strlit("tax");
    reveal_strlit("tay");
    reveal_strlit("txa");
    reveal_strlit("tya");
    reveal_strlit("tsx");
    reveal_strlit("txs");
    reveal_strlit("pha");
    reveal_strlit("php");
    reveal_strlit("pla");
    reveal_strlit("plp");
    reveal_strlit("clc");
    reveal_strlit("sec");
    reveal_strlit("cli");
    reveal_strlit("sei");
    reveal_strlit("cld");
    reveal_strlit("sed");
    reveal_strlit("clv");
    reveal_strlit("brk");
    reveal_strlit("nop");
    match op {
        Op::Lda => {},
        Op::Ldx => {},
        Op::Ldy => {},
        Op::Sta => {},
        Op::Stx => {},
        Op::Sty => {},
        Op::Adc => {},
        Op::Sbc => {},
        Op::And => {},
        Op::Ora => {},
        Op::Eor => {},
        Op::Cmp => {},
        Op::Cpx => {},
        Op::Cpy => {},
        Op::Inc => {},
        Op::Dec => {},
        Op::Asl => {},
        Op::Lsr => {},
        Op::Rol => {},
        Op::Ror => {},
        Op::Bit => {},
        Op::Jmp => {},
        Op::Jsr => {},
        Op::Rts => {},
        Op::Rti => {},
        Op::BrPl => {},
        Op::BrMi => {},
        Op::BrVc => {},
        Op::BrVs => {},
        Op::BrCc => {},
        Op::BrCs => {},
        Op::BrNe => {},
        Op::BrEq => {},
        Op::Inx => {},
        Op::Iny => {},
        Op::Dex => {},
        Op::Dey => {},
        Op::Tax => {},
        Op::Tay => {},
        Op::Txa => {},
        Op::Tya => {},
        Op::Tsx => {},
        Op::Txs => {},
        Op::Pha => {},
        Op::Php => {},
        Op::Pla => {},
        Op::Plp => {},
        Op::Clc => {},
        Op::Sec => {},
        Op::Cli => {},
        Op::Sei => {},
        Op::Cld => {},
        Op::Sed => {},
        Op::Clv => {},
        Op::Brk => {},
        Op::Nop => {},
    }
}

/// The modes an operation's opcodes can take, as the assembler's mode
/// choice relies on them.
proof fn lemma_mode_families(op: Op, mode: Mode)
    requires
        encoding(op, mode) is Some,
    ensures
        mode == Mode::Rel <==> branch_op(op),
        mode == Mode::Acc ==> shift_op(op),
        mode == Mode::Imp ==> !shift_op(op),
        mode == Mode::Ind ==> op == Op::Jmp,
{
    match op {
        Op::Lda => {},
        Op::Ldx => {},
        Op::Ldy => {},
        Op::Sta => {},
        Op::Stx => {},
        Op::Sty => {},
        Op::Adc => {},
        Op::Sbc => {},
        Op::And => {},
        Op::Ora => {},
        Op::Eor => {},
        Op::Cmp => {},
        Op::Cpx => {},
        Op::Cpy => {},
        Op::Inc => {},
        Op::Dec => {},
        Op::Asl => {},
        Op::Lsr => {},
        Op::Rol => {},
        Op::Ror => {},
        Op::Bit => {},
        Op::Jmp => {},
        Op::Jsr => {},
        Op::Rts => {},
        Op::Rti => {},
        Op::BrPl => {},
        Op::BrMi => {},
        Op::BrVc => {},
        Op::BrVs => {},
        Op::BrCc => {},
        Op::BrCs => {},
        Op::BrNe => {},
        Op::BrEq => {},
        Op::Inx => {},
        Op::Iny => {},
        Op::Dex => {},
        Op::Dey => {},
        Op::Tax => {},
        Op::Tay => {},
        Op::Txa => {},
        Op::Tya => {},
        Op::Tsx => {},
        Op::Txs => {},
        Op::Pha => {},
        Op::Php => {},
        Op::Pla => {},
        Op::Plp => {},
        Op::Clc => {},
        Op::Sec => {},
        Op::Cli => {},
        Op::Sei => {},
        Op::Cld => {},
        Op::Sed => {},
        Op::Clv => {},
        Op::Brk => {},
        Op::Nop => {},
    }
}


proof fn lemma_no_comment(t: Seq<char>, i: int, end: int, s: bool)
    requires
        0 <= i <= end <= t.len(),
        forall|k: int| i <= k < end ==> t[k] != ';' && t[k] != '"',
    ensures
        comment_at(t, i, end, s) == end,
    decreases end - i,
{
    if i < end {
        lemma_no_comment(t, i + 1, end, s);
    }
}

/// A line holding a mnemonic and an operand text (empty, or a space and
/// the operand) is that instruction, its operand read after the mnemonic.
#[verifier::spinoff_prover]
#[verifier::rlimit(60)]
proof fn lemma_instruction_line(t: Seq<char>, s: int, e: int, op: Op, suffix: Seq<char>, line: int)
    requires
        0 <= s <= e <= t.len(),
        t.subrange(s, e) == seq![' '] + mnemonic_text(op) + suffix,
        forall|k: int| 0 <= k < suffix.len() ==> suffix[k] != ';' && suffix[k] != '"',
        suffix.len() == 0 || (suffix.len() >= 2 && suffix[0] == ' ' && !is_ws(suffix[1])
            && suffix[1] != '=' && !is_ws(suffix.last())),
    ensures
        line_spec(t, s, e, line) == match operand_spec(
            t,
            s + if suffix.len() == 0 { 4int } else { 5int },
            e,
            line,
        ) {
            Ok(o) => Ok::<(Option<(usize, usize)>, Stmt), Fault>((None, Stmt::Instr(op, o))),
            Err(f) => Err(f),
        },
{
    reveal(line_spec);
    reveal_strlit(".org");
    reveal_strlit(".byte");
    reveal_strlit(".word");
    reveal_strlit(".text");
    reveal_strlit(".res");
    reveal_strlit(".align");
    reveal_strlit(".bank");
    lemma_mnemonic_letters(op);
    let name = mnemonic_text(op);
    let u = t.subrange(s, e);
    assert(u.len() == e - s);
    assert(e - s == 4 + suffix.len());
    assert forall|k: int| s <= k < e implies t[k] == u[k - s] by {}
    assert(t[s] == ' ');
    assert(t[s + 1] == name[0] && t[s + 2] == name[1] && t[s + 3] == name[2]);
    assert forall|k: int| s + 4 <= k < e implies t[k] == suffix[k - s - 4] by {
        assert(u[k - s] == suffix[k - s - 4]);
    }
    assert(t.subrange(s + 1, s + 4) =~= name);
    lemma_mnemonic_roundtrip(t, s + 1, op);
    assert forall|k: int| s <= k < e implies t[k] != ';' && t[k] != '"' by {
        if s + 1 <= k < s + 4 {
            assert(name[k - s - 1] == t[k]);
        }
        if k >= s + 4 {
            assert(suffix[k - s - 4] == t[k]);
        }
    }
    lemma_no_comment(t, s, e, false);
    assert(!is_ws(t[s + 1]) && is_alpha(t[s + 1]) && is_word(t[s + 1]) && is_word(t[s + 2])
        && is_word(t[s + 3]));
    assert(skip_ws(t, s + 1, e) == s + 1);
    assert(skip_ws(t, s, e) == s + 1);
    assert(word_end(t, s + 4, e) == s + 4);
    assert(word_end(t, s + 3, e) == s + 4);
    assert(word_end(t, s + 2, e) == s + 4);
    assert(word_end(t, s + 1, e) == s + 4);
    assert(name_end(t, s + 4, e) == s + 4);
    assert(name_end(t, s + 3, e) == s + 4);
    assert(name_end(t, s + 2, e) == s + 4);
    assert(name_end(t, s + 1, e) == s + 4);
    assert(!is_ws(t[e - 1]));
    assert(trim_back(t, s + 1, e) == e);
    if suffix.len() == 0 {
        assert(skip_ws(t, s + 4, e) == e);
    } else {
        assert(t[s + 4] == ' ' && !is_ws(t[s + 5]) && t[s + 5] != '=');
        assert(skip_ws(t, s + 5, e) == s + 5);
        assert(skip_ws(t, s + 4, e) == s + 5);
    }
}


/// The operand text the disassembler writes in a mode, for operand byte
/// `b` or operand word `w`.
pub open spec fn operand_text(mode: Mode, b: u8, w: u16) -> Seq<char> {
    match mode {
        Mode::Imp => seq![],
        Mode::Acc => seq!['a'],
        Mode::Imm => seq!['#', '$'] + hex2(b),
        Mode::Zp => seq!['$'] + hex2(b),
        Mode::Zpx => seq!['$'] + hex2(b) + seq![',', 'x'],
        Mode::Zpy => seq!['$'] + hex2(b) + seq![',', 'y'],
        Mode::Izx => seq!['(', '$'] + hex2(b) + seq![',', 'x', ')'],
        Mode::Izy => seq!['(', '$'] + hex2(b) + seq![')', ',', 'y'],
        Mode::Abs | Mode::Rel => seq!['$'] + hex4(w),
        Mode::Abx => seq!['$'] + hex4(w) + seq![',', 'x'],
        Mode::Aby => seq!['$'] + hex4(w) + seq![',', 'y'],
        Mode::Ind => seq!['(', '$'] + hex4(w) + seq![')'],
    }
}

/// The operand the assembler reads from that text.
pub open spec fn operand_read(mode: Mode, b: u8, w: u16) -> Operand {
    match mode {
        Mode::Imp => Operand::Absent,
        Mode::Acc => Operand::A,
        Mode::Imm => Operand::Imm(Expr::Num(b as i32)),
        Mode::Zp => Operand::Abs(Expr::Num(b as i32), Index::Plain),
        Mode::Zpx => Operand::Abs(Expr::Num(b as i32), Index::X),
        Mode::Zpy => Operand::Abs(Expr::Num(b as i32), Index::Y),
        Mode::Izx => Operand::Izx(Expr::Num(b as i32)),
        Mode::Izy => Operand::Izy(Expr::Num(b as i32)),
        Mode::Abs | Mode::Rel => Operand::Abs(Expr::Num(w as i32), Index::Plain),
        Mode::Abx => Operand::Abs(Expr::Num(w as i32), Index::X),
        Mode::Aby => Operand::Abs(Expr::Num(w as i32), Index::Y),
        Mode::Ind => Operand::Ind(Expr::Num(w as i32)),
    }
}


#[verifier::spinoff_prover]
#[verifier::rlimit(30)]
proof fn lemma_read_acc(t: Seq<char>, p: int, e: int, line: int)
    requires
        0 <= p <= e <= t.len(),
        t.subrange(p, e) == seq!['a'],
    ensures
        operand_spec(t, p, e, line) == Ok::<Operand, Fault>(Operand::A),
{
    assert(t.subrange(p, e).len() == e - p);
    assert(e == p + 1);
    assert(t[p + 0] == t.subrange(p, e)[0]);
    assert(skip_ws(t, p, e) == p);
    assert(trim_back(t, p, e) == e);
}

#[verifier::spinoff_prover]
#[verifier::rlimit(30)]
proof fn lemma_read_imm(t: Seq<char>, p: int, e: int, b: u8, line: int)
    requires
        0 <= p <= e <= t.len(),
        t.subrange(p, e) == seq!['#', '$'] + hex2(b),
    ensures
        operand_spec(t, p, e, line) == Ok::<Operand, Fault>(Operand::Imm(Expr::Num(b as i32))),
{
    assert(t.subrange(p, e).len() == e - p);
    assert(e == p + 4);
    lemma_hex_char((b / 16) as int);
    lemma_hex_char((b % 16) as int);
    assert(t[p + 0] == t.subrange(p, e)[0]);
    assert(t[p + 1] == t.subrange(p, e)[1]);
    assert(t[p + 2] == t.subrange(p, e)[2]);
    assert(t[p + 3] == t.subrange(p, e)[3]);
    assert(skip_ws(t, p, e) == p);
    assert(trim_back(t, p, e) == e);
    assert(t.subrange(p + 1, p + 4) =~= seq!['$'] + hex2(b));
    lemma_parse_hex2(t, p + 1, b, line);
}

#[verifier::spinoff_prover]
#[verifier::rlimit(30)]
proof fn lemma_read_zp(t: Seq<char>, p: int, e: int, b: u8, line: int)
    requires
        0 <= p <= e <= t.len(),
        t.subrange(p, e) == seq!['$'] + hex2(b),
    ensures
        operand_spec(t, p, e, line) == Ok::<Operand, Fault>(Operand::Abs(Expr::Num(b as i32), Index::Plain)),
{
    assert(t.subrange(p, e).len() == e - p);
    assert(e == p + 3);
    lemma_hex_char((b / 16) as int);
    lemma_hex_char((b % 16) as int);
    assert(t[p + 0] == t.subrange(p, e)[0]);
    assert(t[p + 1] == t.subrange(p, e)[1]);
    assert(t[p + 2] == t.subrange(p, e)[2]);
    assert(skip_ws(t, p, e) == p);
    assert(trim_back(t, p, e) == e);
    assert(t.subrange(p, p + 3) =~= seq!['$'] + hex2(b));
    lemma_parse_hex2(t, p, b, line);
}

#[verifier::spinoff_prover]
#[verifier::rlimit(30)]
proof fn lemma_read_zpx(t: Seq<char>, p: int, e: int, b: u8, line: int)
    requires
        0 <= p <= e <= t.len(),
        t.subrange(p, e) == seq!['$'] + hex2(b) + seq![',', 'x'],
    ensures
        operand_spec(t, p, e, line) == Ok::<Operand, Fault>(Operand::Abs(Expr::Num(b as i32), Index::X)),
{
    assert(t.subrange(p, e).len() == e - p);
    assert(e == p + 5);
    lemma_hex_char((b / 16) as int);
    lemma_hex_char((b % 16) as int);
    assert(t[p + 0] == t.subrange(p, e)[0]);
    assert(t[p + 1] == t.subrange(p, e)[1]);
    assert(t[p + 2] == t.subrange(p, e)[2]);
    assert(t[p + 3] == t.subrange(p, e)[3]);
    assert(t[p + 4] == t.subrange(p, e)[4]);
    assert(skip_ws(t, p, e) == p);
    assert(trim_back(t, p, e) == e);
    assert(t.subrange(p, p + 3) =~= seq!['$'] + hex2(b));
    lemma_parse_hex2(t, p, b, line);
}

#[verifier::spinoff_prover]
#[verifier::rlimit(30)]
proof fn lemma_read_zpy(t: Seq<char>, p: int, e: int, b: u8, line: int)
    requires
        0 <= p <= e <= t.len(),
        t.subrange(p, e) == seq!['$'] + hex2(b) + seq![',', 'y'],
    ensures
        operand_spec(t, p, e, line) == Ok::<Operand, Fault>(Operand::Abs(Expr::Num(b as i32), Index::Y)),
{
    assert(t.subrange(p, e).len() == e - p);
    assert(e == p + 5);
    lemma_hex_char((b / 16) as int);
    lemma_hex_char((b % 16) as int);
    assert(t[p + 0] == t.subrange(p, e)[0]);
    assert(t[p + 1] == t.subrange(p, e)[1]);
    assert(t[p + 2] == t.subrange(p, e)[2]);
    assert(t[p + 3] == t.subrange(p, e)[3]);
    assert(t[p + 4] == t.subrange(p, e)[4]);
    assert(skip_ws(t, p, e) == p);
    assert(trim_back(t, p, e) == e);
    assert(t.subrange(p, p + 3) =~= seq!['$'] + hex2(b));
    lemma_parse_hex2(t, p, b, line);
}

#[verifier::spinoff_prover]
#[verifier::rlimit(30)]
proof fn lemma_read_izx(t: Seq<char>, p: int, e: int, b: u8, line: int)
    requires
        0 <= p <= e <= t.len(),
        t.subrange(p, e) == seq!['(', '$'] + hex2(b) + seq![',', 'x', ')'],
    ensures
        operand_spec(t, p, e, line) == Ok::<Operand, Fault>(Operand::Izx(Expr::Num(b as i32))),
{
    assert(t.subrange(p, e).len() == e - p);
    assert(e == p + 7);
    lemma_hex_char((b / 16) as int);
    lemma_hex_char((b % 16) as int);
    assert(t[p + 0] == t.subrange(p, e)[0]);
    assert(t[p + 1] == t.subrange(p, e)[1]);
    assert(t[p + 2] == t.subrange(p, e)[2]);
    assert(t[p + 3] == t.subrange(p, e)[3]);
    assert(t[p + 4] == t.subrange(p, e)[4]);
    assert(t[p + 5] == t.subrange(p, e)[5]);
    assert(t[p + 6] == t.subrange(p, e)[6]);
    assert(skip_ws(t, p, e) == p);
    assert(trim_back(t, p, e) == e);
    assert(last_close(t, p, e) == e - 1);
    assert(skip_ws(t, p + 1, e - 1) == p + 1);
    assert(trim_back(t, p + 1, e - 1) == e - 1);
    assert(t.subrange(p + 1, p + 4) =~= seq!['$'] + hex2(b));
    lemma_parse_hex2(t, p + 1, b, line);
}

#[verifier::spinoff_prover]
#[verifier::rlimit(30)]
proof fn lemma_read_izy(t: Seq<char>, p: int, e: int, b: u8, line: int)
    requires
        0 <= p <= e <= t.len(),
        t.subrange(p, e) == seq!['(', '$'] + hex2(b) + seq![')', ',', 'y'],
    ensures
        operand_spec(t, p, e, line) == Ok::<Operand, Fault>(Operand::Izy(Expr::Num(b as i32))),
{
    assert(t.subrange(p, e).len() == e - p);
    assert(e == p + 7);
    lemma_hex_char((b / 16) as int);
    lemma_hex_char((b % 16) as int);
    assert(t[p + 0] == t.subrange(p, e)[0]);
    assert(t[p + 1] == t.subrange(p, e)[1]);
    assert(t[p + 2] == t.subrange(p, e)[2]);
    assert(t[p + 3] == t.subrange(p, e)[3]);
    assert(t[p + 4] == t.subrange(p, e)[4]);
    assert(t[p + 5] == t.subrange(p, e)[5]);
    assert(t[p + 6] == t.subrange(p, e)[6]);
    assert(skip_ws(t, p, e) == p);
    assert(trim_back(t, p, e) == e);
    assert(last_close(t, p, e - 2) == e - 3);
    assert(last_close(t, p, e - 1) == e - 3);
    assert(last_close(t, p, e) == e - 3);
    assert(skip_ws(t, p + 1, e - 3) == p + 1);
    assert(trim_back(t, p + 1, e - 3) == e - 3);
    assert(skip_ws(t, e - 2, e) == e - 2);
    assert(t.subrange(p + 1, p + 4) =~= seq!['$'] + hex2(b));
    lemma_parse_hex2(t, p + 1, b, line);
    reveal_strlit(",y");
    assert(is_text_ci(t, e - 2, e, ",y"@)) by {
        assert(lower(t[e - 2 + 0]) == ",y"@[0]);
        assert(lower(t[e - 2 + 1]) == ",y"@[1]);
    }
}

#[verifier::spinoff_prover]
#[verifier::rlimit(30)]
proof fn lemma_read_abs(t: Seq<char>, p: int, e: int, w: u16, line: int)
    requires
        0 <= p <= e <= t.len(),
        t.subrange(p, e) == seq!['$'] + hex4(w),
    ensures
        operand_spec(t, p, e, line) == Ok::<Operand, Fault>(Operand::Abs(Expr::Num(w as i32), Index::Plain)),
{
    assert(t.subrange(p, e).len() == e - p);
    assert(e == p + 5);
    lemma_hex_char((w / 4096) as int);
    lemma_hex_char((w / 256 % 16) as int);
    lemma_hex_char((w / 16 % 16) as int);
    lemma_hex_char((w % 16) as int);
    assert(t[p + 0] == t.subrange(p, e)[0]);
    assert(t[p + 1] == t.subrange(p, e)[1]);
    assert(t[p + 2] == t.subrange(p, e)[2]);
    assert(t[p + 3] == t.subrange(p, e)[3]);
    assert(t[p + 4] == t.subrange(p, e)[4]);
    assert(skip_ws(t, p, e) == p);
    assert(trim_back(t, p, e) == e);
    assert(t.subrange(p, p + 5) =~= seq!['$'] + hex4(w));
    lemma_parse_hex4(t, p, w, line);
}

#[verifier::spinoff_prover]
#[verifier::rlimit(30)]
proof fn lemma_read_abx(t: Seq<char>, p: int, e: int, w: u16, line: int)
    requires
        0 <= p <= e <= t.len(),
        t.subrange(p, e) == seq!['$'] + hex4(w) + seq![',', 'x'],
    ensures
        operand_spec(t, p, e, line) == Ok::<Operand, Fault>(Operand::Abs(Expr::Num(w as i32), Index::X)),
{
    assert(t.subrange(p, e).len() == e - p);
    assert(e == p + 7);
    lemma_hex_char((w / 4096) as int);
    lemma_hex_char((w / 256 % 16) as int);
    lemma_hex_char((w / 16 % 16) as int);
    lemma_hex_char((w % 16) as int);
    assert(t[p + 0] == t.subrange(p, e)[0]);
    assert(t[p + 1] == t.subrange(p, e)[1]);
    assert(t[p + 2] == t.subrange(p, e)[2]);
    assert(t[p + 3] == t.subrange(p, e)[3]);
    assert(t[p + 4] == t.subrange(p, e)[4]);
    assert(t[p + 5] == t.subrange(p, e)[5]);
    assert(t[p + 6] == t.subrange(p, e)[6]);
    assert(skip_ws(t, p, e) == p);
    assert(trim_back(t, p, e) == e);
    assert(t.subrange(p, p + 5) =~= seq!['$'] + hex4(w));
    lemma_parse_hex4(t, p, w, line);
}

#[verifier::spinoff_prover]
#[verifier::rlimit(30)]
proof fn lemma_read_aby(t: Seq<char>, p: int, e: int, w: u16, line: int)
    requires
        0 <= p <= e <= t.len(),
        t.subrange(p, e) == seq!['$'] + hex4(w) + seq![',', 'y'],
    ensures
        operand_spec(t, p, e, line) == Ok::<Operand, Fault>(Operand::Abs(Expr::Num(w as i32), Index::Y)),
{
    assert(t.subrange(p, e).len() == e - p);
    assert(e == p + 7);
    lemma_hex_char((w / 4096) as int);
    lemma_hex_char((w / 256 % 16) as int);
    lemma_hex_char((w / 16 % 16) as int);
    lemma_hex_char((w % 16) as int);
    assert(t[p + 0] == t.subrange(p, e)[0]);
    assert(t[p + 1] == t.subrange(p, e)[1]);
    assert(t[p + 2] == t.subrange(p, e)[2]);
    assert(t[p + 3] == t.subrange(p, e)[3]);
    assert(t[p + 4] == t.subrange(p, e)[4]);
    assert(t[p + 5] == t.subrange(p, e)[5]);
    assert(t[p + 6] == t.subrange(p, e)[6]);
    assert(skip_ws(t, p, e) == p);
    assert(trim_back(t, p, e) == e);
    assert(t.subrange(p, p + 5) =~= seq!['$'] + hex4(w));
    lemma_parse_hex4(t, p, w, line);
}

#[verifier::spinoff_prover]
#[verifier::rlimit(30)]
proof fn lemma_read_ind(t: Seq<char>, p: int, e: int, w: u16, line: int)
    requires
        0 <= p <= e <= t.len(),
        t.subrange(p, e) == seq!['(', '$'] + hex4(w) + seq![')'],
    ensures
        operand_spec(t, p, e, line) == Ok::<Operand, Fault>(Operand::Ind(Expr::Num(w as i32))),
{
    assert(t.subrange(p, e).len() == e - p);
    assert(e == p + 7);
    lemma_hex_char((w / 4096) as int);
    lemma_hex_char((w / 256 % 16) as int);
    lemma_hex_char((w / 16 % 16) as int);
    lemma_hex_char((w % 16) as int);
    assert(t[p + 0] == t.subrange(p, e)[0]);
    assert(t[p + 1] == t.subrange(p, e)[1]);
    assert(t[p + 2] == t.subrange(p, e)[2]);
    assert(t[p + 3] == t.subrange(p, e)[3]);
    assert(t[p + 4] == t.subrange(p, e)[4]);
    assert(t[p + 5] == t.subrange(p, e)[5]);
    assert(t[p + 6] == t.subrange(p, e)[6]);
    assert(skip_ws(t, p, e) == p);
    assert(trim_back(t, p, e) == e);
    assert(last_close(t, p, e) == e - 1);
    assert(skip_ws(t, p + 1, e - 1) == p + 1);
    assert(trim_back(t, p + 1, e - 1) == e - 1);
    assert(t.subrange(p + 1, p + 6) =~= seq!['$'] + hex4(w));
    lemma_parse_hex4(t, p + 1, w, line);
}

/// Operand text as the disassembler writes it reads back as that operand.
proof fn lemma_operand_reads_back(t: Seq<char>, p: int, e: int, mode: Mode, b: u8, w: u16, line: int)
    requires
        mode != Mode::Imp,
        0 <= p <= e <= t.len(),
        t.subrange(p, e) == operand_text(mode, b, w),
    ensures
        operand_spec(t, p, e, line) == Ok::<Operand, Fault>(operand_read(mode, b, w)),
{
    match mode {
        Mode::Imp => {},
        Mode::Acc => lemma_read_acc(t, p, e, line),
        Mode::Imm => lemma_read_imm(t, p, e, b, line),
        Mode::Zp => lemma_read_zp(t, p, e, b, line),
        Mode::Zpx => lemma_read_zpx(t, p, e, b, line),
        Mode::Zpy => lemma_read_zpy(t, p, e, b, line),
        Mode::Izx => lemma_read_izx(t, p, e, b, line),
        Mode::Izy => lemma_read_izy(t, p, e, b, line),
        Mode::Abs | Mode::Rel => lemma_read_abs(t, p, e, w, line),
        Mode::Abx => lemma_read_abx(t, p, e, w, line),
        Mode::Aby => lemma_read_aby(t, p, e, w, line),
        Mode::Ind => lemma_read_ind(t, p, e, w, line),
    }
}


/// The operand byte of an instruction's bytes (0 when it has none).
pub open spec fn operand_byte(bytes: Seq<u8>) -> u8 {
    if bytes.len() >= 2 {
        bytes[1]
    } else {
        0
    }
}

/// The operand word the disassembler prints: the branch target for a
/// relative branch, the little-endian word of a three-byte instruction.
pub open spec fn operand_word(bytes: Seq<u8>, pc: u16, mode: Mode) -> u16 {
    if mode == Mode::Rel {
        rel_target(pc, operand_byte(bytes))
    } else if bytes.len() >= 3 {
        (bytes[1] + 256 * bytes[2]) as u16
    } else {
        0
    }
}

/// The text after the mnemonic: nothing, or a space and the operand.
pub open spec fn after_mnemonic(mode: Mode, b: u8, w: u16) -> Seq<char> {
    if mode == Mode::Imp {
        seq![]
    } else {
        seq![' '] + operand_text(mode, b, w)
    }
}

/// The disassembly of a complete instruction is its mnemonic and its
/// operand text.
proof fn lemma_disassembly_shape(bytes: Seq<u8>, pc: u16)
    requires
        bytes.len() >= 1,
        bytes.len() >= len_of(decoded(bytes[0]).1),
    ensures
        disassembly(bytes, pc) == Some((
            len_of(decoded(bytes[0]).1),
            mnemonic_text(decoded(bytes[0]).0) + after_mnemonic(
                decoded(bytes[0]).1,
                operand_byte(bytes),
                operand_word(bytes, pc, decoded(bytes[0]).1),
            ),
        )),
{
    reveal_strlit(" a");
    reveal_strlit(" #$");
    reveal_strlit(" $");
    reveal_strlit(",x");
    reveal_strlit(",y");
    reveal_strlit(" ($");
    reveal_strlit(",x)");
    reveal_strlit("),y");
    reveal_strlit(")");
    let (op, mode) = decoded(bytes[0]);
    let name = mnemonic_text(op);
    let b = operand_byte(bytes);
    let w = operand_word(bytes, pc, mode);
    let text = disassembly(bytes, pc)->Some_0.1;
    match mode {
        Mode::Imp => {
            assert(text =~= name + after_mnemonic(mode, b, w));
        },
        Mode::Acc => {
            assert(text =~= name + after_mnemonic(mode, b, w));
        },
        Mode::Imm => {
            assert(text =~= name + after_mnemonic(mode, b, w));
        },
        Mode::Zp => {
            assert(text =~= name + after_mnemonic(mode, b, w));
        },
        Mode::Zpx => {
            assert(text =~= name + after_mnemonic(mode, b, w));
        },
        Mode::Zpy => {
            assert(text =~= name + after_mnemonic(mode, b, w));
        },
        Mode::Izx => {
            assert(text =~= name + after_mnemonic(mode, b, w));
        },
        Mode::Izy => {
            assert(text =~= name + after_mnemonic(mode, b, w));
        },
        Mode::Abs => {
            assert(text =~= name + after_mnemonic(mode, b, w));
        },
        Mode::Abx => {
            assert(text =~= name + after_mnemonic(mode, b, w));
        },
        Mode::Aby => {
            assert(text =~= name + after_mnemonic(mode, b, w));
        },
        Mode::Ind => {
            assert(text =~= name + after_mnemonic(mode, b, w));
        },
        Mode::Rel => {
            assert(text =~= name + after_mnemonic(mode, b, w));
        },
    }
}


/// The expression the assembler reads from the operand text.
pub open spec fn operand_expr(mode: Mode, b: u8, w: u16) -> Option<Expr> {
    match mode {
        Mode::Imp | Mode::Acc => None,
        Mode::Imm | Mode::Zp | Mode::Zpx | Mode::Zpy | Mode::Izx | Mode::Izy => Some(Expr::Num(b as i32)),
        _ => Some(Expr::Num(w as i32)),
    }
}

/// The index of an absolute-family mode.
pub open spec fn abs_index(mode: Mode) -> Index {
    if mode == Mode::Abx {
        Index::X
    } else if mode == Mode::Aby {
        Index::Y
    } else {
        Index::Plain
    }
}

/// The conditions under which the assembler gives an instruction back: an
/// absolute operand below `$100` only where the operation has no zero-page
/// form, and a branch target that does not wrap around the address space.
pub open spec fn reassembles(bytes: Seq<u8>, pc: u16) -> bool {
    let (op, mode) = decoded(bytes[0]);
    &&& (mode == Mode::Abs || mode == Mode::Abx || mode == Mode::Aby) && bytes[2] == 0 ==> encoding(
        op,
        zp_mode(abs_index(mode)),
    ) is None
    &&& mode == Mode::Rel ==> 0 <= pc + 2 + (if bytes[1] < 128 {
        bytes[1] as int
    } else {
        bytes[1] - 256
    }) <= 0xFFFF
}

proof fn lemma_suffix_chars(mode: Mode, b: u8, w: u16)
    ensures
        ({
            let s = after_mnemonic(mode, b, w);
            &&& forall|k: int| 0 <= k < s.len() ==> s[k] != ';' && s[k] != '"'
            &&& s.len() == 0 || (s.len() >= 2 && s[0] == ' ' && !is_ws(s[1]) && s[1] != '='
                && !is_ws(s.last()))
        }),
        mode == Mode::Imp <==> after_mnemonic(mode, b, w).len() == 0,
{
    lemma_hex_char((b / 16) as int);
    lemma_hex_char((b % 16) as int);
    lemma_hex_char((w / 4096) as int);
    lemma_hex_char((w / 256 % 16) as int);
    lemma_hex_char((w / 16 % 16) as int);
    lemma_hex_char((w % 16) as int);
}

proof fn lemma_choice_and_bytes(
    t: Seq<char>,
    syms: Seq<(usize, usize, i32)>,
    line: int,
    bytes: Seq<u8>,
    pc: u16,
)
    requires
        bytes.len() >= 1,
        official(bytes[0]),
        bytes.len() == len_of(decoded(bytes[0]).1),
        reassembles(bytes, pc),
    ensures
        ({
            let (op, mode) = decoded(bytes[0]);
            let b = operand_byte(bytes);
            let w = operand_word(bytes, pc, mode);
            &&& mode_choice(t, syms, line, op, operand_read(mode, b, w), pc as int) == Ok::<
                (Mode, Option<Expr>),
                Fault,
            >((mode, operand_expr(mode, b, w)))
            &&& instr_bytes(t, syms, line, op, mode, operand_expr(mode, b, w), pc as int) == Ok::<
                Seq<u8>,
                Fault,
            >(bytes)
        }),
{
    let (op, mode) = decoded(bytes[0]);
    lemma_decode_then_encode(bytes[0]);
    lemma_mode_families(op, mode);
    let b = operand_byte(bytes);
    let w = operand_word(bytes, pc, mode);
    let opcode = encoding(op, mode).unwrap();
    assert(opcode == bytes[0]);
    let r = instr_bytes(t, syms, line, op, mode, operand_expr(mode, b, w), pc as int);
    if mode == Mode::Imp || mode == Mode::Acc {
        assert(r == Ok::<Seq<u8>, Fault>(seq![opcode]));
        assert(bytes =~= seq![opcode]);
    } else if mode == Mode::Rel {
        let s = if b < 128 { b as int } else { b - 256 };
        assert(w == pc + 2 + s);
        assert(low_byte(s) == b);
        assert(r == Ok::<Seq<u8>, Fault>(seq![opcode, b]));
        assert(bytes =~= seq![opcode, b]);
    } else if mode == Mode::Abs || mode == Mode::Abx || mode == Mode::Aby || mode == Mode::Ind {
        assert(w == bytes[1] + 256 * bytes[2]);
        assert(low_byte(w as int) == bytes[1]);
        assert(low_byte(w as int / 256) == bytes[2]);
        assert(((w as i32) as int) == w as int);
        assert(seq![opcode] + word_le(w as int) =~= seq![opcode, bytes[1], bytes[2]]);
        assert(r == Ok::<Seq<u8>, Fault>(seq![opcode, bytes[1], bytes[2]]));
        assert(bytes =~= seq![opcode, bytes[1], bytes[2]]);
    } else {
        assert(low_byte(b as int) == b);
        assert(r == Ok::<Seq<u8>, Fault>(seq![opcode, b]));
        assert(bytes =~= seq![opcode, b]);
    }
}

/// The disassembler writes the assembler's syntax: read back as a source
/// line, the text of an official instruction is that instruction in its own
/// mode, and assembled at the address it was disassembled at it gives back
/// its bytes. Two kinds of instruction are left out because the assembler
/// writes them differently (see `reassembles`): an absolute operand below
/// `$100` where a zero-page form exists, which it assembles to zero page,
/// and a branch whose target wraps around the address space.
pub proof fn lemma_disassembly_reassembles(
    bytes: Seq<u8>,
    pc: u16,
    syms: Seq<(usize, usize, i32)>,
    line: int,
)
    requires
        bytes.len() >= 1,
        official(bytes[0]),
        bytes.len() == len_of(decoded(bytes[0]).1),
        reassembles(bytes, pc),
    ensures
        disassembly(bytes, pc) matches Some((n, text)) && n == bytes.len() && ({
            let t = seq![' '] + text;
            let (op, mode) = decoded(bytes[0]);
            let o = operand_read(mode, operand_byte(bytes), operand_word(bytes, pc, mode));
            let x = operand_expr(mode, operand_byte(bytes), operand_word(bytes, pc, mode));
            &&& line_spec(t, 0, t.len() as int, line) == Ok::<
                (Option<(usize, usize)>, Stmt),
                Fault,
            >((None, Stmt::Instr(op, o)))
            &&& mode_choice(t, syms, line, op, o, pc as int) == Ok::<(Mode, Option<Expr>), Fault>(
                (mode, x),
            )
            &&& instr_bytes(t, syms, line, op, mode, x, pc as int) == Ok::<Seq<u8>, Fault>(bytes)
        }),
{
    let (op, mode) = decoded(bytes[0]);
    let b = operand_byte(bytes);
    let w = operand_word(bytes, pc, mode);
    lemma_disassembly_shape(bytes, pc);
    let suffix = after_mnemonic(mode, b, w);
    let text = mnemonic_text(op) + suffix;
    let t = seq![' '] + text;
    assert(t =~= seq![' '] + mnemonic_text(op) + suffix);
    lemma_suffix_chars(mode, b, w);
    lemma_mnemonic_letters(op);
    assert(t.subrange(0, t.len() as int) =~= t);
    lemma_instruction_line(t, 0, t.len() as int, op, suffix, line);
    if mode == Mode::Imp {
        assert(t.len() == 4);
        assert(skip_ws(t, 4, 4) == 4);
        assert(operand_spec(t, 4, 4, line) == Ok::<Operand, Fault>(Operand::Absent));
    } else {
        assert(t.subrange(5, t.len() as int) =~= operand_text(mode, b, w));
        lemma_operand_reads_back(t, 5, t.len() as int, mode, b, w, line);
    }
    lemma_choice_and_bytes(t, syms, line, bytes, pc);
}


/// An `.org` line: ` .org $` and four hex digits.
pub open spec fn org_line(pc: u16) -> Seq<char> {
    seq![' ', '.', 'o', 'r', 'g', ' ', '$'] + hex4(pc)
}

/// The program that places the disassembled text at `pc`: an `.org` line,
/// then the instruction on a line of its own.
pub open spec fn program_at(pc: u16, text: Seq<char>) -> Seq<char> {
    org_line(pc) + seq!['\n', ' '] + text
}

proof fn lemma_org_line(src: Seq<char>, pc: u16, line: int)
    requires
        11 <= src.len(),
        src.subrange(0, 11) == org_line(pc),
    ensures
        line_spec(src, 0, 11, line) == Ok::<(Option<(usize, usize)>, Stmt), Fault>(
            (None, Stmt::Org(Expr::Num(pc as i32))),
        ),
{
    reveal(line_spec);
    reveal_strlit(".org");
    let o = org_line(pc);
    lemma_hex_char((pc / 4096) as int);
    lemma_hex_char((pc / 256 % 16) as int);
    lemma_hex_char((pc / 16 % 16) as int);
    lemma_hex_char((pc % 16) as int);
    assert forall|k: int| 0 <= k < 11 implies src[k] == o[k] by {
        assert(src.subrange(0, 11)[k] == src[k]);
    }
    assert(src[0] == ' ' && src[1] == '.' && src[2] == 'o' && src[3] == 'r' && src[4] == 'g'
        && src[5] == ' ' && src[6] == '$');
    assert forall|k: int| 0 <= k < 11 implies src[k] != ';' && src[k] != '"' by {
        assert(o[k] == src[k]);
    }
    lemma_no_comment(src, 0, 11, false);
    assert(skip_ws(src, 1, 11) == 1);
    assert(skip_ws(src, 0, 11) == 1);
    assert(word_end(src, 1, 11) == 1);
    assert(name_end(src, 5, 11) == 5);
    assert(name_end(src, 4, 11) == 5);
    assert(name_end(src, 3, 11) == 5);
    assert(name_end(src, 2, 11) == 5);
    assert(name_end(src, 1, 11) == 5);
    assert(skip_ws(src, 6, 11) == 6);
    assert(skip_ws(src, 5, 11) == 6);
    assert(src[10] == o[10] && !is_ws(src[10]));
    assert(trim_back(src, 1, 11) == 11);
    assert(is_text_ci(src, 1, 5, ".org"@)) by {
        assert(lower(src[1int + 0]) == ".org"@[0]);
        assert(lower(src[1int + 1]) == ".org"@[1]);
        assert(lower(src[1int + 2]) == ".org"@[2]);
        assert(lower(src[1int + 3]) == ".org"@[3]);
    }
    assert(src.subrange(6, 11) =~= seq!['$'] + hex4(pc));
    lemma_parse_hex4(src, 6, pc, line);
}

/// Lines do not end inside a stretch without line feeds.
proof fn lemma_lines_plain(src: Seq<char>, i: int, j: int, start: int)
    requires
        0 <= i <= j <= src.len(),
        forall|k: int| i <= k < j ==> src[k] != '\n',
    ensures
        lines_from(src, i, start) == lines_from(src, j, start),
    decreases j - i,
{
    if i < j {
        lemma_lines_plain(src, i + 1, j, start);
    }
}

/// Bytes stored from `a` into no segments make one segment.
proof fn lemma_put_all_fresh(a: int, bytes: Seq<u8>)
    requires
        bytes.len() >= 1,
        0 <= a,
        a + bytes.len() <= 0x1_0000,
    ensures
        put_all(seq![], a, bytes) == seq![(a as u16, bytes)],
    decreases bytes.len(),
{
    assert((a as u16) as int == a);
    if bytes.len() == 1 {
        assert(bytes.drop_last() =~= seq![]);
        assert(put_all(seq![], a, bytes.drop_last()) == Seq::<(u16, Seq<u8>)>::empty());
        assert(seq![bytes.last()] =~= bytes);
    } else {
        lemma_put_all_fresh(a, bytes.drop_last());
        let prev = seq![(a as u16, bytes.drop_last())];
        assert(prev.last().0 + prev.last().1.len() == a + bytes.len() - 1);
        assert(prev.drop_last() =~= seq![]);
        assert(bytes.drop_last().push(bytes.last()) =~= bytes);
        assert(prev.drop_last().push((prev.last().0, prev.last().1.push(bytes.last()))) =~= seq![
            (a as u16, bytes),
        ]);
    }
}


/// The text the disassembler writes for an instruction, from its bytes.
pub open spec fn written(bytes: Seq<u8>, pc: u16) -> Seq<char> {
    let (op, mode) = decoded(bytes[0]);
    mnemonic_text(op) + after_mnemonic(mode, operand_byte(bytes), operand_word(bytes, pc, mode))
}

/// The program of `program_at` splits into its two lines, and each parses:
/// the `.org` and the instruction.
#[verifier::spinoff_prover]
#[verifier::rlimit(40)]
proof fn lemma_program_parses(bytes: Seq<u8>, pc: u16)
    requires
        bytes.len() >= 1,
        official(bytes[0]),
        bytes.len() == len_of(decoded(bytes[0]).1),
    ensures
        ({
            let src = program_at(pc, written(bytes, pc));
            let (op, mode) = decoded(bytes[0]);
            let o = operand_read(mode, operand_byte(bytes), operand_word(bytes, pc, mode));
            &&& lines_from(src, 0, 0) == seq![(0int, 11int), (12int, src.len() as int)]
            &&& line_spec(src, 0, 11, 1) == Ok::<(Option<(usize, usize)>, Stmt), Fault>(
                (None, Stmt::Org(Expr::Num(pc as i32))),
            )
            &&& line_spec(src, 12, src.len() as int, 2) == Ok::<(Option<(usize, usize)>, Stmt), Fault>(
                (None, Stmt::Instr(op, o)),
            )
        }),
{
    let (op, mode) = decoded(bytes[0]);
    let b = operand_byte(bytes);
    let w = operand_word(bytes, pc, mode);
    let suffix = after_mnemonic(mode, b, w);
    let text = mnemonic_text(op) + suffix;
    let src = program_at(pc, text);
    let len = src.len() as int;
    lemma_suffix_chars(mode, b, w);
    lemma_mnemonic_letters(op);
    lemma_hex_char((pc / 4096) as int);
    lemma_hex_char((pc / 256 % 16) as int);
    lemma_hex_char((pc / 16 % 16) as int);
    lemma_hex_char((pc % 16) as int);
    let org = org_line(pc);
    let line2 = seq![' '] + mnemonic_text(op) + suffix;
    assert(src =~= org + seq!['\n'] + line2);
    assert(len == 12 + line2.len());
    assert(src.subrange(0, 11) =~= org);
    assert(src[11] == '\n');
    assert(src.subrange(12, len) =~= line2);
    assert forall|k: int| 0 <= k < 11 implies src[k] != '\n' by {
        assert(src[k] == org[k]);
    }
    assert forall|k: int| 12 <= k < len implies src[k] != '\n' by {
        assert(src[k] == line2[k - 12]);
        if 1 <= k - 12 < 4 {
            assert(line2[k - 12] == mnemonic_text(op)[k - 13]);
        }
        if k - 12 >= 4 {
            assert(line2[k - 12] == suffix[k - 16]);
        }
    }
    lemma_lines_plain(src, 0, 11, 0);
    lemma_lines_plain(src, 12, len, 12);
    assert(src[10] == org[10] && src[10] != '\r');
    assert(lines_from(src, len, 12) == seq![(12int, len)]);
    assert(lines_from(src, 0, 0) =~= seq![(0int, 11int), (12int, len)]);
    lemma_org_line(src, pc, 1);
    lemma_instruction_line(src, 12, len, op, suffix, 2);
    if mode == Mode::Imp {
        assert(len == 16);
        assert(skip_ws(src, 16, 16) == 16);
        assert(operand_spec(src, 16, 16, 2) == Ok::<Operand, Fault>(Operand::Absent));
    } else {
        assert(src.subrange(17, len) =~= operand_text(mode, b, w)) by {
            assert forall|k: int| 0 <= k < len - 17 implies src.subrange(17, len)[k] == operand_text(
                mode,
                b,
                w,
            )[k] by {
                assert(src[17 + k] == line2[5 + k]);
                assert(line2[5 + k] == suffix[1 + k]);
            }
        }
        lemma_operand_reads_back(src, 17, len, mode, b, w, 2);
    }
}

/// The disassembler's text assembles back: placed at the address it was
/// disassembled at (an `.org` line, then the text), the text of an official
/// instruction assembles to exactly its bytes, in one segment there. The
/// instructions of `reassembles` aside, and the instruction must fit below
/// `$10000`.
#[verifier::spinoff_prover]
#[verifier::rlimit(40)]
pub proof fn lemma_disassembly_assembles_back(bytes: Seq<u8>, pc: u16)
    requires
        bytes.len() >= 1,
        official(bytes[0]),
        bytes.len() == len_of(decoded(bytes[0]).1),
        reassembles(bytes, pc),
        pc + bytes.len() <= 0x1_0000,
    ensures
        disassembly(bytes, pc) matches Some((n, text)) && assembly(program_at(pc, text)) == Ok::<
            Seq<Seq<(u16, Seq<u8>)>>,
            Fault,
        >(seq![seq![(pc, bytes)]]),
{
    let (op, mode) = decoded(bytes[0]);
    let b = operand_byte(bytes);
    let w = operand_word(bytes, pc, mode);
    lemma_disassembly_shape(bytes, pc);
    let src = program_at(pc, written(bytes, pc));
    let len = src.len() as int;
    lemma_program_parses(bytes, pc);
    let spans = lines_from(src, 0, 0);
    let o = operand_read(mode, b, w);
    let x = operand_expr(mode, b, w);
    assert(first_bad_line(src, spans, 2) is None);
    assert(first_bad_line(src, spans, 1) is None);
    assert(first_bad_line(src, spans, 0) is None);
    lemma_choice_and_bytes(src, seq![], 2, bytes, pc);
    let st0 = sizing_start();
    let st1: Sizing = (seq![], seq![], pc as int, 0, 0);
    assert(size_line(src, st0, 1, None, Stmt::Org(Expr::Num(pc as i32))) == Ok::<Sizing, Fault>(st1));
    let p = Placed { addr: pc as u32, bank: 0, rec: Rec::Instr { line: 2, op, mode, expr: x } };
    let st2: Sizing = (seq![], seq![p], pc + len_of(mode), 0, 0);
    assert(place(src, st1, Rec::Instr { line: 2, op, mode, expr: x }) == st2);
    assert(size_line(src, st1, 2, None, Stmt::Instr(op, o)) == Ok::<Sizing, Fault>(st2));
    assert(sizing(src, spans, 2, st2) == Ok::<Sizing, Fault>(st2));
    assert(sizing(src, spans, 1, st1) == Ok::<Sizing, Fault>(st2));
    assert(sizing(src, spans, 0, st0) == Ok::<Sizing, Fault>(st2));
    assert(rec_bytes(src, seq![], p) == Ok::<Seq<u8>, Fault>(bytes));
    assert(emitted(src, seq![], seq![p], 1) == Ok::<Seq<Chunk>, Fault>(seq![]));
    let cs: Seq<Chunk> = seq![(pc as int, 0int, bytes)];
    assert(seq![(pc as int, 0int, bytes)] + Seq::<Chunk>::empty() =~= cs);
    assert(emitted(src, seq![], seq![p], 0) == Ok::<Seq<Chunk>, Fault>(cs));
    lemma_put_all_fresh(pc as int, bytes);
    assert(cs.drop_last() =~= seq![]);
    assert(bank_segments(cs.drop_last(), 0) == Seq::<(u16, Seq<u8>)>::empty());
    assert(((pc as int) as u16) == pc);
    assert(cs.last() == (pc as int, 0int, bytes));
    assert(put_all(seq![], pc as int, bytes) == seq![(pc, bytes)]);
    assert(bank_segments(cs, 0) == seq![(pc, bytes)]);
    assert(Seq::new(1, |k: int| bank_segments(cs, k)) =~= seq![seq![(pc, bytes)]]);
}

} // verus!
