//! The two passes over a parsed program. The sizing pass defines every
//! symbol and fixes the address, bank and byte count of every piece of
//! output; the emission pass evaluates operands with the complete symbol
//! table and lays the bytes out as contiguous segments, one list per
//! cartridge bank.

use vstd::prelude::*;

use super::{
    lemma_parse_error_line, agrees, decide_mode, eval, expr_in, items_spec, line_spans, line_spec, lines_from, lookup,
    lookup_sym, mode_choice, parse_items, parse_line, resolve, spans_view, stmt_in, Binary, Error,
    Expr, Fault, Stmt, chars_of, err, syms_ok,
};
use crate::isa::{encode, encoding, instruction_len, len_of, Mode, Op};
use crate::text::push_char;
use vstd::string::StrSliceExecFns;
use vstd::utf8::encode_utf8;

verus! {

// ------------------------------------------------------------ text bytes

/// The bytes of the characters `[a, b)` as `str::bytes` yields them: their
/// UTF-8 encoding.
fn text_bytes(src: &Vec<char>, a: usize, b: usize) -> (v: Vec<u8>)
    requires
        a <= b <= src@.len(),
    ensures
        v@ == encode_utf8(src@.subrange(a as int, b as int)),
{
    let mut s = String::new();
    let mut k = a;
    while k < b
        invariant
            a <= k <= b <= src@.len(),
            s@ == src@.subrange(a as int, k as int),
        decreases b - k,
    {
        push_char(&mut s, src[k]);
        k = k + 1;
        assert(s@ =~= src@.subrange(a as int, k as int));
    }
    s.as_str().as_bytes_vec()
}

// ------------------------------------------------------------ sizing pass

/// A piece of output whose size the sizing pass has fixed. Instructions
/// keep their chosen mode and operand; `.byte`/`.word` keep the span of
/// their items, `.text` the span of its characters; `.res`/`.align` emit
/// zeros.
pub enum Rec {
    Instr { line: usize, op: Op, mode: Mode, expr: Option<Expr> },
    Data { line: usize, a: usize, b: usize, word: bool },
    Text(usize, usize),
    Zeros(u32),
}

/// A record at its address and cartridge bank.
pub struct Placed {
    pub addr: u32,
    pub bank: u8,
    pub rec: Rec,
}

/// The state of the sizing pass: symbols `(name span, value)` in order of
/// definition, the records so far, the address, the current bank and the
/// highest bank used.
pub type Sizing = (Seq<(usize, usize, i32)>, Seq<Placed>, int, int, int);

/// The state before the first line.
pub open spec fn sizing_start() -> Sizing {
    (seq![], seq![], 0, 0, 0)
}

pub open spec fn duplicate(src: Seq<char>, a: int, b: int, line: int) -> Fault {
    (line, "duplicate symbol '"@ + src.subrange(a, b) + "'"@)
}

/// The number of bytes a record emits.
pub open spec fn rec_size(src: Seq<char>, r: Rec) -> int {
    match r {
        Rec::Instr { mode, .. } => len_of(mode) as int,
        Rec::Data { line, a, b, word } => match items_spec(src, a as int, b as int, line as int) {
            Ok(es) => (if word { 2int } else { 1int }) * es.len(),
            Err(_) => 0,
        },
        Rec::Text(a, b) => encode_utf8(src.subrange(a as int, b as int)).len() as int,
        Rec::Zeros(n) => n as int,
    }
}

/// The state after placing `r` at the current address.
pub open spec fn place(src: Seq<char>, st: Sizing, r: Rec) -> Sizing {
    (
        st.0,
        st.1.push(Placed { addr: st.2 as u32, bank: st.3 as u8, rec: r }),
        st.2 + rec_size(src, r),
        st.3,
        st.4,
    )
}

/// One statement of the sizing pass (the label, if any, already defined).
pub open spec fn size_stmt(src: Seq<char>, st: Sizing, line: int, stmt: Stmt) -> Result<Sizing, Fault> {
    let (syms, recs, pc, bank, top) = st;
    match stmt {
        Stmt::Empty => Ok(st),
        Stmt::Equate(a, b, e) => if lookup(src, syms, a as int, b as int, 0) is Some {
            Err(duplicate(src, a as int, b as int, line))
        } else {
            match eval(src, syms, e, pc) {
                None => Err((line, "equate references symbols not yet defined"@)),
                Some(v) => Ok((syms.push((a, b, v)), recs, pc, bank, top)),
            }
        },
        Stmt::Org(e) => match eval(src, syms, e, pc) {
            None => Err((line, ".org needs a resolvable address"@)),
            Some(v) => Ok(
                (syms, recs, if v < 0 { v + 0x1_0000_0000 } else { v as int }, bank, top),
            ),
        },
        Stmt::Instr(op, o) => match mode_choice(src, syms, line, op, o, pc) {
            Err(f) => Err(f),
            Ok((m, x)) => Ok(
                place(src, st, Rec::Instr { line: line as usize, op, mode: m, expr: x }),
            ),
        },
        Stmt::Byte(a, b) => match items_spec(src, a as int, b as int, line) {
            Err(f) => Err(f),
            Ok(_) => Ok(place(src, st, Rec::Data { line: line as usize, a, b, word: false })),
        },
        Stmt::Word(a, b) => match items_spec(src, a as int, b as int, line) {
            Err(f) => Err(f),
            Ok(_) => Ok(place(src, st, Rec::Data { line: line as usize, a, b, word: true })),
        },
        Stmt::Text(a, b) => Ok(place(src, st, Rec::Text(a, b))),
        Stmt::Res(e) => match eval(src, syms, e, pc) {
            None => Err((line, ".res needs a resolvable count"@)),
            Some(n) => if n < 0 {
                Err((line, ".res count is negative"@))
            } else {
                Ok(place(src, st, Rec::Zeros(n as u32)))
            },
        },
        Stmt::Align(e) => match eval(src, syms, e, pc) {
            None => Err((line, ".align needs a resolvable value"@)),
            Some(n) => if n <= 0 {
                Err((line, ".align must be positive"@))
            } else {
                Ok(place(src, st, Rec::Zeros(((n - pc % (n as int)) % (n as int)) as u32)))
            },
        },
        Stmt::Bank(e) => match eval(src, syms, e, pc) {
            None => Err((line, ".bank needs a resolvable number"@)),
            Some(v) => if v < 0 || v > 255 {
                Err((line, ".bank must be 0-255"@))
            } else {
                Ok((syms, recs, pc, v as int, if v > top { v as int } else { top }))
            },
        },
    }
}

/// `.align n` (n > 0) moves the address up to the least multiple of `n` at
/// or above it, by placing that many zero bytes: the padding is always less
/// than `n`, and none at all when the address is already a multiple of `n`.
pub proof fn lemma_align_pads_to_boundary(src: Seq<char>, st: Sizing, line: int, e: Expr)
    requires
        0 <= st.2,
    ensures
        size_stmt(src, st, line, Stmt::Align(e)) matches Ok(st2) ==> ({
            let n = eval(src, st.0, e, st.2)->0 as int;
            let pad = st2.2 - st.2;
            &&& n > 0
            &&& 0 <= pad < n
            &&& (st.2 + pad) % n == 0
            &&& st.2 % n == 0 ==> pad == 0
            &&& st2.1 == st.1.push(Placed { addr: st.2 as u32, bank: st.3 as u8, rec: Rec::Zeros(pad as u32) })
        }),
{
    if let Some(n) = eval(src, st.0, e, st.2) {
        if n > 0 {
            let pc = st.2;
            let ni = n as int;
            let pad = (ni - pc % ni) % ni;
            assert(0 <= pad < ni && (pc + pad) % ni == 0 && (pc % ni == 0 ==> pad == 0)) by (nonlinear_arith)
                requires
                    ni > 0,
                    pc >= 0,
                    pad == (ni - pc % ni) % ni,
            ;
            assert((pad as u32) as int == pad);
        }
    }
}

/// One line of the sizing pass: define the label at the current address,
/// size the statement, and refuse an address past the top of memory.
pub open spec fn size_line(
    src: Seq<char>,
    st: Sizing,
    line: int,
    label: Option<(usize, usize)>,
    stmt: Stmt,
) -> Result<Sizing, Fault> {
    let labelled = match label {
        None => Ok(st),
        Some((a, b)) => if lookup(src, st.0, a as int, b as int, 0) is Some {
            Err(duplicate(src, a as int, b as int, line))
        } else {
            Ok((st.0.push((a, b, st.2 as i32)), st.1, st.2, st.3, st.4))
        },
    };
    match labelled {
        Err(f) => Err(f),
        Ok(s1) => match size_stmt(src, s1, line, stmt) {
            Err(f) => Err(f),
            Ok(s2) => if s2.2 > 0x1_0000 {
                Err((line, "program runs past $FFFF"@))
            } else {
                Ok(s2)
            },
        },
    }
}

/// The sizing pass over the lines `spans[k..]` (line numbers are 1-based).
pub open spec fn sizing(src: Seq<char>, spans: Seq<(int, int)>, k: int, st: Sizing) -> Result<Sizing, Fault>
    decreases spans.len() - k,
{
    if k < 0 || k >= spans.len() {
        Ok(st)
    } else {
        match line_spec(src, spans[k].0, spans[k].1, k + 1) {
            Err(f) => Err(f),
            Ok((label, stmt)) => match size_line(src, st, k + 1, label, stmt) {
                Err(f) => Err(f),
                Ok(s2) => sizing(src, spans, k + 1, s2),
            },
        }
    }
}

/// The first line of `spans[k..]` that does not parse, with its error.
pub open spec fn first_bad_line(src: Seq<char>, spans: Seq<(int, int)>, k: int) -> Option<Fault>
    decreases spans.len() - k,
{
    if k < 0 || k >= spans.len() {
        None
    } else {
        match line_spec(src, spans[k].0, spans[k].1, k + 1) {
            Err(f) => Some(f),
            Ok(_) => first_bad_line(src, spans, k + 1),
        }
    }
}

/// A record the sizing pass can have produced: its spans lie in the source,
/// its instruction has an opcode, and it ends at or below `$10000`.
pub open spec fn placed_ok(src: Seq<char>, p: Placed) -> bool {
    &&& p.addr + rec_size(src, p.rec) <= 0x1_0000
    &&& match p.rec {
        Rec::Instr { op, mode, expr, .. } => encoding(op, mode) is Some && (expr matches Some(e)
            ==> expr_in(e, src.len() as int)),
        Rec::Data { a, b, .. } => a <= b <= src.len(),
        Rec::Text(a, b) => a <= b <= src.len(),
        Rec::Zeros(_) => true,
    }
}

pub open spec fn recs_ok(src: Seq<char>, recs: Seq<Placed>) -> bool {
    forall|k: int| 0 <= k < recs.len() ==> placed_ok(src, #[trigger] recs[k])
}

/// `pc + n`, or the error for running past the top of memory.
fn advance(pc: u64, n: u64, line: usize) -> (r: Result<u64, Error>)
    requires
        pc <= 0x1_0000,
    ensures
        pc + n <= 0x1_0000 ==> r == Ok::<u64, Error>((pc + n) as u64),
        pc + n > 0x1_0000 ==> (r matches Err(e) && e.line == line && e.msg@ == "program runs past $FFFF"@),
{
    if n > 0x1_0000 - pc {
        Err(err(line, "program runs past $FFFF"))
    } else {
        Ok(pc + n)
    }
}

/// `[a, b)` quoted between `pre` and `post`, as a message.
fn quoted_span(src: &Vec<char>, a: usize, b: usize, pre: &str, post: &str) -> (m: String)
    requires
        a <= b <= src@.len(),
    ensures
        m@ == pre@ + src@.subrange(a as int, b as int) + post@,
{
    let mut m = pre.to_owned();
    let mut k = a;
    while k < b
        invariant
            a <= k <= b <= src@.len(),
            m@ == pre@ + src@.subrange(a as int, k as int),
        decreases b - k,
    {
        push_char(&mut m, src[k]);
        k = k + 1;
        assert(m@ =~= pre@ + src@.subrange(a as int, k as int));
    }
    m.append(post);
    m
}

/// The sizing pass: the symbol table, the placed records and the highest
/// bank, or the first error.
fn size_all(src: &Vec<char>, spans: &Vec<(usize, usize)>) -> (r: Result<(Vec<(usize, usize, i32)>, Vec<Placed>, u8), Error>)
    requires
        spans_view(spans@) == lines_from(src@, 0, 0),
        forall|k: int| 0 <= k < spans@.len() ==> #[trigger] spans@[k].0 <= spans@[k].1 <= src@.len(),
    ensures
        match sizing(src@, lines_from(src@, 0, 0), 0, sizing_start()) {
            Ok(st) => r matches Ok((syms, recs, top)) && syms@ == st.0 && recs@ == st.1 && top
                == st.4 && syms_ok(src@, syms@) && recs_ok(src@, recs@),
            Err(f) => r matches Err(e) && e.line == f.0 && e.msg@ == f.1,
        },
{
    let ghost sp = lines_from(src@, 0, 0);
    let mut syms: Vec<(usize, usize, i32)> = Vec::new();
    let mut recs: Vec<Placed> = Vec::new();
    let mut pc: u64 = 0;
    let mut bank: u8 = 0;
    let mut top: u8 = 0;
    let mut k: usize = 0;
    assert(recs@ =~= seq![]);
    assert(syms@ =~= seq![]);
    while k < spans.len()
        invariant
            sp == lines_from(src@, 0, 0),
            spans_view(spans@) == sp,
            forall|j: int| 0 <= j < spans@.len() ==> #[trigger] spans@[j].0 <= spans@[j].1 <= src@.len(),
            k <= spans@.len(),
            pc <= 0x1_0000,
            syms_ok(src@, syms@),
            recs_ok(src@, recs@),
            sizing(src@, sp, 0, sizing_start()) == sizing(
                src@,
                sp,
                k as int,
                (syms@, recs@, pc as int, bank as int, top as int),
            ),
        decreases spans.len() - k,
    {
        let (a, b) = spans[k];
        let line = k + 1;
        assert(sp[k as int] == (a as int, b as int));
        let (label, stmt) = parse_line(src, a, b, line)?;
        let ghost st0: Sizing = (syms@, recs@, pc as int, bank as int, top as int);
        let ghost gstmt = stmt;
        if let Some((la, lb)) = label {
            if lookup_sym(src, &syms, la, lb).is_some() {
                return Err(Error { line, msg: quoted_span(src, la, lb, "duplicate symbol '", "'") });
            }
            syms.push((la, lb, pc as i32));
        }
        let ghost st1: Sizing = (syms@, recs@, pc as int, bank as int, top as int);
        match stmt {
            Stmt::Empty => {},
            Stmt::Equate(ea, eb, e) => {
                if lookup_sym(src, &syms, ea, eb).is_some() {
                    return Err(Error { line, msg: quoted_span(src, ea, eb, "duplicate symbol '", "'") });
                }
                match resolve(src, &syms, &e, pc as u32) {
                    None => {
                        return Err(err(line, "equate references symbols not yet defined"));
                    },
                    Some(v) => {
                        syms.push((ea, eb, v));
                    },
                }
            },
            Stmt::Org(e) => {
                match resolve(src, &syms, &e, pc as u32) {
                    None => {
                        return Err(err(line, ".org needs a resolvable address"));
                    },
                    Some(v) => {
                        if v < 0 || v > 0x1_0000 {
                            return Err(err(line, "program runs past $FFFF"));
                        }
                        pc = v as u64;
                    },
                }
            },
            Stmt::Instr(op, o) => {
                let (m, x) = decide_mode(src, &syms, line, op, o, pc as u32)?;
                let npc = advance(pc, instruction_len(m) as u64, line)?;
                recs.push(Placed { addr: pc as u32, bank, rec: Rec::Instr { line, op, mode: m, expr: x } });
                pc = npc;
            },
            Stmt::Byte(ia, ib) => {
                let items = parse_items(src, ia, ib, line)?;
                let npc = advance(pc, items.len() as u64, line)?;
                recs.push(Placed { addr: pc as u32, bank, rec: Rec::Data { line, a: ia, b: ib, word: false } });
                pc = npc;
            },
            Stmt::Word(ia, ib) => {
                let items = parse_items(src, ia, ib, line)?;
                let n = items.len() as u64;
                if n > 0x1_0000 {
                    return Err(err(line, "program runs past $FFFF"));
                }
                let npc = advance(pc, 2 * n, line)?;
                recs.push(Placed { addr: pc as u32, bank, rec: Rec::Data { line, a: ia, b: ib, word: true } });
                pc = npc;
            },
            Stmt::Text(ta, tb) => {
                let bytes = text_bytes(src, ta, tb);
                let npc = advance(pc, bytes.len() as u64, line)?;
                recs.push(Placed { addr: pc as u32, bank, rec: Rec::Text(ta, tb) });
                pc = npc;
            },
            Stmt::Res(e) => {
                match resolve(src, &syms, &e, pc as u32) {
                    None => {
                        return Err(err(line, ".res needs a resolvable count"));
                    },
                    Some(n) => {
                        if n < 0 {
                            return Err(err(line, ".res count is negative"));
                        }
                        let npc = advance(pc, n as u64, line)?;
                        recs.push(Placed { addr: pc as u32, bank, rec: Rec::Zeros(n as u32) });
                        pc = npc;
                    },
                }
            },
            Stmt::Align(e) => {
                match resolve(src, &syms, &e, pc as u32) {
                    None => {
                        return Err(err(line, ".align needs a resolvable value"));
                    },
                    Some(n) => {
                        if n <= 0 {
                            return Err(err(line, ".align must be positive"));
                        }
                        let n64 = n as u64;
                        let pad = (n64 - pc % n64) % n64;
                        let npc = advance(pc, pad, line)?;
                        recs.push(Placed { addr: pc as u32, bank, rec: Rec::Zeros(pad as u32) });
                        pc = npc;
                    },
                }
            },
            Stmt::Bank(e) => {
                match resolve(src, &syms, &e, pc as u32) {
                    None => {
                        return Err(err(line, ".bank needs a resolvable number"));
                    },
                    Some(v) => {
                        if v < 0 || v > 255 {
                            return Err(err(line, ".bank must be 0-255"));
                        }
                        bank = v as u8;
                        if bank > top {
                            top = bank;
                        }
                    },
                }
            },
        }
        proof {
            assert(size_line(src@, st0, line as int, label, gstmt) == Ok::<Sizing, Fault>(
                (syms@, recs@, pc as int, bank as int, top as int),
            ));
        }
        k = k + 1;
    }
    Ok((syms, recs, top))
}

// ------------------------------------------------------------ emission pass

/// The low byte of `v` (two's complement).
pub open spec fn low_byte(v: int) -> u8 {
    (v % 256) as u8
}

/// `v` as a little-endian 16-bit word.
pub open spec fn word_le(v: int) -> Seq<u8> {
    seq![low_byte(v), low_byte(v / 256)]
}

pub open spec fn unresolved(line: int) -> Fault {
    (line, "undefined symbol or unresolvable expression"@)
}

/// The bytes of `.byte`/`.word` items starting at `addr`; each item is
/// evaluated with `*` standing for its own address.
pub open spec fn data_bytes(
    src: Seq<char>,
    syms: Seq<(usize, usize, i32)>,
    es: Seq<Expr>,
    addr: int,
    word: bool,
    line: int,
) -> Result<Seq<u8>, Fault>
    decreases es.len(),
{
    if es.len() == 0 {
        Ok(seq![])
    } else {
        match eval(src, syms, es[0], addr) {
            None => Err(unresolved(line)),
            Some(v) => match data_bytes(src, syms, es.drop_first(), addr + if word { 2int } else { 1int }, word, line) {
                Err(f) => Err(f),
                Ok(rest) => Ok((if word { word_le(v as int) } else { seq![low_byte(v as int)] }) + rest),
            },
        }
    }
}

/// The bytes of an instruction at `addr`: its opcode, then its operand.
pub open spec fn instr_bytes(
    src: Seq<char>,
    syms: Seq<(usize, usize, i32)>,
    line: int,
    op: Op,
    mode: Mode,
    expr: Option<Expr>,
    addr: int,
) -> Result<Seq<u8>, Fault> {
    let opcode = encoding(op, mode).unwrap();
    if mode == Mode::Imp || mode == Mode::Acc {
        Ok(seq![opcode])
    } else {
        match (match expr {
            Some(e) => eval(src, syms, e, addr),
            None => None,
        }) {
            None => Err(unresolved(line)),
            Some(v) => if mode == Mode::Rel {
                let off = v - (addr + 2);
                if off < -128 || off > 127 {
                    Err((line, "branch target out of range"@))
                } else {
                    Ok(seq![opcode, low_byte(off)])
                }
            } else if mode == Mode::Abs || mode == Mode::Abx || mode == Mode::Aby || mode == Mode::Ind {
                Ok(seq![opcode] + word_le(v as int))
            } else {
                Ok(seq![opcode, low_byte(v as int)])
            },
        }
    }
}

proof fn lemma_word_le_reads_back(v: int)
    ensures
        crate::cpu::word(word_le(v)[0], word_le(v)[1]) as int == v % 65536,
        word_le(v)[0] as int == v % 256,
{
    let q = v / 256;
    let r = v % 256;
    let h = q % 256;
    assert(v == 256 * q + r && 0 <= r < 256);
    assert(q == 256 * (q / 256) + h && 0 <= h < 256);
    assert(v == 65536 * (q / 256) + (256 * h + r)) by (nonlinear_arith)
        requires
            v == 256 * q + r,
            q == 256 * (q / 256) + h,
    ;
    assert(v % 65536 == 256 * h + r) by (nonlinear_arith)
        requires
            v == 65536 * (q / 256) + (256 * h + r),
            0 <= r < 256,
            0 <= h < 256,
    ;
}

/// What the assembler emits is what the CPU reads back: an instruction's
/// bytes are its opcode and then its operand, as long as its mode says; an
/// absolute operand's two bytes, read as the CPU reads a word (low byte
/// first), give the value modulo $10000; a one-byte operand is the value
/// modulo 256; and a branch's offset byte takes the CPU from the next
/// instruction exactly to the target.
pub proof fn lemma_operands_read_back(
    src: Seq<char>,
    syms: Seq<(usize, usize, i32)>,
    line: int,
    op: Op,
    mode: Mode,
    e: Expr,
    addr: int,
)
    requires
        encoding(op, mode) is Some,
        mode != Mode::Imp && mode != Mode::Acc,
        0 <= addr && addr + 2 <= 0xFFFF,
    ensures
        instr_bytes(src, syms, line, op, mode, Some(e), addr) matches Ok(bs) ==> ({
            let v = eval(src, syms, e, addr)->0 as int;
            &&& bs.len() == len_of(mode)
            &&& bs[0] == encoding(op, mode)->0
            &&& (mode == Mode::Abs || mode == Mode::Abx || mode == Mode::Aby || mode == Mode::Ind) ==> crate::cpu::word(
                bs[1],
                bs[2],
            ) as int == v % 65536
            &&& (mode == Mode::Rel) ==> crate::cpu::branch_target((addr + 2) as u16, bs[1]) as int == v % 65536
            &&& (mode != Mode::Rel && len_of(mode) == 2) ==> bs[1] as int == v % 256
        }),
{
    if let Some(v) = eval(src, syms, e, addr) {
        lemma_word_le_reads_back(v as int);
        if mode == Mode::Rel {
            let off = v - (addr + 2);
            if -128 <= off <= 127 {
                let b = low_byte(off);
                if off >= 0 {
                    assert(b as int == off);
                } else {
                    assert(b as int == off + 256);
                }
            }
        }
    }
}

/// The bytes a placed record emits.
pub open spec fn rec_bytes(src: Seq<char>, syms: Seq<(usize, usize, i32)>, p: Placed) -> Result<Seq<u8>, Fault> {
    match p.rec {
        Rec::Instr { line, op, mode, expr } => instr_bytes(src, syms, line as int, op, mode, expr, p.addr as int),
        Rec::Data { line, a, b, word } => match items_spec(src, a as int, b as int, line as int) {
            Err(f) => Err(f),
            Ok(es) => data_bytes(src, syms, es, p.addr as int, word, line as int),
        },
        Rec::Text(a, b) => Ok(encode_utf8(src.subrange(a as int, b as int))),
        Rec::Zeros(n) => Ok(Seq::new(n as nat, |i: int| 0u8)),
    }
}

/// A run of output: address, bank and bytes.
pub type Chunk = (int, int, Seq<u8>);

pub open spec fn then_chunks(p: Seq<Chunk>, r: Result<Seq<Chunk>, Fault>) -> Result<Seq<Chunk>, Fault> {
    match r {
        Ok(cs) => Ok(p + cs),
        Err(f) => Err(f),
    }
}

/// The output of `recs[k..]`, in order, or the first error.
pub open spec fn emitted(
    src: Seq<char>,
    syms: Seq<(usize, usize, i32)>,
    recs: Seq<Placed>,
    k: int,
) -> Result<Seq<Chunk>, Fault>
    decreases recs.len() - k,
{
    if k < 0 || k >= recs.len() {
        Ok(seq![])
    } else {
        match rec_bytes(src, syms, recs[k]) {
            Err(f) => Err(f),
            Ok(bs) => then_chunks(
                seq![(recs[k].addr as int, recs[k].bank as int, bs)],
                emitted(src, syms, recs, k + 1),
            ),
        }
    }
}

/// A byte stored at `a`: it extends the last segment when it lies right
/// after it, and opens a new segment otherwise.
pub open spec fn put(segs: Seq<(u16, Seq<u8>)>, a: int, b: u8) -> Seq<(u16, Seq<u8>)> {
    if segs.len() > 0 && segs.last().0 + segs.last().1.len() == a {
        segs.drop_last().push((segs.last().0, segs.last().1.push(b)))
    } else {
        segs.push((a as u16, seq![b]))
    }
}

/// Bytes stored one after the other from `a`.
pub open spec fn put_all(segs: Seq<(u16, Seq<u8>)>, a: int, bytes: Seq<u8>) -> Seq<(u16, Seq<u8>)>
    decreases bytes.len(),
{
    if bytes.len() == 0 {
        segs
    } else {
        put(put_all(segs, a, bytes.drop_last()), a + bytes.len() - 1, bytes.last())
    }
}

/// The segments of bank `b`: its chunks stored in order.
pub open spec fn bank_segments(cs: Seq<Chunk>, b: int) -> Seq<(u16, Seq<u8>)>
    decreases cs.len(),
{
    if cs.len() == 0 {
        seq![]
    } else {
        let prev = bank_segments(cs.drop_last(), b);
        if cs.last().1 == b {
            put_all(prev, cs.last().0, cs.last().2)
        } else {
            prev
        }
    }
}

/// Segments laid out as the assembler promises: each is non-empty and ends
/// at or below `$10000`, and no segment starts right where the one before it
/// ends, so each is a maximal contiguous run in emission order.
pub open spec fn laid_out(segs: Seq<(u16, Seq<u8>)>) -> bool {
    &&& forall|i: int| 0 <= i < segs.len() ==> (#[trigger] segs[i]).1.len() > 0 && segs[i].0 + segs[i].1.len() <= 0x1_0000
    &&& forall|i: int| 0 <= i < segs.len() - 1 ==> #[trigger] segs[i].0 + segs[i].1.len() != segs[i + 1].0
}

proof fn lemma_put_laid_out(segs: Seq<(u16, Seq<u8>)>, a: int, b: u8)
    requires
        laid_out(segs),
        0 <= a < 0x1_0000,
    ensures
        laid_out(put(segs, a, b)),
{
    let r = put(segs, a, b);
    if segs.len() > 0 && segs.last().0 + segs.last().1.len() == a {
        assert forall|i: int| 0 <= i < r.len() - 1 implies #[trigger] r[i].0 + r[i].1.len() != r[i + 1].0 by {
            assert(segs[i].0 + segs[i].1.len() != segs[i + 1].0);
        }
    } else {
        assert forall|i: int| 0 <= i < r.len() - 1 implies #[trigger] r[i].0 + r[i].1.len() != r[i + 1].0 by {
            if i < segs.len() - 1 {
                assert(segs[i].0 + segs[i].1.len() != segs[i + 1].0);
            }
        }
    }
}

proof fn lemma_put_all_laid_out(segs: Seq<(u16, Seq<u8>)>, a: int, bytes: Seq<u8>)
    requires
        laid_out(segs),
        0 <= a,
        a + bytes.len() <= 0x1_0000,
    ensures
        laid_out(put_all(segs, a, bytes)),
    decreases bytes.len(),
{
    if bytes.len() > 0 {
        lemma_put_all_laid_out(segs, a, bytes.drop_last());
        lemma_put_laid_out(put_all(segs, a, bytes.drop_last()), a + bytes.len() - 1, bytes.last());
    }
}

/// The segments of any bank are laid out as promised, given chunks that fit.
proof fn lemma_bank_segments_laid_out(cs: Seq<Chunk>, b: int)
    requires
        chunks_fit(cs),
    ensures
        laid_out(bank_segments(cs, b)),
    decreases cs.len(),
{
    if cs.len() > 0 {
        let pre = cs.drop_last();
        assert(chunks_fit(pre)) by {
            assert forall|k: int| 0 <= k < pre.len() implies 0 <= (#[trigger] pre[k]).0 && pre[k].0 + pre[k].2.len() <= 0x1_0000 by {
                assert(pre[k] == cs[k]);
            }
        }
        lemma_bank_segments_laid_out(pre, b);
        if cs.last().1 == b {
            assert(cs.last() == cs[cs.len() - 1]);
            lemma_put_all_laid_out(bank_segments(pre, b), cs.last().0, cs.last().2);
        }
    }
}

/// What a program assembles to: the segments of each bank from 0 up to the
/// highest bank used, or the first error. Every line is parsed before any
/// is sized, so a syntax error anywhere is reported before a sizing error.
pub open spec fn assembly(src: Seq<char>) -> Result<Seq<Seq<(u16, Seq<u8>)>>, Fault> {
    let spans = lines_from(src, 0, 0);
    match first_bad_line(src, spans, 0) {
        Some(f) => Err(f),
        None => match sizing(src, spans, 0, sizing_start()) {
            Err(f) => Err(f),
            Ok(st) => match emitted(src, st.0, st.1, 0) {
                Err(f) => Err(f),
                Ok(cs) => Ok(Seq::new((st.4 + 1) as nat, |b: int| bank_segments(cs, b))),
            },
        },
    }
}

pub open spec fn segs_view(v: Seq<(u16, Vec<u8>)>) -> Seq<(u16, Seq<u8>)> {
    v.map_values(|s: (u16, Vec<u8>)| (s.0, s.1@))
}

/// Every bank of a binary, bank 0 first.
pub open spec fn banks_of(bin: Binary) -> Seq<Seq<(u16, Seq<u8>)>> {
    seq![segs_view(bin.segments@)] + bin.extra_banks@.map_values(
        |b: Vec<(u16, Vec<u8>)>| segs_view(b@),
    )
}

pub open spec fn then_bytes(p: Seq<u8>, r: Result<Seq<u8>, Fault>) -> Result<Seq<u8>, Fault> {
    match r {
        Ok(bs) => Ok(p + bs),
        Err(f) => Err(f),
    }
}

pub open spec fn chunks_view(v: Seq<(u32, u8, Vec<u8>)>) -> Seq<Chunk> {
    v.map_values(|c: (u32, u8, Vec<u8>)| (c.0 as int, c.1 as int, c.2@))
}

/// Every chunk ends at or below `$10000`.
pub open spec fn chunks_fit(cs: Seq<Chunk>) -> bool {
    forall|k: int| 0 <= k < cs.len() ==> 0 <= (#[trigger] cs[k]).0 && cs[k].0 + cs[k].2.len() <= 0x1_0000
}

/// A record emits exactly as many bytes as the sizing pass reserved for it.
pub proof fn lemma_rec_bytes_len(src: Seq<char>, syms: Seq<(usize, usize, i32)>, p: Placed)
    ensures
        rec_bytes(src, syms, p) matches Ok(bs) ==> bs.len() == rec_size(src, p.rec),
{
    match p.rec {
        Rec::Data { line, a, b, word } => {
            if let Ok(es) = items_spec(src, a as int, b as int, line as int) {
                lemma_data_bytes_len(src, syms, es, p.addr as int, word, line as int);
            }
        },
        _ => {},
    }
}

proof fn lemma_data_bytes_len(
    src: Seq<char>,
    syms: Seq<(usize, usize, i32)>,
    es: Seq<Expr>,
    addr: int,
    word: bool,
    line: int,
)
    ensures
        data_bytes(src, syms, es, addr, word, line) matches Ok(bs) ==> bs.len() == (if word { 2int } else { 1int }) * es.len(),
    decreases es.len(),
{
    if es.len() > 0 {
        lemma_data_bytes_len(src, syms, es.drop_first(), addr + if word { 2int } else { 1int }, word, line);
    }
}

/// The low byte of `v`.
fn low8(v: i64) -> (b: u8)
    ensures
        b == low_byte(v as int),
{
    if v >= 0 {
        (v % 256) as u8
    } else {
        let m = 255 - (-(v + 1)) % 256;
        assert(m == v as int % 256) by (nonlinear_arith)
            requires
                v < 0,
                m == 255 - (-(v + 1)) % 256,
        ;
        m as u8
    }
}

/// `v` divided by 256, rounding down.
fn div256(v: i64) -> (r: i64)
    ensures
        r == v as int / 256,
{
    if v >= 0 {
        v / 256
    } else {
        let r = -((-(v + 1)) / 256) - 1;
        assert(r == v as int / 256) by (nonlinear_arith)
            requires
                v < 0,
                r == -((-(v + 1)) / 256) - 1,
        ;
        r
    }
}

fn data_out(
    src: &Vec<char>,
    syms: &Vec<(usize, usize, i32)>,
    es: &Vec<Expr>,
    addr: u32,
    word: bool,
    line: usize,
) -> (r: Result<Vec<u8>, Error>)
    requires
        addr + (if word { 2int } else { 1int }) * es@.len() <= 0x1_0000,
        forall|k: int| 0 <= k < es@.len() ==> expr_in(#[trigger] es@[k], src@.len() as int),
        syms_ok(src@, syms@),
    ensures
        match data_bytes(src@, syms@, es@, addr as int, word, line as int) {
            Ok(bs) => r matches Ok(v) && v@ == bs,
            Err(f) => r matches Err(e) && e.line == f.0 && e.msg@ == f.1,
        },
{
    let ghost w: int = if word { 2 } else { 1 };
    let mut out: Vec<u8> = Vec::new();
    let mut i: usize = 0;
    let mut a: u32 = addr;
    proof {
        assert(es@.subrange(0, es@.len() as int) =~= es@);
        match data_bytes(src@, syms@, es@, addr as int, word, line as int) {
            Ok(bs) => {
                assert(out@ + bs =~= bs);
            },
            Err(f) => {},
        }
    }
    while i < es.len()
        invariant
            w == (if word { 2int } else { 1int }),
            i <= es@.len(),
            a == addr + w * i,
            addr + w * es@.len() <= 0x1_0000,
            forall|k: int| 0 <= k < es@.len() ==> expr_in(#[trigger] es@[k], src@.len() as int),
            syms_ok(src@, syms@),
            data_bytes(src@, syms@, es@, addr as int, word, line as int) == then_bytes(
                out@,
                data_bytes(src@, syms@, es@.subrange(i as int, es@.len() as int), a as int, word, line as int),
            ),
        decreases es.len() - i,
    {
        assert(a + w <= 0x1_0000) by (nonlinear_arith)
            requires
                a == addr + w * i,
                addr + w * es@.len() <= 0x1_0000,
                i < es@.len(),
                w >= 1,
        ;
        let ghost rest = es@.subrange(i as int, es@.len() as int);
        assert(rest[0] == es@[i as int]);
        assert(rest.drop_first() =~= es@.subrange(i + 1, es@.len() as int));
        let v = match resolve(src, syms, &es[i], a) {
            None => {
                return Err(err(line, "undefined symbol or unresolvable expression"));
            },
            Some(v) => v,
        };
        let ghost prev = out@;
        out.push(low8(v as i64));
        if word {
            out.push(low8(div256(v as i64)));
            a = a + 2;
        } else {
            a = a + 1;
        }
        proof {
            let piece = if word { word_le(v as int) } else { seq![low_byte(v as int)] };
            assert(out@ =~= prev + piece);
            match data_bytes(src@, syms@, es@.subrange(i + 1, es@.len() as int), a as int, word, line as int) {
                Ok(bs) => {
                    assert(prev + (piece + bs) =~= out@ + bs);
                },
                Err(f) => {},
            }
            assert(a == addr + w * (i + 1)) by (nonlinear_arith)
                requires
                    a == addr + w * i + w,
            ;
        }
        i = i + 1;
    }
    assert(es@.subrange(i as int, es@.len() as int) =~= seq![]);
    assert(out@ + seq![] =~= out@);
    Ok(out)
}

fn instr_out(
    src: &Vec<char>,
    syms: &Vec<(usize, usize, i32)>,
    line: usize,
    op: Op,
    mode: Mode,
    expr: &Option<Expr>,
    addr: u32,
) -> (r: Result<Vec<u8>, Error>)
    requires
        encoding(op, mode) is Some,
        addr <= 0x1_0000,
        *expr matches Some(e) ==> expr_in(e, src@.len() as int),
        syms_ok(src@, syms@),
    ensures
        match instr_bytes(src@, syms@, line as int, op, mode, *expr, addr as int) {
            Ok(bs) => r matches Ok(v) && v@ == bs,
            Err(f) => r matches Err(e) && e.line == f.0 && e.msg@ == f.1,
        },
{
    let opcode = encode(op, mode).unwrap();
    let mut out: Vec<u8> = Vec::new();
    out.push(opcode);
    if mode == Mode::Imp || mode == Mode::Acc {
        return Ok(out);
    }
    let value = match expr {
        Some(e) => resolve(src, syms, e, addr),
        None => None,
    };
    let v = match value {
        None => {
            return Err(err(line, "undefined symbol or unresolvable expression"));
        },
        Some(v) => v,
    };
    if mode == Mode::Rel {
        let off = v as i64 - (addr as i64 + 2);
        if off < -128 || off > 127 {
            return Err(err(line, "branch target out of range"));
        }
        out.push(low8(off));
    } else if mode == Mode::Abs || mode == Mode::Abx || mode == Mode::Aby || mode == Mode::Ind {
        out.push(low8(v as i64));
        out.push(low8(div256(v as i64)));
    } else {
        out.push(low8(v as i64));
    }
    assert(out@ =~= instr_bytes(src@, syms@, line as int, op, mode, *expr, addr as int)->Ok_0);
    Ok(out)
}

fn placed_bytes(src: &Vec<char>, syms: &Vec<(usize, usize, i32)>, p: &Placed) -> (r: Result<Vec<u8>, Error>)
    requires
        placed_ok(src@, *p),
        syms_ok(src@, syms@),
    ensures
        match rec_bytes(src@, syms@, *p) {
            Ok(bs) => r matches Ok(v) && v@ == bs,
            Err(f) => r matches Err(e) && e.line == f.0 && e.msg@ == f.1,
        },
{
    match &p.rec {
        Rec::Instr { line, op, mode, expr } => instr_out(src, syms, *line, *op, *mode, expr, p.addr),
        Rec::Data { line, a, b, word } => {
            let es = parse_items(src, *a, *b, *line)?;
            data_out(src, syms, &es, p.addr, *word, *line)
        },
        Rec::Text(a, b) => Ok(text_bytes(src, *a, *b)),
        Rec::Zeros(n) => {
            let mut v: Vec<u8> = Vec::new();
            let mut i: u32 = 0;
            while i < *n
                invariant
                    i <= *n,
                    v@ == Seq::new(i as nat, |j: int| 0u8),
                decreases *n - i,
            {
                v.push(0);
                i = i + 1;
                assert(v@ =~= Seq::new(i as nat, |j: int| 0u8));
            }
            Ok(v)
        },
    }
}

/// The emission pass: the bytes of every record, in order, or the first
/// error.
fn emit_all(src: &Vec<char>, syms: &Vec<(usize, usize, i32)>, recs: &Vec<Placed>) -> (r: Result<Vec<(u32, u8, Vec<u8>)>, Error>)
    requires
        syms_ok(src@, syms@),
        recs_ok(src@, recs@),
    ensures
        match emitted(src@, syms@, recs@, 0) {
            Ok(cs) => r matches Ok(v) && chunks_view(v@) == cs && chunks_fit(cs),
            Err(f) => r matches Err(e) && e.line == f.0 && e.msg@ == f.1,
        },
{
    let mut out: Vec<(u32, u8, Vec<u8>)> = Vec::new();
    let mut k: usize = 0;
    while k < recs.len()
        invariant
            k <= recs@.len(),
            syms_ok(src@, syms@),
            recs_ok(src@, recs@),
            chunks_fit(chunks_view(out@)),
            emitted(src@, syms@, recs@, 0) == then_chunks(chunks_view(out@), emitted(src@, syms@, recs@, k as int)),
        decreases recs.len() - k,
    {
        let p = &recs[k];
        assert(placed_ok(src@, recs@[k as int]));
        let bytes = placed_bytes(src, syms, p)?;
        proof {
            lemma_rec_bytes_len(src@, syms@, *p);
        }
        let ghost prev = out@;
        out.push((p.addr, p.bank, bytes));
        proof {
            let c: Chunk = (p.addr as int, p.bank as int, bytes@);
            assert(chunks_view(out@) =~= chunks_view(prev) + seq![c]);
            match emitted(src@, syms@, recs@, k + 1) {
                Ok(cs) => {
                    assert(chunks_view(prev) + (seq![c] + cs) =~= chunks_view(out@) + cs);
                },
                Err(f) => {},
            }
        }
        k = k + 1;
    }
    assert(chunks_view(out@) + seq![] =~= chunks_view(out@));
    Ok(out)
}

/// Store one byte at `a`.
fn put_byte(segs: &mut Vec<(u16, Vec<u8>)>, a: u32, b: u8)
    requires
        a < 0x1_0000,
    ensures
        segs_view(final(segs)@) == put(segs_view(old(segs)@), a as int, b),
{
    let n = segs.len();
    if n > 0 {
        let start = segs[n - 1].0;
        let len = segs[n - 1].1.len();
        if a as usize >= start as usize && a as usize - start as usize == len {
            let ghost before = segs_view(segs@);
            let (s0, mut bs) = segs.pop().unwrap();
            bs.push(b);
            segs.push((s0, bs));
            assert(segs_view(segs@) =~= before.drop_last().push((before.last().0, before.last().1.push(b))));
            return;
        }
    }
    let ghost before = segs_view(segs@);
    let mut one: Vec<u8> = Vec::new();
    one.push(b);
    segs.push((a as u16, one));
    assert(segs_view(segs@) =~= before.push((a as u16, seq![b])));
}

/// Store `bytes` from `a` on.
fn put_bytes(segs: &mut Vec<(u16, Vec<u8>)>, a: u32, bytes: &Vec<u8>)
    requires
        a + bytes@.len() <= 0x1_0000,
    ensures
        segs_view(final(segs)@) == put_all(segs_view(old(segs)@), a as int, bytes@),
{
    let ghost s0 = segs_view(segs@);
    let mut i: usize = 0;
    assert(bytes@.take(0) =~= seq![]);
    while i < bytes.len()
        invariant
            i <= bytes@.len(),
            a + bytes@.len() <= 0x1_0000,
            segs_view(segs@) == put_all(s0, a as int, bytes@.take(i as int)),
        decreases bytes.len() - i,
    {
        put_byte(segs, a + i as u32, bytes[i]);
        proof {
            let t = bytes@.take(i + 1);
            assert(t.drop_last() =~= bytes@.take(i as int));
            assert(t.last() == bytes@[i as int]);
        }
        i = i + 1;
    }
    assert(bytes@.take(i as int) =~= bytes@);
}

/// The segments of bank `b`.
fn bank_image(chunks: &Vec<(u32, u8, Vec<u8>)>, b: u8) -> (segs: Vec<(u16, Vec<u8>)>)
    requires
        chunks_fit(chunks_view(chunks@)),
    ensures
        segs_view(segs@) == bank_segments(chunks_view(chunks@), b as int),
{
    let ghost cv = chunks_view(chunks@);
    let mut segs: Vec<(u16, Vec<u8>)> = Vec::new();
    let mut k: usize = 0;
    assert(cv.take(0) =~= seq![]);
    assert(segs_view(segs@) =~= seq![]);
    while k < chunks.len()
        invariant
            cv == chunks_view(chunks@),
            chunks_fit(cv),
            k <= chunks@.len(),
            segs_view(segs@) == bank_segments(cv.take(k as int), b as int),
        decreases chunks.len() - k,
    {
        let c = &chunks[k];
        assert(cv[k as int] == (c.0 as int, c.1 as int, c.2@));
        if c.1 == b {
            put_bytes(&mut segs, c.0, &c.2);
        }
        proof {
            let t = cv.take(k + 1);
            assert(t.drop_last() =~= cv.take(k as int));
            assert(t.last() == cv[k as int]);
        }
        k = k + 1;
    }
    assert(cv.take(k as int) =~= cv);
    segs
}

/// Parse every line, for the first error.
fn check_lines(text: &Vec<char>, spans: &Vec<(usize, usize)>) -> (r: Result<(), Error>)
    requires
        spans_view(spans@) == lines_from(text@, 0, 0),
        forall|j: int| 0 <= j < spans@.len() ==> #[trigger] spans@[j].0 <= spans@[j].1 <= text@.len(),
    ensures
        match first_bad_line(text@, lines_from(text@, 0, 0), 0) {
            Some(f) => r matches Err(e) && e.line == f.0 && e.msg@ == f.1,
            None => r is Ok,
        },
{
    let ghost sp = lines_from(text@, 0, 0);
    let mut k: usize = 0;
    while k < spans.len()
        invariant
            sp == lines_from(text@, 0, 0),
            spans_view(spans@) == sp,
            forall|j: int| 0 <= j < spans@.len() ==> #[trigger] spans@[j].0 <= spans@[j].1 <= text@.len(),
            k <= spans@.len(),
            first_bad_line(text@, sp, 0) == first_bad_line(text@, sp, k as int),
        decreases spans.len() - k,
    {
        let (a, b) = spans[k];
        assert(sp[k as int] == (a as int, b as int));
        let _parsed = parse_line(text, a, b, k + 1)?;
        k = k + 1;
    }
    Ok(())
}

/// Assemble `src` into a loadable binary: the segments of bank 0, and of
/// each further cartridge bank up to the highest one a `.bank` names.
/// Fails with a 1-based line number.
pub fn assemble(src: &str) -> (r: Result<Binary, Error>)
    ensures
        match assembly(src@) {
            Ok(banks) => r matches Ok(bin) && banks_of(bin) == banks,
            Err(f) => r matches Err(e) && e.line == f.0 && e.msg@ == f.1,
        },
        r matches Ok(bin) ==> forall|b: int| 0 <= b < banks_of(bin).len() ==> laid_out(#[trigger] banks_of(bin)[b]),
{
    let text = chars_of(src);
    let spans = line_spans(&text);
    let ghost sp = lines_from(text@, 0, 0);
    check_lines(&text, &spans)?;
    let (syms, recs, top) = size_all(&text, &spans)?;
    let chunks = emit_all(&text, &syms, &recs)?;
    let ghost cv = chunks_view(chunks@);
    let segments = bank_image(&chunks, 0);
    let mut extra_banks: Vec<Vec<(u16, Vec<u8>)>> = Vec::new();
    let mut i: u16 = 1;
    while i <= top as u16
        invariant
            1 <= i <= top as u16 + 1,
            cv == chunks_view(chunks@),
            chunks_fit(cv),
            extra_banks@.len() == i - 1,
            forall|j: int| 0 <= j < extra_banks@.len() ==> segs_view((#[trigger] extra_banks@[j])@) == bank_segments(cv, j + 1),
        decreases top as u16 + 1 - i,
    {
        let segs = bank_image(&chunks, i as u8);
        extra_banks.push(segs);
        i = i + 1;
    }
    let bin = Binary { segments, extra_banks };
    proof {
        let banks = Seq::new((top + 1) as nat, |b: int| bank_segments(cv, b));
        assert(banks_of(bin) =~= banks);
        assert forall|b: int| 0 <= b < banks_of(bin).len() implies laid_out(#[trigger] banks_of(bin)[b]) by {
            lemma_bank_segments_laid_out(cv, b);
        }
    }
    Ok(bin)
}

// ------------------------------------------------------------ error lines

/// The records name lines within `1..=n`.
pub open spec fn rec_lines_within(recs: Seq<Placed>, n: int) -> bool {
    forall|k: int|
        0 <= k < recs.len() ==> match (#[trigger] recs[k]).rec {
            Rec::Instr { line, .. } => 1 <= line <= n,
            Rec::Data { line, .. } => 1 <= line <= n,
            _ => true,
        }
}

proof fn lemma_size_line_lines(
    src: Seq<char>,
    st: Sizing,
    line: int,
    label: Option<(usize, usize)>,
    stmt: Stmt,
    n: int,
)
    requires
        1 <= line <= n <= usize::MAX,
        rec_lines_within(st.1, n),
    ensures
        match size_line(src, st, line, label, stmt) {
            Err(f) => f.0 == line,
            Ok(s2) => rec_lines_within(s2.1, n),
        },
{
    lemma_parse_error_line(src, line);
    let labelled = match label {
        None => Ok(st),
        Some((a, b)) => if lookup(src, st.0, a as int, b as int, 0) is Some {
            Err(duplicate(src, a as int, b as int, line))
        } else {
            Ok((st.0.push((a, b, st.2 as i32)), st.1, st.2, st.3, st.4))
        },
    };
    if let Ok(s1) = labelled {
        if let Ok(s2) = size_stmt(src, s1, line, stmt) {
            assert forall|k: int| 0 <= k < s2.1.len() implies match (#[trigger] s2.1[k]).rec {
                Rec::Instr { line, .. } => 1 <= line <= n,
                Rec::Data { line, .. } => 1 <= line <= n,
                _ => true,
            } by {
                if k < s1.1.len() {
                    assert(s2.1[k] == s1.1[k]);
                }
            }
        }
    }
}

proof fn lemma_sizing_lines(src: Seq<char>, spans: Seq<(int, int)>, k: int, st: Sizing)
    requires
        0 <= k,
        spans.len() <= usize::MAX,
        rec_lines_within(st.1, spans.len() as int),
    ensures
        match sizing(src, spans, k, st) {
            Err(f) => k + 1 <= f.0 <= spans.len(),
            Ok(s2) => rec_lines_within(s2.1, spans.len() as int),
        },
    decreases spans.len() - k,
{
    if k < spans.len() {
        lemma_parse_error_line(src, k + 1);
        if let Ok((label, stmt)) = line_spec(src, spans[k].0, spans[k].1, k + 1) {
            lemma_size_line_lines(src, st, k + 1, label, stmt, spans.len() as int);
            if let Ok(s2) = size_line(src, st, k + 1, label, stmt) {
                lemma_sizing_lines(src, spans, k + 1, s2);
            }
        }
    }
}

proof fn lemma_first_bad_line_lines(src: Seq<char>, spans: Seq<(int, int)>, k: int)
    requires
        0 <= k,
    ensures
        first_bad_line(src, spans, k) matches Some(f) ==> k + 1 <= f.0 <= spans.len(),
    decreases spans.len() - k,
{
    if k < spans.len() {
        lemma_parse_error_line(src, k + 1);
        lemma_first_bad_line_lines(src, spans, k + 1);
    }
}

proof fn lemma_data_bytes_line(
    src: Seq<char>,
    syms: Seq<(usize, usize, i32)>,
    es: Seq<Expr>,
    addr: int,
    word: bool,
    line: int,
)
    ensures
        data_bytes(src, syms, es, addr, word, line) is Err ==> data_bytes(src, syms, es, addr, word, line)->Err_0.0
            == line,
    decreases es.len(),
{
    if es.len() > 0 {
        lemma_data_bytes_line(src, syms, es.drop_first(), addr + if word { 2int } else { 1int }, word, line);
    }
}

proof fn lemma_emitted_lines(src: Seq<char>, syms: Seq<(usize, usize, i32)>, recs: Seq<Placed>, k: int, n: int)
    requires
        0 <= k,
        rec_lines_within(recs, n),
    ensures
        emitted(src, syms, recs, k) is Err ==> 1 <= emitted(src, syms, recs, k)->Err_0.0 <= n,
    decreases recs.len() - k,
{
    if k < recs.len() {
        let p = recs[k];
        if let Rec::Data { line, a, b, word } = p.rec {
            lemma_parse_error_line(src, line as int);
            if let Ok(es) = items_spec(src, a as int, b as int, line as int) {
                lemma_data_bytes_line(src, syms, es, p.addr as int, word, line as int);
            }
        }
        lemma_emitted_lines(src, syms, recs, k + 1, n);
    }
}

/// An assembly error always names a line of the program: 1-based, and at
/// most the number of lines.
pub proof fn lemma_error_names_a_line(src: Seq<char>)
    requires
        lines_from(src, 0, 0).len() <= usize::MAX,
    ensures
        assembly(src) is Err ==> 1 <= assembly(src)->Err_0.0 <= lines_from(src, 0, 0).len(),
{
    let spans = lines_from(src, 0, 0);
    lemma_first_bad_line_lines(src, spans, 0);
    lemma_sizing_lines(src, spans, 0, sizing_start());
    if let Ok(st) = sizing(src, spans, 0, sizing_start()) {
        lemma_emitted_lines(src, st.0, st.1, 0, spans.len() as int);
    }
}

} // verus!
