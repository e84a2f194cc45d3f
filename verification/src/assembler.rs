//! Two-pass 6502 assembler for VINTAGE-1.
//!
//! Syntax: `label:` definitions, `name = expr` equates, `$` hex, `%` binary,
//! `'c'` chars, full expression grammar with precedence. Addressing modes
//! are chosen by operand shape; symbolic operands always assemble absolute
//! (never zero-page) so a single sizing pass is deterministic: use `<expr`
//! to force zero page. `.bank n` sends the following output to cartridge
//! bank `n`.
//!
//! The source is handled as one sequence of characters; every piece of text
//! (a line, a name, an operand) is a span `[start, end)` of it. The dialect
//! is defined by the spec functions below, and each step of the assembler is
//! proved to compute exactly what they define.

use vstd::prelude::*;

use crate::isa::{encode, encoding, instruction_len, len_of, Mode, Op};
use crate::text::push_char;

pub mod passes;

pub use passes::assemble;

verus! {

// ------------------------------------------------------------ characters

/// Unicode white space, as `char::is_whitespace` defines it.
pub open spec fn is_ws(c: char) -> bool {
    ||| c == '\t' || c == '\n' || c == '\u{0B}' || c == '\u{0C}' || c == '\r' || c == ' '
    ||| c == '\u{85}' || c == '\u{A0}' || c == '\u{1680}'
    ||| '\u{2000}' <= c && c <= '\u{200A}'
    ||| c == '\u{2028}' || c == '\u{2029}' || c == '\u{202F}' || c == '\u{205F}' || c == '\u{3000}'
}

pub open spec fn is_alpha(c: char) -> bool {
    ('a' <= c && c <= 'z') || ('A' <= c && c <= 'Z')
}

pub open spec fn is_dec(c: char) -> bool {
    '0' <= c && c <= '9'
}

/// Characters of names: ASCII letters, digits and `_`.
pub open spec fn is_word(c: char) -> bool {
    is_alpha(c) || is_dec(c) || c == '_'
}

/// The value of `c` as a digit in `radix` (2..=16), or `radix` itself when
/// it is no such digit.
pub open spec fn digit_of(c: char, radix: int) -> int {
    let v = if is_dec(c) {
        c as int - 48
    } else if 'a' <= c && c <= 'z' {
        c as int - 97 + 10
    } else if 'A' <= c && c <= 'Z' {
        c as int - 65 + 10
    } else {
        radix
    };
    if v < radix {
        v
    } else {
        radix
    }
}

/// ASCII lower case of one character.
pub open spec fn lower(c: char) -> char {
    if 'A' <= c && c <= 'Z' {
        ((c as int) + 32) as char
    } else {
        c
    }
}

fn is_ws_char(c: char) -> (r: bool)
    ensures
        r == is_ws(c),
{
    c == '\t' || c == '\n' || c == '\u{0B}' || c == '\u{0C}' || c == '\r' || c == ' ' || c
        == '\u{85}' || c == '\u{A0}' || c == '\u{1680}' || ('\u{2000}' <= c && c <= '\u{200A}')
        || c == '\u{2028}' || c == '\u{2029}' || c == '\u{202F}' || c == '\u{205F}' || c
        == '\u{3000}'
}

fn is_alpha_char(c: char) -> (r: bool)
    ensures
        r == is_alpha(c),
{
    ('a' <= c && c <= 'z') || ('A' <= c && c <= 'Z')
}

fn is_word_char(c: char) -> (r: bool)
    ensures
        r == is_word(c),
{
    ('a' <= c && c <= 'z') || ('A' <= c && c <= 'Z') || ('0' <= c && c <= '9') || c == '_'
}

pub(crate) fn digit_value(c: char, radix: u32) -> (r: u32)
    requires
        2 <= radix <= 16,
    ensures
        r == digit_of(c, radix as int),
{
    let v: u32 = if '0' <= c && c <= '9' {
        (c as u32) - ('0' as u32)
    } else if 'a' <= c && c <= 'z' {
        (c as u32) - ('a' as u32) + 10
    } else if 'A' <= c && c <= 'Z' {
        (c as u32) - ('A' as u32) + 10
    } else {
        radix
    };
    if v < radix {
        v
    } else {
        radix
    }
}

fn lower_char(c: char) -> (r: char)
    ensures
        r == lower(c),
{
    if 'A' <= c && c <= 'Z' {
        ((c as u8) + 32) as char
    } else {
        c
    }
}

/// The characters of `s`.
pub fn chars_of(s: &str) -> (v: Vec<char>)
    ensures
        v@ == s@,
{
    let n = s.unicode_len();
    let mut v: Vec<char> = Vec::new();
    let mut i: usize = 0;
    while i < n
        invariant
            n == s@.len(),
            i <= n,
            v@ == s@.subrange(0, i as int),
        decreases n - i,
    {
        v.push(s.get_char(i));
        i = i + 1;
        assert(v@ =~= s@.subrange(0, i as int));
    }
    v
}

// ------------------------------------------------------------------ spans

/// The lines of `src` scanned from `i`, the current line starting at
/// `start`, as `str::lines` splits them: at each `\n`, dropping a `\r`
/// right before it; a last line without `\n` counts only when non-empty.
pub open spec fn lines_from(src: Seq<char>, i: int, start: int) -> Seq<(int, int)>
    decreases src.len() - i,
{
    if i >= src.len() {
        if start < src.len() {
            seq![(start, src.len() as int)]
        } else {
            seq![]
        }
    } else if src[i] == '\n' {
        let end = if i > start && src[i - 1] == '\r' {
            i - 1
        } else {
            i
        };
        seq![(start, end)] + lines_from(src, i + 1, i + 1)
    } else {
        lines_from(src, i + 1, start)
    }
}

/// The first position in `[i, end)` holding a non-space, or `end`.
pub open spec fn skip_ws(src: Seq<char>, i: int, end: int) -> int
    decreases end - i,
{
    if i >= end {
        end
    } else if is_ws(src[i]) {
        skip_ws(src, i + 1, end)
    } else {
        i
    }
}

/// The end of `[start, e)` with trailing white space removed.
pub open spec fn trim_back(src: Seq<char>, start: int, e: int) -> int
    decreases e - start,
{
    if e <= start {
        start
    } else if is_ws(src[e - 1]) {
        trim_back(src, start, e - 1)
    } else {
        e
    }
}

/// The first position in `[i, end)` not holding a name character, or `end`.
pub open spec fn word_end(src: Seq<char>, i: int, end: int) -> int
    decreases end - i,
{
    if i >= end {
        end
    } else if is_word(src[i]) {
        word_end(src, i + 1, end)
    } else {
        i
    }
}

/// Where a `;` comment starts in `[i, end)` (honouring double-quoted
/// strings), or `end`.
pub open spec fn comment_at(src: Seq<char>, i: int, end: int, in_string: bool) -> int
    decreases end - i,
{
    if i >= end {
        end
    } else if src[i] == '"' {
        comment_at(src, i + 1, end, !in_string)
    } else if src[i] == ';' && !in_string {
        i
    } else {
        comment_at(src, i + 1, end, in_string)
    }
}

/// Whether spans `[a1, b1)` and `[a2, b2)` hold the same text.
pub open spec fn same_text(src: Seq<char>, a1: int, b1: int, a2: int, b2: int) -> bool {
    src.subrange(a1, b1) == src.subrange(a2, b2)
}

/// Whether span `[a, b)` is, ignoring ASCII case, the lower-case text `lit`.
pub open spec fn is_text_ci(src: Seq<char>, a: int, b: int, lit: Seq<char>) -> bool {
    b - a == lit.len() && forall|k: int| 0 <= k < lit.len() ==> lower(#[trigger] src[a + k]) == lit[k]
}

#[verifier::spinoff_prover]
fn line_spans(src: &Vec<char>) -> (r: Vec<(usize, usize)>)
    ensures
        forall|k: int| 0 <= k < r@.len() ==> (#[trigger] r@[k]).0 <= r@[k].1 <= src@.len(),
        spans_view(r@) == lines_from(src@, 0, 0),
{
    let mut r: Vec<(usize, usize)> = Vec::new();
    let mut i: usize = 0;
    let mut start: usize = 0;
    let ghost all = lines_from(src@, 0, 0);
    while i < src.len()
        invariant
            start <= i <= src@.len(),
            all == lines_from(src@, 0, 0),
            spans_view(r@) + lines_from(src@, i as int, start as int) == all,
            forall|k: int| 0 <= k < r@.len() ==> (#[trigger] r@[k]).0 <= r@[k].1 <= src@.len(),
        decreases src.len() - i,
    {
        if src[i] == '\n' {
            let end = if i > start && src[i - 1] == '\r' {
                i - 1
            } else {
                i
            };
            let ghost old_r = r@;
            r.push((start, end));
            assert(spans_view(r@) =~= spans_view(old_r) + seq![(start as int, end as int)]);
            i = i + 1;
            start = i;
        } else {
            i = i + 1;
        }
    }
    if start < src.len() {
        let ghost old_r = r@;
        r.push((start, src.len()));
        assert(spans_view(r@) =~= spans_view(old_r) + seq![(start as int, src@.len() as int)]);
        assert forall|k: int| 0 <= k < r@.len() implies (#[trigger] r@[k]).0 <= r@[k].1 <= src@.len() by {
            if k < old_r.len() {
                assert(r@[k] == old_r[k]);
            }
        }
    }
    assert(spans_view(r@) =~= all);
    r
}

/// Spans as pairs of integers.
pub open spec fn spans_view(v: Seq<(usize, usize)>) -> Seq<(int, int)> {
    v.map_values(|p: (usize, usize)| (p.0 as int, p.1 as int))
}

pub(crate) fn skip_ws_at(src: &Vec<char>, i: usize, end: usize) -> (r: usize)
    requires
        i <= end <= src@.len(),
    ensures
        r == skip_ws(src@, i as int, end as int),
        i <= r <= end,
    decreases end - i,
{
    let mut k = i;
    while k < end && is_ws_char(src[k])
        invariant
            i <= k <= end <= src@.len(),
            skip_ws(src@, k as int, end as int) == skip_ws(src@, i as int, end as int),
        decreases end - k,
    {
        k = k + 1;
    }
    k
}

pub(crate) fn trim_back_at(src: &Vec<char>, start: usize, e: usize) -> (r: usize)
    requires
        start <= e <= src@.len(),
    ensures
        r == trim_back(src@, start as int, e as int),
        start <= r <= e,
{
    let mut k = e;
    while k > start && is_ws_char(src[k - 1])
        invariant
            start <= k <= e <= src@.len(),
            trim_back(src@, start as int, k as int) == trim_back(src@, start as int, e as int),
        decreases k - start,
    {
        k = k - 1;
    }
    k
}

fn word_end_at(src: &Vec<char>, i: usize, end: usize) -> (r: usize)
    requires
        i <= end <= src@.len(),
    ensures
        r == word_end(src@, i as int, end as int),
        i <= r <= end,
{
    let mut k = i;
    while k < end && is_word_char(src[k])
        invariant
            i <= k <= end <= src@.len(),
            word_end(src@, k as int, end as int) == word_end(src@, i as int, end as int),
        decreases end - k,
    {
        k = k + 1;
    }
    k
}

/// Drop a `;` comment, honouring double-quoted strings: the end of the code
/// part of `[a, b)`.
fn strip_comment(src: &Vec<char>, a: usize, b: usize) -> (r: usize)
    requires
        a <= b <= src@.len(),
    ensures
        r == comment_at(src@, a as int, b as int, false),
        a <= r <= b,
{
    let mut in_string = false;
    let mut i = a;
    while i < b
        invariant
            a <= i <= b <= src@.len(),
            comment_at(src@, i as int, b as int, in_string) == comment_at(src@, a as int, b as int, false),
        decreases b - i,
    {
        let c = src[i];
        if c == '"' {
            in_string = !in_string;
        } else if c == ';' && !in_string {
            return i;
        }
        i = i + 1;
    }
    b
}

fn same_text_at(src: &Vec<char>, a1: usize, b1: usize, a2: usize, b2: usize) -> (r: bool)
    requires
        a1 <= b1 <= src@.len(),
        a2 <= b2 <= src@.len(),
    ensures
        r == same_text(src@, a1 as int, b1 as int, a2 as int, b2 as int),
{
    if b1 - a1 != b2 - a2 {
        assert(src@.subrange(a1 as int, b1 as int).len() != src@.subrange(a2 as int, b2 as int).len());
        return false;
    }
    let n = b1 - a1;
    let mut k: usize = 0;
    while k < n
        invariant
            k <= n,
            n == b1 - a1,
            n == b2 - a2,
            a1 <= b1 <= src@.len(),
            a2 <= b2 <= src@.len(),
            forall|j: int| 0 <= j < k ==> #[trigger] src@[a1 + j] == src@[a2 + j],
        decreases n - k,
    {
        if src[a1 + k] != src[a2 + k] {
            assert(src@.subrange(a1 as int, b1 as int)[k as int] != src@.subrange(a2 as int, b2 as int)[k as int]);
            return false;
        }
        k = k + 1;
    }
    assert forall|j: int| 0 <= j < n implies src@.subrange(a1 as int, b1 as int)[j] == src@.subrange(
        a2 as int,
        b2 as int,
    )[j] by {
        assert(src@[a1 + j] == src@[a2 + j]);
    }
    assert(src@.subrange(a1 as int, b1 as int) =~= src@.subrange(a2 as int, b2 as int));
    true
}

/// Whether `[a, b)` reads `lit` ignoring ASCII case (`lit` is lower case).
fn text_is_ci(src: &Vec<char>, a: usize, b: usize, lit: &str) -> (r: bool)
    requires
        a <= b <= src@.len(),
    ensures
        r == is_text_ci(src@, a as int, b as int, lit@),
{
    let n = lit.unicode_len();
    if b - a != n {
        return false;
    }
    let mut k: usize = 0;
    while k < n
        invariant
            k <= n,
            n == lit@.len(),
            b - a == n,
            a <= b <= src@.len(),
            forall|j: int| 0 <= j < k ==> lower(#[trigger] src@[a + j]) == lit@[j],
        decreases n - k,
    {
        if lower_char(src[a + k]) != lit.get_char(k) {
            return false;
        }
        k = k + 1;
    }
    true
}

// ------------------------------------------------------------ diagnostics

/// Assembled output: contiguous runs of bytes at their addresses. Bank 0 is
/// `segments`; cartridge bank `k` (k >= 1) is `extra_banks[k - 1]`.
#[derive(Debug, Default, PartialEq, Eq)]
pub struct Binary {
    pub segments: Vec<(u16, Vec<u8>)>,
    pub extra_banks: Vec<Vec<(u16, Vec<u8>)>>,
}

/// An assembly error at a 1-based source line.
#[derive(Debug, PartialEq, Eq)]
pub struct Error {
    pub line: usize,
    pub msg: String,
}

/// A failure as the spec states it: line and message text.
pub type Fault = (int, Seq<char>);

/// Whether an executable result is the specified one (errors compared by
/// line and message text).
pub open spec fn agrees<T>(r: Result<T, Error>, s: Result<T, Fault>) -> bool {
    match r {
        Ok(v) => s == Ok::<T, Fault>(v),
        Err(e) => s matches Err(f) && e.line == f.0 && e.msg@ == f.1,
    }
}

fn err(line: usize, msg: &str) -> (e: Error)
    ensures
        e.line == line,
        e.msg@ == msg@,
{
    Error { line, msg: msg.to_owned() }
}

// ------------------------------------------------------------ expressions

#[derive(Clone, Copy, PartialEq, Eq, Debug, Structural)]
pub enum BinOp {
    Add,
    Sub,
    Mul,
    Div,
    And,
    Or,
    Xor,
    Shl,
    Shr,
}

/// Expression trees. Names are spans of the source; `Star` is `*`, the
/// current address.
#[derive(Debug)]
pub enum Expr {
    Num(i32),
    Sym(usize, usize),
    Star,
    Neg(Box<Expr>),
    Lo(Box<Expr>),
    Bin(BinOp, Box<Expr>, Box<Expr>),
}

#[derive(Clone, Copy, PartialEq, Eq, Debug, Structural)]
pub enum Tok {
    Num(i32),
    Sym(usize, usize),
    /// `*`: multiply in operator position, current address in primary
    /// position; the parser decides by where it appears.
    Star,
    LParen,
    RParen,
    Plus,
    Minus,
    Slash,
    Amp,
    Pipe,
    Caret,
    Shl,
    Shr,
    Lt,
}

/// True if the expression references a named symbol (not `*`). Decides the
/// zp-vs-absolute rule: symbol-bearing operands always go absolute.
pub open spec fn mentions_symbol(e: Expr) -> bool
    decreases e,
{
    match e {
        Expr::Num(_) => false,
        Expr::Sym(_, _) => true,
        Expr::Star => false,
        Expr::Neg(a) => mentions_symbol(*a),
        Expr::Lo(a) => mentions_symbol(*a),
        Expr::Bin(_, a, b) => mentions_symbol(*a) || mentions_symbol(*b),
    }
}

/// The value a symbol has in the table (names are unique in it).
pub open spec fn lookup(src: Seq<char>, syms: Seq<(usize, usize, i32)>, a: int, b: int, k: int) -> Option<i32>
    decreases syms.len() - k,
{
    if k >= syms.len() || k < 0 {
        None
    } else if same_text(src, syms[k].0 as int, syms[k].1 as int, a, b) {
        Some(syms[k].2)
    } else {
        lookup(src, syms, a, b, k + 1)
    }
}

/// `x` as an `i32` if it fits.
pub open spec fn fit(x: int) -> Option<i32> {
    if i32::MIN <= x <= i32::MAX {
        Some(x as i32)
    } else {
        None
    }
}

/// Division truncating toward zero, as Rust's `/` on integers.
pub open spec fn trunc_div(x: int, y: int) -> int {
    let q = (if x < 0 { -x } else { x }) / (if y < 0 { -y } else { y });
    if (x < 0) != (y < 0) {
        -q
    } else {
        q
    }
}

/// A binary operator on 32-bit values: the checked operations of Rust, with
/// shifts by the magnitude of the count (none when it is 32 or more).
pub open spec fn apply(op: BinOp, x: i32, y: i32) -> Option<i32> {
    let n = if y < 0 { -(y as int) } else { y as int };
    match op {
        BinOp::Add => fit(x + y),
        BinOp::Sub => fit(x - y),
        BinOp::Mul => fit(x * y),
        BinOp::Div => if y == 0 { None } else { fit(trunc_div(x as int, y as int)) },
        BinOp::And => Some(x & y),
        BinOp::Or => Some(x | y),
        BinOp::Xor => Some(x ^ y),
        BinOp::Shl => if n < 32 { Some(x << (n as u32)) } else { None },
        BinOp::Shr => if n < 32 { Some(x >> (n as u32)) } else { None },
    }
}

/// Expression arithmetic on 32-bit values: sums, differences and products
/// are exact or refused when they leave the i32 range; division by a
/// positive divisor of a non-negative value is the floor quotient, with the
/// remainder below the divisor, and division by zero is refused; a left
/// shift by 8 of a value below 2^23 multiplies by 256 and a right shift by 8
/// of a non-negative value divides by 256; shifts by 32 or more are refused.
pub proof fn lemma_expression_arithmetic(x: i32, y: i32)
    ensures
        apply(BinOp::Add, x, y) == (if i32::MIN <= x + y <= i32::MAX { Some((x + y) as i32) } else { None }),
        apply(BinOp::Sub, x, y) == (if i32::MIN <= x - y <= i32::MAX { Some((x - y) as i32) } else { None }),
        apply(BinOp::Mul, x, y) matches Some(r) ==> r == x * y,
        apply(BinOp::Div, x, 0) is None,
        x >= 0 && y > 0 ==> (apply(BinOp::Div, x, y) matches Some(q) && 0 <= x - q * y < y),
        0 <= x < 0x80_0000 ==> apply(BinOp::Shl, x, 8) == Some((x * 256) as i32),
        x >= 0 ==> apply(BinOp::Shr, x, 8) == Some((x / 256) as i32),
        apply(BinOp::Shl, x, 32) is None && apply(BinOp::Shr, x, 32) is None,
{
    if x >= 0 && y > 0 {
        let q = x / y;
        assert(0 <= x - q * y < y) by (nonlinear_arith)
            requires
                x >= 0,
                y > 0,
                q == x / y,
        ;
        assert(0 <= q <= x) by (nonlinear_arith)
            requires
                x >= 0,
                y > 0,
                q == x / y,
        ;
    }
    if 0 <= x < 0x80_0000 {
        assert(x << 8u32 == (x * 256) as i32) by (bit_vector)
            requires
                0 <= x < 0x80_0000,
        ;
    }
    if x >= 0 {
        assert(x >> 8u32 == (x / 256) as i32) by (bit_vector)
            requires
                x >= 0,
        ;
    }
}

/// Evaluate an expression with the symbols known so far, `*` standing for
/// `pc`. `None` means an unknown symbol, a forward reference, an overflow or
/// division by zero. Negation wraps.
pub open spec fn eval(src: Seq<char>, syms: Seq<(usize, usize, i32)>, e: Expr, pc: int) -> Option<i32>
    decreases e,
{
    match e {
        Expr::Num(v) => Some(v),
        Expr::Sym(a, b) => lookup(src, syms, a as int, b as int, 0),
        Expr::Star => Some(pc as i32),
        Expr::Neg(x) => match eval(src, syms, *x, pc) {
            Some(v) => Some(if v == i32::MIN { v } else { -v as i32 }),
            None => None,
        },
        Expr::Lo(x) => match eval(src, syms, *x, pc) {
            Some(v) => Some((v as int % 256) as i32),
            None => None,
        },
        Expr::Bin(op, x, y) => match (eval(src, syms, *x, pc), eval(src, syms, *y, pc)) {
            (Some(u), Some(v)) => apply(op, u, v),
            _ => None,
        },
    }
}

fn has_sym(e: &Expr) -> (r: bool)
    ensures
        r == mentions_symbol(*e),
    decreases e,
{
    match e {
        Expr::Num(_) => false,
        Expr::Sym(_, _) => true,
        Expr::Star => false,
        Expr::Neg(a) => has_sym(a),
        Expr::Lo(a) => has_sym(a),
        Expr::Bin(_, a, b) => has_sym(a) || has_sym(b),
    }
}

/// Every symbol table entry names a span of the source.
pub open spec fn syms_ok(src: Seq<char>, syms: Seq<(usize, usize, i32)>) -> bool {
    forall|k: int| 0 <= k < syms.len() ==> #[trigger] syms[k].0 <= syms[k].1 <= src.len()
}

fn lookup_sym(src: &Vec<char>, syms: &Vec<(usize, usize, i32)>, a: usize, b: usize) -> (r: Option<i32>)
    requires
        a <= b <= src@.len(),
        syms_ok(src@, syms@),
    ensures
        r == lookup(src@, syms@, a as int, b as int, 0),
{
    let mut k: usize = 0;
    while k < syms.len()
        invariant
            k <= syms@.len(),
            a <= b <= src@.len(),
            forall|j: int| 0 <= j < syms@.len() ==> #[trigger] syms@[j].0 <= syms@[j].1 <= src@.len(),
            lookup(src@, syms@, a as int, b as int, k as int) == lookup(src@, syms@, a as int, b as int, 0),
        decreases syms.len() - k,
    {
        let (sa, sb, v) = syms[k];
        if same_text_at(src, sa, sb, a, b) {
            return Some(v);
        }
        k = k + 1;
    }
    None
}

fn apply_op(op: BinOp, x: i32, y: i32) -> (r: Option<i32>)
    ensures
        r == apply(op, x, y),
{
    let n: u32 = if y < 0 {
        (-(y as i64)) as u32
    } else {
        y as u32
    };
    match op {
        BinOp::Add => {
            let s = x as i64 + y as i64;
            if i32::MIN as i64 <= s && s <= i32::MAX as i64 { Some(s as i32) } else { None }
        },
        BinOp::Sub => {
            let s = x as i64 - y as i64;
            if i32::MIN as i64 <= s && s <= i32::MAX as i64 { Some(s as i32) } else { None }
        },
        BinOp::Mul => {
            assert(-0x4000_0000_0000_0000 <= x as i64 * y as i64 <= 0x4000_0000_0000_0000) by (nonlinear_arith)
                requires
                    i32::MIN <= x <= i32::MAX,
                    i32::MIN <= y <= i32::MAX,
            ;
            let s = x as i64 * y as i64;
            if i32::MIN as i64 <= s && s <= i32::MAX as i64 { Some(s as i32) } else { None }
        },
        BinOp::Div => {
            if y == 0 {
                None
            } else {
                let ax: i64 = if x < 0 { -(x as i64) } else { x as i64 };
                let ay: i64 = if y < 0 { -(y as i64) } else { y as i64 };
                let q = ax / ay;
                let s = if (x < 0) != (y < 0) { -q } else { q };
                if i32::MIN as i64 <= s && s <= i32::MAX as i64 { Some(s as i32) } else { None }
            }
        },
        BinOp::And => Some(x & y),
        BinOp::Or => Some(x | y),
        BinOp::Xor => Some(x ^ y),
        BinOp::Shl => if n < 32 { Some(x << n) } else { None },
        BinOp::Shr => if n < 32 { Some(x >> n) } else { None },
    }
}

/// Evaluate the expression tree with the symbols known so far. Pure AST
/// walk; `None` means an unknown symbol, a forward reference, an overflow
/// or division by zero.
fn resolve(src: &Vec<char>, syms: &Vec<(usize, usize, i32)>, e: &Expr, pc: u32) -> (r: Option<i32>)
    requires
        pc <= 0x1_0000,
        expr_in(*e, src@.len() as int),
        syms_ok(src@, syms@),
    ensures
        r == eval(src@, syms@, *e, pc as int),
    decreases e,
{
    match e {
        Expr::Num(v) => Some(*v),
        Expr::Sym(a, b) => lookup_sym(src, syms, *a, *b),
        Expr::Star => Some(pc as i32),
        Expr::Neg(a) => {
            let v = resolve(src, syms, a, pc)?;
            Some(if v == i32::MIN { v } else { -v })
        },
        Expr::Lo(a) => {
            let v = resolve(src, syms, a, pc)?;
            if v >= 0 {
                Some(v % 256)
            } else {
                let m = 255 - (-(v as i64 + 1)) % 256;
                assert(m == v as int % 256) by (nonlinear_arith)
                    requires v < 0, m == 255 - (-(v + 1)) % 256;
                Some(m as i32)
            }
        },
        Expr::Bin(op, a, b) => {
            let x = resolve(src, syms, a, pc)?;
            let y = resolve(src, syms, b, pc)?;
            apply_op(*op, x, y)
        },
    }
}

/// Every span an expression names lies within `[0, n)`.
pub open spec fn expr_in(e: Expr, n: int) -> bool
    decreases e,
{
    match e {
        Expr::Sym(a, b) => a <= b <= n,
        Expr::Neg(x) => expr_in(*x, n),
        Expr::Lo(x) => expr_in(*x, n),
        Expr::Bin(_, x, y) => expr_in(*x, n) && expr_in(*y, n),
        _ => true,
    }
}

// ---------------------------------------------------------------- lexing

/// The first position in `[i, end)` not holding a digit of `radix`, or `end`.
pub open spec fn digits_end(src: Seq<char>, i: int, end: int, radix: int) -> int
    decreases end - i,
{
    if i >= end {
        end
    } else if digit_of(src[i], radix) < radix {
        digits_end(src, i + 1, end, radix)
    } else {
        i
    }
}

/// The value of the digits in `[a, j)` in `radix`.
pub open spec fn digits_val(src: Seq<char>, a: int, j: int, radix: int) -> int
    decreases j - a,
{
    if j <= a {
        0
    } else {
        digits_val(src, a, j - 1, radix) * radix + digit_of(src[j - 1], radix)
    }
}

/// A token in front of the rest of a token list (errors pass through).
pub open spec fn cons(t: Tok, r: Result<Seq<Tok>, Fault>) -> Result<Seq<Tok>, Fault> {
    match r {
        Ok(ts) => Ok(seq![t] + ts),
        Err(f) => Err(f),
    }
}

pub proof fn lemma_word_end_bounds(src: Seq<char>, i: int, end: int)
    requires
        i <= end,
    ensures
        i <= word_end(src, i, end) <= end,
    decreases end - i,
{
    if i < end && is_word(src[i]) {
        lemma_word_end_bounds(src, i + 1, end);
    }
}

pub proof fn lemma_digits_end_bounds(src: Seq<char>, i: int, end: int, radix: int)
    requires
        i <= end,
    ensures
        i <= digits_end(src, i, end, radix) <= end,
    decreases end - i,
{
    if i < end && digit_of(src[i], radix) < radix {
        lemma_digits_end_bounds(src, i + 1, end, radix);
    }
}

/// The tokens of `[i, end)`, or the first lexical error (reported at `line`).
pub open spec fn lex(src: Seq<char>, i: int, end: int, line: int) -> Result<Seq<Tok>, Fault>
    decreases end - i,
{
    if i >= end {
        Ok(seq![])
    } else {
        let c = src[i];
        if is_ws(c) {
            lex(src, i + 1, end, line)
        } else if c == '$' || c == '%' || is_dec(c) {
            let radix: int = if c == '$' {
                16
            } else if c == '%' {
                2
            } else {
                10
            };
            let start = if c == '$' || c == '%' {
                i + 1
            } else {
                i
            };
            let j = digits_end(src, start, end, radix);
            proof {
                lemma_digits_end_bounds(src, start, end, radix);
            }
            if j == start {
                Err((line, "empty numeric literal"@))
            } else if digits_val(src, start, j, radix) > i32::MAX {
                Err((line, "bad number"@))
            } else {
                cons(Tok::Num(digits_val(src, start, j, radix) as i32), lex(src, j, end, line))
            }
        } else if c == '\'' {
            if i + 2 >= end || src[i + 2] != '\'' || src[i + 1] == '\'' {
                Err((line, "bad character literal"@))
            } else {
                cons(Tok::Num(src[i + 1] as i32), lex(src, i + 3, end, line))
            }
        } else if is_alpha(c) || c == '_' {
            let j = word_end(src, i + 1, end);
            proof {
                lemma_word_end_bounds(src, i + 1, end);
            }
            cons(Tok::Sym(i as usize, j as usize), lex(src, j, end, line))
        } else if c == '*' {
            cons(Tok::Star, lex(src, i + 1, end, line))
        } else if c == '(' {
            cons(Tok::LParen, lex(src, i + 1, end, line))
        } else if c == ')' {
            cons(Tok::RParen, lex(src, i + 1, end, line))
        } else if c == '+' {
            cons(Tok::Plus, lex(src, i + 1, end, line))
        } else if c == '-' {
            cons(Tok::Minus, lex(src, i + 1, end, line))
        } else if c == '/' {
            cons(Tok::Slash, lex(src, i + 1, end, line))
        } else if c == '&' {
            cons(Tok::Amp, lex(src, i + 1, end, line))
        } else if c == '|' {
            cons(Tok::Pipe, lex(src, i + 1, end, line))
        } else if c == '^' {
            cons(Tok::Caret, lex(src, i + 1, end, line))
        } else if c == '<' {
            if i + 1 < end && src[i + 1] == '<' {
                cons(Tok::Shl, lex(src, i + 2, end, line))
            } else {
                cons(Tok::Lt, lex(src, i + 1, end, line))
            }
        } else if c == '>' && i + 1 < end && src[i + 1] == '>' {
            cons(Tok::Shr, lex(src, i + 2, end, line))
        } else {
            Err((line, "unexpected character '"@ + seq![c] + "'"@))
        }
    }
}

/// Every name token of a list lies within `[0, n)`.
pub open spec fn toks_in(ts: Seq<Tok>, n: int) -> bool {
    forall|k: int| 0 <= k < ts.len() ==> (#[trigger] ts[k] matches Tok::Sym(a, b) ==> a <= b <= n)
}

fn tokenize(src: &Vec<char>, a: usize, b: usize, line: usize) -> (r: Result<Vec<Tok>, Error>)
    requires
        a <= b <= src@.len(),
    ensures
        match r {
            Ok(v) => lex(src@, a as int, b as int, line as int) == Ok::<Seq<Tok>, Fault>(v@),
            Err(e) => lex(src@, a as int, b as int, line as int) matches Err(f) && e.line == f.0
                && e.msg@ == f.1,
        },
        r matches Ok(v) ==> toks_in(v@, src@.len() as int),
{
    let mut toks: Vec<Tok> = Vec::new();
    let mut i = a;
    while i < b
        invariant
            a <= i <= b <= src@.len(),
            toks_in(toks@, src@.len() as int),
            lex(src@, a as int, b as int, line as int) == append_toks(
                toks@,
                lex(src@, i as int, b as int, line as int),
            ),
        decreases b - i,
    {
        let c = src[i];
        let ghost old_toks = toks@;
        let ghost old_i = i as int;
        if is_ws_char(c) {
            i = i + 1;
        } else if c == '$' || c == '%' || ('0' <= c && c <= '9') {
            let radix: u32 = if c == '$' {
                16
            } else if c == '%' {
                2
            } else {
                10
            };
            let start = if c == '$' || c == '%' {
                i + 1
            } else {
                i
            };
            let mut j = start;
            while j < b && digit_value(src[j], radix) < radix
                invariant
                    start <= j <= b <= src@.len(),
                    2 <= radix <= 16,
                    digits_end(src@, j as int, b as int, radix as int) == digits_end(
                        src@,
                        start as int,
                        b as int,
                        radix as int,
                    ),
                decreases b - j,
            {
                j = j + 1;
            }
            if j == start {
                return Err(err(line, "empty numeric literal"));
            }
            let mut v: u64 = 0;
            let mut over = false;
            let mut k = start;
            while k < j
                invariant
                    start <= k <= j <= b <= src@.len(),
                    2 <= radix <= 16,
                    !over ==> v == digits_val(src@, start as int, k as int, radix as int) && v
                        <= i32::MAX,
                    over ==> digits_val(src@, start as int, k as int, radix as int) > i32::MAX,
                decreases j - k,
            {
                let d = digit_value(src[k], radix);
                let ghost prev = digits_val(src@, start as int, k as int, radix as int);
                assert(prev * radix + d >= prev) by (nonlinear_arith)
                    requires prev >= 0, radix >= 2, d >= 0;
                if !over {
                    assert(v * radix <= 0x7FFF_FFFFu64 * 16) by (nonlinear_arith)
                        requires v <= 0x7FFF_FFFFu64, radix <= 16;
                    let nv = v * radix as u64 + d as u64;
                    if nv > i32::MAX as u64 {
                        over = true;
                    } else {
                        v = nv;
                    }
                }
                proof {
                    lemma_digits_val_nonneg(src@, start as int, k as int, radix as int);
                }
                k = k + 1;
            }
            if over {
                return Err(err(line, "bad number"));
            }
            toks.push(Tok::Num(v as i32));
            i = j;
        } else if c == '\'' {
            if b - i <= 2 || src[i + 2] != '\'' || src[i + 1] == '\'' {
                return Err(err(line, "bad character literal"));
            }
            toks.push(Tok::Num(src[i + 1] as i32));
            i = i + 3;
        } else if is_alpha_char(c) || c == '_' {
            let j = word_end_at(src, i + 1, b);
            toks.push(Tok::Sym(i, j));
            i = j;
        } else if c == '*' {
            toks.push(Tok::Star);
            i = i + 1;
        } else if c == '(' {
            toks.push(Tok::LParen);
            i = i + 1;
        } else if c == ')' {
            toks.push(Tok::RParen);
            i = i + 1;
        } else if c == '+' {
            toks.push(Tok::Plus);
            i = i + 1;
        } else if c == '-' {
            toks.push(Tok::Minus);
            i = i + 1;
        } else if c == '/' {
            toks.push(Tok::Slash);
            i = i + 1;
        } else if c == '&' {
            toks.push(Tok::Amp);
            i = i + 1;
        } else if c == '|' {
            toks.push(Tok::Pipe);
            i = i + 1;
        } else if c == '^' {
            toks.push(Tok::Caret);
            i = i + 1;
        } else if c == '<' {
            if i + 1 < b && src[i + 1] == '<' {
                toks.push(Tok::Shl);
                i = i + 2;
            } else {
                toks.push(Tok::Lt);
                i = i + 1;
            }
        } else if c == '>' && i + 1 < b && src[i + 1] == '>' {
            toks.push(Tok::Shr);
            i = i + 2;
        } else {
            let mut m = "unexpected character '".to_owned();
            push_char(&mut m, c);
            m.append("'");
            return Err(Error { line, msg: m });
        }
        proof {
            if toks@.len() > old_toks.len() {
                assert(toks@ =~= old_toks.push(toks@.last()));
                assert(lex(src@, old_i, b as int, line as int) == cons(toks@.last(), lex(src@, i as int, b as int, line as int)));
                lemma_append_cons(old_toks, toks@.last(), lex(src@, i as int, b as int, line as int));
            }
        }
    }
    assert(toks@ + seq![] =~= toks@);
    Ok(toks)
}

/// A token list in front of a lexing result (errors pass through).
pub open spec fn append_toks(p: Seq<Tok>, r: Result<Seq<Tok>, Fault>) -> Result<Seq<Tok>, Fault> {
    match r {
        Ok(ts) => Ok(p + ts),
        Err(f) => Err(f),
    }
}

proof fn lemma_append_cons(p: Seq<Tok>, t: Tok, r: Result<Seq<Tok>, Fault>)
    ensures
        append_toks(p, cons(t, r)) == append_toks(p.push(t), r),
{
    if let Ok(s) = r {
        assert(p + (seq![t] + s) =~= p.push(t) + s);
    }
}

pub(crate) proof fn lemma_digits_val_nonneg(src: Seq<char>, a: int, j: int, radix: int)
    requires
        radix >= 2,
    ensures
        digits_val(src, a, j, radix) >= 0,
    decreases j - a,
{
    if j > a {
        lemma_digits_val_nonneg(src, a, j - 1, radix);
        let p = digits_val(src, a, j - 1, radix);
        let d = digit_of(src[j - 1], radix);
        assert(p * radix + d >= 0) by (nonlinear_arith)
            requires p >= 0, radix >= 2, d >= 0;
    }
}

// ---------------------------------------------------------------- parsing

/// The binary operator token `t` denotes at precedence `level` (0 binds
/// loosest): `|`, `^`, `&`, `<< >>`, `+ -`, `* /`.
pub open spec fn binop_of(level: int, t: Tok) -> Option<BinOp> {
    match t {
        Tok::Pipe => if level == 0 { Some(BinOp::Or) } else { None },
        Tok::Caret => if level == 1 { Some(BinOp::Xor) } else { None },
        Tok::Amp => if level == 2 { Some(BinOp::And) } else { None },
        Tok::Shl => if level == 3 { Some(BinOp::Shl) } else { None },
        Tok::Shr => if level == 3 { Some(BinOp::Shr) } else { None },
        Tok::Plus => if level == 4 { Some(BinOp::Add) } else { None },
        Tok::Minus => if level == 4 { Some(BinOp::Sub) } else { None },
        Tok::Star => if level == 5 { Some(BinOp::Mul) } else { None },
        Tok::Slash => if level == 5 { Some(BinOp::Div) } else { None },
        _ => None,
    }
}

/// Recursive descent, loosest level first: a left-associative chain of
/// operators of `level` over operands of `level + 1`; level 6 is unary.
/// Returns the tree and the position after it.
pub open spec fn p_bin(t: Seq<Tok>, pos: int, level: int) -> Option<(Expr, int)>
    decreases t.len() - pos, 10 - level,
{
    if pos < 0 || pos > t.len() || level < 0 || level > 6 {
        None
    } else if level == 6 {
        p_unary(t, pos)
    } else {
        match p_bin(t, pos, level + 1) {
            None => None,
            Some((lhs, p)) => if p <= pos || p > t.len() {
                None
            } else {
                p_loop(t, lhs, p, level)
            },
        }
    }
}

/// The rest of an operator chain at `level` after the operand `lhs`.
pub open spec fn p_loop(t: Seq<Tok>, lhs: Expr, pos: int, level: int) -> Option<(Expr, int)>
    decreases t.len() - pos, 10 - level,
{
    if pos < 0 || pos > t.len() || level < 0 || level > 5 {
        None
    } else if pos < t.len() && binop_of(level, t[pos]) is Some {
        match p_bin(t, pos + 1, level + 1) {
            None => None,
            Some((rhs, p)) => if p <= pos || p > t.len() {
                None
            } else {
                p_loop(
                    t,
                    Expr::Bin(binop_of(level, t[pos])->0, Box::new(lhs), Box::new(rhs)),
                    p,
                    level,
                )
            },
        }
    } else {
        Some((lhs, pos))
    }
}

/// Unary `-` and `<` (low byte), then a primary.
pub open spec fn p_unary(t: Seq<Tok>, pos: int) -> Option<(Expr, int)>
    decreases t.len() - pos, 3int,
{
    if pos < 0 || pos > t.len() {
        None
    } else if pos < t.len() && t[pos] == Tok::Minus {
        match p_unary(t, pos + 1) {
            Some((e, p)) => Some((Expr::Neg(Box::new(e)), p)),
            None => None,
        }
    } else if pos < t.len() && t[pos] == Tok::Lt {
        match p_unary(t, pos + 1) {
            Some((e, p)) => Some((Expr::Lo(Box::new(e)), p)),
            None => None,
        }
    } else {
        p_primary(t, pos)
    }
}

/// A number, a name, `*`, or a parenthesized expression.
pub open spec fn p_primary(t: Seq<Tok>, pos: int) -> Option<(Expr, int)>
    decreases t.len() - pos, 2int,
{
    if pos < 0 || pos >= t.len() {
        None
    } else {
        match t[pos] {
            Tok::Num(v) => Some((Expr::Num(v), pos + 1)),
            Tok::Sym(a, b) => Some((Expr::Sym(a, b), pos + 1)),
            Tok::Star => Some((Expr::Star, pos + 1)),
            Tok::LParen => match p_bin(t, pos + 1, 0) {
                Some((e, p)) => if 0 <= p < t.len() && t[p] == Tok::RParen {
                    Some((e, p + 1))
                } else {
                    None
                },
                None => None,
            },
            _ => None,
        }
    }
}

/// The expression written in `[a, b)`: tokens, then the grammar over all of
/// them.
pub open spec fn parse_expr_spec(src: Seq<char>, a: int, b: int, line: int) -> Result<Expr, Fault> {
    match lex(src, a, b, line) {
        Err(f) => Err(f),
        Ok(t) => match p_bin(t, 0, 0) {
            None => Err((line, "syntax error in expression"@)),
            Some((e, p)) => if p != t.len() {
                Err((line, "trailing tokens in expression"@))
            } else {
                Ok(e)
            },
        },
    }
}

fn binop_at(level: u8, t: Tok) -> (r: Option<BinOp>)
    ensures
        r == binop_of(level as int, t),
{
    match t {
        Tok::Pipe => if level == 0 { Some(BinOp::Or) } else { None },
        Tok::Caret => if level == 1 { Some(BinOp::Xor) } else { None },
        Tok::Amp => if level == 2 { Some(BinOp::And) } else { None },
        Tok::Shl => if level == 3 { Some(BinOp::Shl) } else { None },
        Tok::Shr => if level == 3 { Some(BinOp::Shr) } else { None },
        Tok::Plus => if level == 4 { Some(BinOp::Add) } else { None },
        Tok::Minus => if level == 4 { Some(BinOp::Sub) } else { None },
        Tok::Star => if level == 5 { Some(BinOp::Mul) } else { None },
        Tok::Slash => if level == 5 { Some(BinOp::Div) } else { None },
        _ => None,
    }
}

struct Parser {
    toks: Vec<Tok>,
    pos: usize,
}

impl Parser {
    fn bin(&mut self, level: u8, Ghost(n): Ghost<int>) -> (r: Option<Expr>)
        requires
            old(self).pos <= old(self).toks@.len(),
            level <= 6,
            toks_in(old(self).toks@, n),
        ensures
            final(self).toks@ == old(self).toks@,
            match r {
                Some(e) => p_bin(old(self).toks@, old(self).pos as int, level as int) == Some((e, final(self).pos as int))
                    && old(self).pos < final(self).pos <= old(self).toks@.len() && expr_in(e, n),
                None => p_bin(old(self).toks@, old(self).pos as int, level as int) is None,
            },
        decreases old(self).toks@.len() - old(self).pos, 10 - level,
    {
        if level == 6 {
            return self.unary(Ghost(n));
        }
        let p0 = self.pos;
        let mut lhs = self.bin(level + 1, Ghost(n))?;
        let ghost t = self.toks@;
        let ghost target = p_loop(t, lhs, self.pos as int, level as int);
        assert(p_bin(t, p0 as int, level as int) == target);
        loop
            invariant
                self.toks@ == t,
                t == old(self).toks@,
                p0 == old(self).pos,
                p_bin(t, p0 as int, level as int) == target,
                p0 < self.pos <= t.len(),
                level < 6,
                toks_in(t, n),
                expr_in(lhs, n),
                p_loop(t, lhs, self.pos as int, level as int) == target,
            ensures
                p0 < self.pos <= t.len(),
                self.toks@ == t,
                expr_in(lhs, n),
                target == Some((lhs, self.pos as int)),
            decreases t.len() - self.pos,
        {
            if self.pos >= self.toks.len() {
                assert(p_loop(t, lhs, self.pos as int, level as int) == Some((lhs, self.pos as int)));
                break;
            }
            let op = match binop_at(level, self.toks[self.pos]) {
                Some(op) => op,
                None => {
                    assert(p_loop(t, lhs, self.pos as int, level as int) == Some((lhs, self.pos as int)));
                    break;
                },
            };
            let at = self.pos;
            self.pos = self.pos + 1;
            let rhs = self.bin(level + 1, Ghost(n))?;
            lhs = Expr::Bin(op, Box::new(lhs), Box::new(rhs));
            assert(self.pos > at);
        }
        Some(lhs)
    }

    fn unary(&mut self, Ghost(n): Ghost<int>) -> (r: Option<Expr>)
        requires
            old(self).pos <= old(self).toks@.len(),
            toks_in(old(self).toks@, n),
        ensures
            final(self).toks@ == old(self).toks@,
            match r {
                Some(e) => p_unary(old(self).toks@, old(self).pos as int) == Some((e, final(self).pos as int))
                    && old(self).pos < final(self).pos <= old(self).toks@.len() && expr_in(e, n),
                None => p_unary(old(self).toks@, old(self).pos as int) is None,
            },
        decreases old(self).toks@.len() - old(self).pos, 3int,
    {
        if self.pos < self.toks.len() {
            match self.toks[self.pos] {
                Tok::Minus => {
                    self.pos = self.pos + 1;
                    let e = self.unary(Ghost(n))?;
                    return Some(Expr::Neg(Box::new(e)));
                },
                Tok::Lt => {
                    self.pos = self.pos + 1;
                    let e = self.unary(Ghost(n))?;
                    return Some(Expr::Lo(Box::new(e)));
                },
                _ => {},
            }
        }
        self.primary(Ghost(n))
    }

    fn primary(&mut self, Ghost(n): Ghost<int>) -> (r: Option<Expr>)
        requires
            old(self).pos <= old(self).toks@.len(),
            toks_in(old(self).toks@, n),
        ensures
            final(self).toks@ == old(self).toks@,
            match r {
                Some(e) => p_primary(old(self).toks@, old(self).pos as int) == Some((e, final(self).pos as int))
                    && old(self).pos < final(self).pos <= old(self).toks@.len() && expr_in(e, n),
                None => p_primary(old(self).toks@, old(self).pos as int) is None,
            },
        decreases old(self).toks@.len() - old(self).pos, 2int,
    {
        if self.pos >= self.toks.len() {
            return None;
        }
        let t = self.toks[self.pos];
        let at = self.pos;
        self.pos = self.pos + 1;
        match t {
            Tok::Num(v) => Some(Expr::Num(v)),
            Tok::Sym(a, b) => Some(Expr::Sym(a, b)),
            Tok::Star => Some(Expr::Star),
            Tok::LParen => {
                let e = self.bin(0, Ghost(n))?;
                if self.pos >= self.toks.len() {
                    return None;
                }
                match self.toks[self.pos] {
                    Tok::RParen => {},
                    _ => return None,
                }
                self.pos = self.pos + 1;
                Some(e)
            },
            _ => None,
        }
    }
}

/// Recursive descent over the token list, loosest level first:
/// `| ^ & << >> + - * /`, with unary `-` and `<`.
fn parse_expr(src: &Vec<char>, a: usize, b: usize, line: usize) -> (r: Result<Expr, Error>)
    requires
        a <= b <= src@.len(),
    ensures
        agrees(r, parse_expr_spec(src@, a as int, b as int, line as int)),
        r matches Ok(e) ==> expr_in(e, src@.len() as int),
{
    let toks = tokenize(src, a, b, line)?;
    let mut p = Parser { toks, pos: 0 };
    let e = match p.bin(0, Ghost(src@.len() as int)) {
        Some(e) => e,
        None => return Err(err(line, "syntax error in expression")),
    };
    if p.pos != p.toks.len() {
        return Err(err(line, "trailing tokens in expression"));
    }
    Ok(e)
}

// ------------------------------------------------------------ statements

#[derive(Clone, Copy, PartialEq, Eq, Debug, Structural)]
pub enum Index {
    Plain,
    X,
    Y,
}

#[derive(Debug)]
pub enum Operand {
    Absent,
    Imm(Expr),
    Abs(Expr, Index),
    Izx(Expr),
    Izy(Expr),
    Ind(Expr),
    A,
}

/// A parsed source line. `.byte`/`.word` keep the span of their item list
/// (already checked to parse), `.text` the span of the string's characters,
/// an equate the span of its name.
#[derive(Debug)]
pub enum Stmt {
    Empty,
    Org(Expr),
    Byte(usize, usize),
    Word(usize, usize),
    Text(usize, usize),
    Res(Expr),
    Align(Expr),
    Bank(Expr),
    Equate(usize, usize, Expr),
    Instr(Op, Operand),
}

/// The characters of `[a, b)` in ASCII lower case.
pub open spec fn lowered(src: Seq<char>, a: int, b: int) -> Seq<char> {
    Seq::new((b - a) as nat, |k: int| lower(src[a + k]))
}

/// The end of the statement name at `i` in `[i, end)` (name characters and `.`).
pub open spec fn name_end(src: Seq<char>, i: int, end: int) -> int
    decreases end - i,
{
    if i >= end {
        end
    } else if is_word(src[i]) || src[i] == '.' {
        name_end(src, i + 1, end)
    } else {
        i
    }
}

/// The position of the first `,` in `[i, end)`, or `end`.
pub open spec fn next_comma(src: Seq<char>, i: int, end: int) -> int
    decreases end - i,
{
    if i >= end {
        end
    } else if src[i] == ',' {
        i
    } else {
        next_comma(src, i + 1, end)
    }
}

/// The position of the last `)` in `[a, e)`, or `a - 1` when there is none.
pub open spec fn last_close(src: Seq<char>, a: int, e: int) -> int
    decreases e - a,
{
    if e <= a {
        a - 1
    } else if src[e - 1] == ')' {
        e - 1
    } else {
        last_close(src, a, e - 1)
    }
}

/// The operation a mnemonic names (case-insensitively), if any.
pub open spec fn mnemonic_of(src: Seq<char>, a: int, b: int) -> Option<Op> {
    if is_text_ci(src, a, b, "lda"@) {
        Some(Op::Lda)
    } else if is_text_ci(src, a, b, "ldx"@) {
        Some(Op::Ldx)
    } else if is_text_ci(src, a, b, "ldy"@) {
        Some(Op::Ldy)
    } else if is_text_ci(src, a, b, "sta"@) {
        Some(Op::Sta)
    } else if is_text_ci(src, a, b, "stx"@) {
        Some(Op::Stx)
    } else if is_text_ci(src, a, b, "sty"@) {
        Some(Op::Sty)
    } else if is_text_ci(src, a, b, "adc"@) {
        Some(Op::Adc)
    } else if is_text_ci(src, a, b, "sbc"@) {
        Some(Op::Sbc)
    } else if is_text_ci(src, a, b, "and"@) {
        Some(Op::And)
    } else if is_text_ci(src, a, b, "ora"@) {
        Some(Op::Ora)
    } else if is_text_ci(src, a, b, "eor"@) {
        Some(Op::Eor)
    } else if is_text_ci(src, a, b, "cmp"@) {
        Some(Op::Cmp)
    } else if is_text_ci(src, a, b, "cpx"@) {
        Some(Op::Cpx)
    } else if is_text_ci(src, a, b, "cpy"@) {
        Some(Op::Cpy)
    } else if is_text_ci(src, a, b, "inc"@) {
        Some(Op::Inc)
    } else if is_text_ci(src, a, b, "dec"@) {
        Some(Op::Dec)
    } else if is_text_ci(src, a, b, "asl"@) {
        Some(Op::Asl)
    } else if is_text_ci(src, a, b, "lsr"@) {
        Some(Op::Lsr)
    } else if is_text_ci(src, a, b, "rol"@) {
        Some(Op::Rol)
    } else if is_text_ci(src, a, b, "ror"@) {
        Some(Op::Ror)
    } else if is_text_ci(src, a, b, "bit"@) {
        Some(Op::Bit)
    } else if is_text_ci(src, a, b, "jmp"@) {
        Some(Op::Jmp)
    } else if is_text_ci(src, a, b, "jsr"@) {
        Some(Op::Jsr)
    } else if is_text_ci(src, a, b, "rts"@) {
        Some(Op::Rts)
    } else if is_text_ci(src, a, b, "rti"@) {
        Some(Op::Rti)
    } else if is_text_ci(src, a, b, "bpl"@) {
        Some(Op::BrPl)
    } else if is_text_ci(src, a, b, "bmi"@) {
        Some(Op::BrMi)
    } else if is_text_ci(src, a, b, "bvc"@) {
        Some(Op::BrVc)
    } else if is_text_ci(src, a, b, "bvs"@) {
        Some(Op::BrVs)
    } else if is_text_ci(src, a, b, "bcc"@) {
        Some(Op::BrCc)
    } else if is_text_ci(src, a, b, "bcs"@) {
        Some(Op::BrCs)
    } else if is_text_ci(src, a, b, "bne"@) {
        Some(Op::BrNe)
    } else if is_text_ci(src, a, b, "beq"@) {
        Some(Op::BrEq)
    } else if is_text_ci(src, a, b, "inx"@) {
        Some(Op::Inx)
    } else if is_text_ci(src, a, b, "iny"@) {
        Some(Op::Iny)
    } else if is_text_ci(src, a, b, "dex"@) {
        Some(Op::Dex)
    } else if is_text_ci(src, a, b, "dey"@) {
        Some(Op::Dey)
    } else if is_text_ci(src, a, b, "tax"@) {
        Some(Op::Tax)
    } else if is_text_ci(src, a, b, "tay"@) {
        Some(Op::Tay)
    } else if is_text_ci(src, a, b, "txa"@) {
        Some(Op::Txa)
    } else if is_text_ci(src, a, b, "tya"@) {
        Some(Op::Tya)
    } else if is_text_ci(src, a, b, "tsx"@) {
        Some(Op::Tsx)
    } else if is_text_ci(src, a, b, "txs"@) {
        Some(Op::Txs)
    } else if is_text_ci(src, a, b, "pha"@) {
        Some(Op::Pha)
    } else if is_text_ci(src, a, b, "php"@) {
        Some(Op::Php)
    } else if is_text_ci(src, a, b, "pla"@) {
        Some(Op::Pla)
    } else if is_text_ci(src, a, b, "plp"@) {
        Some(Op::Plp)
    } else if is_text_ci(src, a, b, "clc"@) {
        Some(Op::Clc)
    } else if is_text_ci(src, a, b, "sec"@) {
        Some(Op::Sec)
    } else if is_text_ci(src, a, b, "cli"@) {
        Some(Op::Cli)
    } else if is_text_ci(src, a, b, "sei"@) {
        Some(Op::Sei)
    } else if is_text_ci(src, a, b, "cld"@) {
        Some(Op::Cld)
    } else if is_text_ci(src, a, b, "sed"@) {
        Some(Op::Sed)
    } else if is_text_ci(src, a, b, "clv"@) {
        Some(Op::Clv)
    } else if is_text_ci(src, a, b, "brk"@) {
        Some(Op::Brk)
    } else if is_text_ci(src, a, b, "nop"@) {
        Some(Op::Nop)
    } else {
        None
    }
}

pub proof fn lemma_next_comma_bounds(src: Seq<char>, i: int, end: int)
    requires
        i <= end,
    ensures
        i <= next_comma(src, i, end) <= end,
    decreases end - i,
{
    if i < end && src[i] != ',' {
        lemma_next_comma_bounds(src, i + 1, end);
    }
}

/// The comma-separated expressions of `[i, end)`.
pub open spec fn items_from(src: Seq<char>, i: int, end: int, line: int) -> Result<Seq<Expr>, Fault>
    decreases end - i,
{
    if i > end {
        Ok(seq![])
    } else {
        let j = next_comma(src, i, end);
        proof {
            lemma_next_comma_bounds(src, i, end);
        }
        match parse_expr_spec(src, i, j, line) {
            Err(f) => Err(f),
            Ok(e) => if j >= end {
                Ok(seq![e])
            } else {
                match items_from(src, j + 1, end, line) {
                    Ok(es) => Ok(seq![e] + es),
                    Err(f) => Err(f),
                }
            },
        }
    }
}

/// The items of a `.byte`/`.word` operand `[a, b)` (already trimmed).
pub open spec fn items_spec(src: Seq<char>, a: int, b: int, line: int) -> Result<Seq<Expr>, Fault> {
    if a >= b {
        Err((line, "directive needs at least one item"@))
    } else {
        items_from(src, a, b, line)
    }
}

/// `Some((end of head, index))` when `[a, b)` ends (trailing space aside)
/// in `,x` or `,y`, either case.
pub open spec fn index_suffix(src: Seq<char>, a: int, b: int) -> Option<(int, Index)> {
    let te = trim_back(src, a, b);
    if te - a >= 2 && src[te - 2] == ',' && lower(src[te - 1]) == 'x' {
        Some((te - 2, Index::X))
    } else if te - a >= 2 && src[te - 2] == ',' && lower(src[te - 1]) == 'y' {
        Some((te - 2, Index::Y))
    } else {
        None
    }
}

/// Wrap a parsed expression into an operand (errors pass through).
pub open spec fn with_expr<T>(r: Result<Expr, Fault>, f: spec_fn(Expr) -> T) -> Result<T, Fault> {
    match r {
        Ok(e) => Ok(f(e)),
        Err(x) => Err(x),
    }
}

/// The operand written in `[a, b)`, its addressing shape chosen by syntax.
pub open spec fn operand_spec(src: Seq<char>, a: int, b: int, line: int) -> Result<Operand, Fault> {
    let a1 = skip_ws(src, a, b);
    let b1 = trim_back(src, a1, b);
    if a1 >= b1 {
        Ok(Operand::Absent)
    } else if b1 - a1 == 1 && lower(src[a1]) == 'a' {
        Ok(Operand::A)
    } else if src[a1] == '#' {
        with_expr(parse_expr_spec(src, a1 + 1, b1, line), |e: Expr| Operand::Imm(e))
    } else if src[a1] == '(' {
        let close = last_close(src, a1, b1);
        if close < a1 {
            Err((line, "unbalanced parentheses"@))
        } else {
            let sa = skip_ws(src, close + 1, b1);
            let ia = skip_ws(src, a1 + 1, close);
            let ib = trim_back(src, ia, close);
            match index_suffix(src, ia, ib) {
                Some((h, Index::X)) => with_expr(parse_expr_spec(src, ia, h, line), |e: Expr| Operand::Izx(e)),
                Some(_) => Err((line, "(zp,y) does not exist; only (zp,x) and (zp),y"@)),
                None => if sa >= b1 {
                    with_expr(parse_expr_spec(src, ia, ib, line), |e: Expr| Operand::Ind(e))
                } else if is_text_ci(src, sa, b1, ",y"@) {
                    with_expr(parse_expr_spec(src, ia, ib, line), |e: Expr| Operand::Izy(e))
                } else {
                    Err((line, "malformed indirect operand"@))
                },
            }
        }
    } else {
        match index_suffix(src, a1, b1) {
            Some((h, idx)) => with_expr(parse_expr_spec(src, a1, h, line), |e: Expr| Operand::Abs(e, idx)),
            None => with_expr(parse_expr_spec(src, a1, b1, line), |e: Expr| Operand::Abs(e, Index::Plain)),
        }
    }
}

/// A statement (no label) in `[a, b)`: a directive or an instruction.
pub open spec fn statement_spec(src: Seq<char>, a: int, b: int, line: int) -> Result<Stmt, Fault> {
    let a1 = skip_ws(src, a, b);
    let b1 = trim_back(src, a1, b);
    if a1 >= b1 {
        Ok(Stmt::Empty)
    } else {
        let n = name_end(src, a1, b1);
        let oa = skip_ws(src, n, b1);
        if is_text_ci(src, a1, n, ".org"@) {
            with_expr(parse_expr_spec(src, oa, b1, line), |e: Expr| Stmt::Org(e))
        } else if is_text_ci(src, a1, n, ".byte"@) {
            match items_spec(src, oa, b1, line) {
                Ok(_) => Ok(Stmt::Byte(oa as usize, b1 as usize)),
                Err(f) => Err(f),
            }
        } else if is_text_ci(src, a1, n, ".word"@) {
            match items_spec(src, oa, b1, line) {
                Ok(_) => Ok(Stmt::Word(oa as usize, b1 as usize)),
                Err(f) => Err(f),
            }
        } else if is_text_ci(src, a1, n, ".text"@) {
            if b1 - oa >= 2 && src[oa] == '"' && src[b1 - 1] == '"' {
                Ok(Stmt::Text((oa + 1) as usize, (b1 - 1) as usize))
            } else {
                Err((line, "expected \"quoted string\""@))
            }
        } else if is_text_ci(src, a1, n, ".res"@) {
            with_expr(parse_expr_spec(src, oa, b1, line), |e: Expr| Stmt::Res(e))
        } else if is_text_ci(src, a1, n, ".align"@) {
            with_expr(parse_expr_spec(src, oa, b1, line), |e: Expr| Stmt::Align(e))
        } else if is_text_ci(src, a1, n, ".bank"@) {
            with_expr(parse_expr_spec(src, oa, b1, line), |e: Expr| Stmt::Bank(e))
        } else if n > a1 && src[a1] == '.' {
            Err((line, "unknown directive '"@ + lowered(src, a1, n) + "'"@))
        } else {
            match mnemonic_of(src, a1, n) {
                Some(op) => match operand_spec(src, oa, b1, line) {
                    Ok(o) => Ok(Stmt::Instr(op, o)),
                    Err(f) => Err(f),
                },
                None => Err((line, "unknown mnemonic '"@ + lowered(src, a1, n) + "'"@)),
            }
        }
    }
}

/// A source line `[a, b)`: an optional `label:` and a statement, or an
/// equate `name = expr`; a `;` comment (outside double quotes) is ignored.
#[verifier::opaque]
pub open spec fn line_spec(src: Seq<char>, a: int, b: int, line: int) -> Result<(Option<(usize, usize)>, Stmt), Fault> {
    let e = comment_at(src, a, b, false);
    let t = skip_ws(src, a, e);
    if t >= e {
        Ok((None, Stmt::Empty))
    } else {
        let w = word_end(src, t, e);
        if is_alpha(src[t]) && w < e && src[w] == ':' {
            match statement_spec(src, w + 1, e, line) {
                Ok(st) => Ok((Some((t as usize, w as usize)), st)),
                Err(f) => Err(f),
            }
        } else if is_alpha(src[t]) && skip_ws(src, w, e) < e && src[skip_ws(src, w, e)] == '=' {
            match parse_expr_spec(src, skip_ws(src, w, e) + 1, e, line) {
                Ok(x) => Ok((None, Stmt::Equate(t as usize, w as usize, x))),
                Err(f) => Err(f),
            }
        } else {
            match statement_spec(src, t, e, line) {
                Ok(st) => Ok((None, st)),
                Err(f) => Err(f),
            }
        }
    }
}

fn mnemonic(src: &Vec<char>, a: usize, b: usize) -> (r: Option<Op>)
    requires
        a <= b <= src@.len(),
    ensures
        r == mnemonic_of(src@, a as int, b as int),
{
    if text_is_ci(src, a, b, "lda") {
        Some(Op::Lda)
    } else if text_is_ci(src, a, b, "ldx") {
        Some(Op::Ldx)
    } else if text_is_ci(src, a, b, "ldy") {
        Some(Op::Ldy)
    } else if text_is_ci(src, a, b, "sta") {
        Some(Op::Sta)
    } else if text_is_ci(src, a, b, "stx") {
        Some(Op::Stx)
    } else if text_is_ci(src, a, b, "sty") {
        Some(Op::Sty)
    } else if text_is_ci(src, a, b, "adc") {
        Some(Op::Adc)
    } else if text_is_ci(src, a, b, "sbc") {
        Some(Op::Sbc)
    } else if text_is_ci(src, a, b, "and") {
        Some(Op::And)
    } else if text_is_ci(src, a, b, "ora") {
        Some(Op::Ora)
    } else if text_is_ci(src, a, b, "eor") {
        Some(Op::Eor)
    } else if text_is_ci(src, a, b, "cmp") {
        Some(Op::Cmp)
    } else if text_is_ci(src, a, b, "cpx") {
        Some(Op::Cpx)
    } else if text_is_ci(src, a, b, "cpy") {
        Some(Op::Cpy)
    } else if text_is_ci(src, a, b, "inc") {
        Some(Op::Inc)
    } else if text_is_ci(src, a, b, "dec") {
        Some(Op::Dec)
    } else if text_is_ci(src, a, b, "asl") {
        Some(Op::Asl)
    } else if text_is_ci(src, a, b, "lsr") {
        Some(Op::Lsr)
    } else if text_is_ci(src, a, b, "rol") {
        Some(Op::Rol)
    } else if text_is_ci(src, a, b, "ror") {
        Some(Op::Ror)
    } else if text_is_ci(src, a, b, "bit") {
        Some(Op::Bit)
    } else if text_is_ci(src, a, b, "jmp") {
        Some(Op::Jmp)
    } else if text_is_ci(src, a, b, "jsr") {
        Some(Op::Jsr)
    } else if text_is_ci(src, a, b, "rts") {
        Some(Op::Rts)
    } else if text_is_ci(src, a, b, "rti") {
        Some(Op::Rti)
    } else if text_is_ci(src, a, b, "bpl") {
        Some(Op::BrPl)
    } else if text_is_ci(src, a, b, "bmi") {
        Some(Op::BrMi)
    } else if text_is_ci(src, a, b, "bvc") {
        Some(Op::BrVc)
    } else if text_is_ci(src, a, b, "bvs") {
        Some(Op::BrVs)
    } else if text_is_ci(src, a, b, "bcc") {
        Some(Op::BrCc)
    } else if text_is_ci(src, a, b, "bcs") {
        Some(Op::BrCs)
    } else if text_is_ci(src, a, b, "bne") {
        Some(Op::BrNe)
    } else if text_is_ci(src, a, b, "beq") {
        Some(Op::BrEq)
    } else if text_is_ci(src, a, b, "inx") {
        Some(Op::Inx)
    } else if text_is_ci(src, a, b, "iny") {
        Some(Op::Iny)
    } else if text_is_ci(src, a, b, "dex") {
        Some(Op::Dex)
    } else if text_is_ci(src, a, b, "dey") {
        Some(Op::Dey)
    } else if text_is_ci(src, a, b, "tax") {
        Some(Op::Tax)
    } else if text_is_ci(src, a, b, "tay") {
        Some(Op::Tay)
    } else if text_is_ci(src, a, b, "txa") {
        Some(Op::Txa)
    } else if text_is_ci(src, a, b, "tya") {
        Some(Op::Tya)
    } else if text_is_ci(src, a, b, "tsx") {
        Some(Op::Tsx)
    } else if text_is_ci(src, a, b, "txs") {
        Some(Op::Txs)
    } else if text_is_ci(src, a, b, "pha") {
        Some(Op::Pha)
    } else if text_is_ci(src, a, b, "php") {
        Some(Op::Php)
    } else if text_is_ci(src, a, b, "pla") {
        Some(Op::Pla)
    } else if text_is_ci(src, a, b, "plp") {
        Some(Op::Plp)
    } else if text_is_ci(src, a, b, "clc") {
        Some(Op::Clc)
    } else if text_is_ci(src, a, b, "sec") {
        Some(Op::Sec)
    } else if text_is_ci(src, a, b, "cli") {
        Some(Op::Cli)
    } else if text_is_ci(src, a, b, "sei") {
        Some(Op::Sei)
    } else if text_is_ci(src, a, b, "cld") {
        Some(Op::Cld)
    } else if text_is_ci(src, a, b, "sed") {
        Some(Op::Sed)
    } else if text_is_ci(src, a, b, "clv") {
        Some(Op::Clv)
    } else if text_is_ci(src, a, b, "brk") {
        Some(Op::Brk)
    } else if text_is_ci(src, a, b, "nop") {
        Some(Op::Nop)
    } else {
        None
    }
}

fn name_end_at(src: &Vec<char>, i: usize, end: usize) -> (r: usize)
    requires
        i <= end <= src@.len(),
    ensures
        r == name_end(src@, i as int, end as int),
        i <= r <= end,
{
    let mut k = i;
    while k < end && (is_word_char(src[k]) || src[k] == '.')
        invariant
            i <= k <= end <= src@.len(),
            name_end(src@, k as int, end as int) == name_end(src@, i as int, end as int),
        decreases end - k,
    {
        k = k + 1;
    }
    k
}

fn next_comma_at(src: &Vec<char>, i: usize, end: usize) -> (r: usize)
    requires
        i <= end <= src@.len(),
    ensures
        r == next_comma(src@, i as int, end as int),
        i <= r <= end,
{
    let mut k = i;
    while k < end && src[k] != ','
        invariant
            i <= k <= end <= src@.len(),
            next_comma(src@, k as int, end as int) == next_comma(src@, i as int, end as int),
        decreases end - k,
    {
        k = k + 1;
    }
    k
}

fn last_close_at(src: &Vec<char>, a: usize, e: usize) -> (r: Option<usize>)
    requires
        a <= e <= src@.len(),
    ensures
        match r {
            Some(c) => c == last_close(src@, a as int, e as int) && a <= c < e && src@[c as int] == ')',
            None => last_close(src@, a as int, e as int) < a,
        },
{
    let mut k = e;
    while k > a
        invariant
            a <= k <= e <= src@.len(),
            last_close(src@, a as int, k as int) == last_close(src@, a as int, e as int),
        decreases k - a,
    {
        if src[k - 1] == ')' {
            return Some(k - 1);
        }
        k = k - 1;
    }
    None
}

/// The lower-cased text of `[a, b)` between `pre` and `post`, as a message.
fn quoted_name(src: &Vec<char>, a: usize, b: usize, pre: &str, post: &str) -> (m: String)
    requires
        a <= b <= src@.len(),
    ensures
        m@ == pre@ + lowered(src@, a as int, b as int) + post@,
{
    let mut m = pre.to_owned();
    let mut k = a;
    while k < b
        invariant
            a <= k <= b <= src@.len(),
            m@ == pre@ + lowered(src@, a as int, k as int),
        decreases b - k,
    {
        push_char(&mut m, lower_char(src[k]));
        k = k + 1;
        assert(m@ =~= pre@ + lowered(src@, a as int, k as int));
    }
    m.append(post);
    m
}

/// Parse the items of a `.byte`/`.word` operand.
fn parse_items(src: &Vec<char>, a: usize, b: usize, line: usize) -> (r: Result<Vec<Expr>, Error>)
    requires
        a <= b <= src@.len(),
    ensures
        match r {
            Ok(v) => items_spec(src@, a as int, b as int, line as int) == Ok::<Seq<Expr>, Fault>(v@),
            Err(e) => items_spec(src@, a as int, b as int, line as int) matches Err(f) && e.line == f.0 && e.msg@ == f.1,
        },
        r matches Ok(v) ==> forall|k: int| 0 <= k < v@.len() ==> expr_in(#[trigger] v@[k], src@.len() as int),
{
    if a >= b {
        return Err(err(line, "directive needs at least one item"));
    }
    let mut out: Vec<Expr> = Vec::new();
    let mut i = a;
    loop
        invariant
            a <= i <= b <= src@.len(),
            a < b,
            forall|k: int| 0 <= k < out@.len() ==> expr_in(#[trigger] out@[k], src@.len() as int),
            items_from(src@, a as int, b as int, line as int) == match items_from(src@, i as int, b as int, line as int) {
                Ok(es) => Ok(out@ + es),
                Err(f) => Err::<Seq<Expr>, Fault>(f),
            },
        decreases b - i,
    {
        let j = next_comma_at(src, i, b);
        let e = match parse_expr(src, i, j, line) {
            Ok(e) => e,
            Err(x) => {
                assert(items_from(src@, i as int, b as int, line as int) matches Err(f) && x.line == f.0 && x.msg@ == f.1);
                return Err(x);
            },
        };
        let ghost prev = out@;
        out.push(e);
        if j >= b {
            assert(out@ =~= prev + seq![out@.last()]);
            return Ok(out);
        }
        proof {
            match items_from(src@, j + 1, b as int, line as int) {
                Ok(es) => {
                    assert(prev + (seq![out@.last()] + es) =~= out@ + es);
                },
                Err(f) => {},
            }
        }
        i = j + 1;
    }
}

/// Split a trailing `,x` or `,y` (case-insensitive) off the operand text.
fn split_index(src: &Vec<char>, a: usize, b: usize) -> (r: Option<(usize, Index)>)
    requires
        a <= b <= src@.len(),
    ensures
        match r {
            Some((h, i)) => index_suffix(src@, a as int, b as int) == Some((h as int, i)) && a <= h <= b,
            None => index_suffix(src@, a as int, b as int) is None,
        },
{
    let te = trim_back_at(src, a, b);
    if te - a >= 2 && src[te - 2] == ',' && lower_char(src[te - 1]) == 'x' {
        Some((te - 2, Index::X))
    } else if te - a >= 2 && src[te - 2] == ',' && lower_char(src[te - 1]) == 'y' {
        Some((te - 2, Index::Y))
    } else {
        None
    }
}

fn parse_operand(src: &Vec<char>, a: usize, b: usize, line: usize) -> (r: Result<Operand, Error>)
    requires
        a <= b <= src@.len(),
    ensures
        agrees(r, operand_spec(src@, a as int, b as int, line as int)),
        r matches Ok(o) ==> operand_in(o, src@.len() as int),
{
    let a1 = skip_ws_at(src, a, b);
    let b1 = trim_back_at(src, a1, b);
    if a1 >= b1 {
        return Ok(Operand::Absent);
    }
    if b1 - a1 == 1 && lower_char(src[a1]) == 'a' {
        return Ok(Operand::A);
    }
    if src[a1] == '#' {
        let e = parse_expr(src, a1 + 1, b1, line)?;
        return Ok(Operand::Imm(e));
    }
    if src[a1] == '(' {
        let close = match last_close_at(src, a1, b1) {
            Some(c) => c,
            None => return Err(err(line, "unbalanced parentheses")),
        };
        let sa = skip_ws_at(src, close + 1, b1);
        let ia = skip_ws_at(src, a1 + 1, close);
        let ib = trim_back_at(src, ia, close);
        match split_index(src, ia, ib) {
            Some((h, Index::X)) => {
                let e = parse_expr(src, ia, h, line)?;
                return Ok(Operand::Izx(e));
            },
            Some(_) => {
                return Err(err(line, "(zp,y) does not exist; only (zp,x) and (zp),y"));
            },
            None => {},
        }
        if sa >= b1 {
            let e = parse_expr(src, ia, ib, line)?;
            return Ok(Operand::Ind(e));
        }
        if text_is_ci(src, sa, b1, ",y") {
            let e = parse_expr(src, ia, ib, line)?;
            return Ok(Operand::Izy(e));
        }
        return Err(err(line, "malformed indirect operand"));
    }
    match split_index(src, a1, b1) {
        Some((h, idx)) => {
            let e = parse_expr(src, a1, h, line)?;
            Ok(Operand::Abs(e, idx))
        },
        None => {
            let e = parse_expr(src, a1, b1, line)?;
            Ok(Operand::Abs(e, Index::Plain))
        },
    }
}

/// Every span an operand names lies within `[0, n)`.
pub open spec fn operand_in(o: Operand, n: int) -> bool {
    match o {
        Operand::Imm(e) => expr_in(e, n),
        Operand::Abs(e, _) => expr_in(e, n),
        Operand::Izx(e) => expr_in(e, n),
        Operand::Izy(e) => expr_in(e, n),
        Operand::Ind(e) => expr_in(e, n),
        _ => true,
    }
}

/// Every span a statement names lies within `[0, n)`.
pub open spec fn stmt_in(s: Stmt, n: int) -> bool {
    match s {
        Stmt::Org(e) => expr_in(e, n),
        Stmt::Byte(a, b) => a <= b <= n,
        Stmt::Word(a, b) => a <= b <= n,
        Stmt::Text(a, b) => a <= b <= n,
        Stmt::Res(e) => expr_in(e, n),
        Stmt::Align(e) => expr_in(e, n),
        Stmt::Bank(e) => expr_in(e, n),
        Stmt::Equate(a, b, e) => a <= b <= n && expr_in(e, n),
        Stmt::Instr(_, o) => operand_in(o, n),
        Stmt::Empty => true,
    }
}

fn parse_statement(src: &Vec<char>, a: usize, b: usize, line: usize) -> (r: Result<Stmt, Error>)
    requires
        a <= b <= src@.len(),
    ensures
        agrees(r, statement_spec(src@, a as int, b as int, line as int)),
        r matches Ok(st) ==> stmt_in(st, src@.len() as int),
{
    let a1 = skip_ws_at(src, a, b);
    let b1 = trim_back_at(src, a1, b);
    if a1 >= b1 {
        return Ok(Stmt::Empty);
    }
    let n = name_end_at(src, a1, b1);
    let oa = skip_ws_at(src, n, b1);
    if text_is_ci(src, a1, n, ".org") {
        let e = parse_expr(src, oa, b1, line)?;
        return Ok(Stmt::Org(e));
    }
    if text_is_ci(src, a1, n, ".byte") {
        let _items = parse_items(src, oa, b1, line)?;
        return Ok(Stmt::Byte(oa, b1));
    }
    if text_is_ci(src, a1, n, ".word") {
        let _items = parse_items(src, oa, b1, line)?;
        return Ok(Stmt::Word(oa, b1));
    }
    if text_is_ci(src, a1, n, ".text") {
        if b1 - oa >= 2 && src[oa] == '"' && src[b1 - 1] == '"' {
            return Ok(Stmt::Text(oa + 1, b1 - 1));
        }
        return Err(err(line, "expected \"quoted string\""));
    }
    if text_is_ci(src, a1, n, ".res") {
        let e = parse_expr(src, oa, b1, line)?;
        return Ok(Stmt::Res(e));
    }
    if text_is_ci(src, a1, n, ".align") {
        let e = parse_expr(src, oa, b1, line)?;
        return Ok(Stmt::Align(e));
    }
    if text_is_ci(src, a1, n, ".bank") {
        let e = parse_expr(src, oa, b1, line)?;
        return Ok(Stmt::Bank(e));
    }
    if n > a1 && src[a1] == '.' {
        return Err(Error { line, msg: quoted_name(src, a1, n, "unknown directive '", "'") });
    }
    match mnemonic(src, a1, n) {
        Some(op) => {
            let o = parse_operand(src, oa, b1, line)?;
            Ok(Stmt::Instr(op, o))
        },
        None => Err(Error { line, msg: quoted_name(src, a1, n, "unknown mnemonic '", "'") }),
    }
}

fn parse_line(src: &Vec<char>, a: usize, b: usize, line: usize) -> (r: Result<(Option<(usize, usize)>, Stmt), Error>)
    requires
        a <= b <= src@.len(),
    ensures
        agrees(r, line_spec(src@, a as int, b as int, line as int)),
        r matches Ok((lbl, st)) ==> stmt_in(st, src@.len() as int) && (lbl matches Some((x, y)) ==> x <= y <= src@.len()),
{
    reveal(line_spec);
    let e = strip_comment(src, a, b);
    let t = skip_ws_at(src, a, e);
    if t >= e {
        return Ok((None, Stmt::Empty));
    }
    let w = word_end_at(src, t, e);
    if is_alpha_char(src[t]) && w < e && src[w] == ':' {
        let st = parse_statement(src, w + 1, e, line)?;
        return Ok((Some((t, w)), st));
    }
    if is_alpha_char(src[t]) {
        let k = skip_ws_at(src, w, e);
        if k < e && src[k] == '=' {
            let x = parse_expr(src, k + 1, e, line)?;
            return Ok((None, Stmt::Equate(t, w, x)));
        }
    }
    let st = parse_statement(src, t, e, line)?;
    Ok((None, st))
}

// ------------------------------------------------------------- two passes

pub open spec fn shift_op(op: Op) -> bool {
    op == Op::Asl || op == Op::Lsr || op == Op::Rol || op == Op::Ror
}

pub open spec fn branch_op(op: Op) -> bool {
    op == Op::BrPl || op == Op::BrMi || op == Op::BrVc || op == Op::BrVs || op == Op::BrCc || op
        == Op::BrCs || op == Op::BrNe || op == Op::BrEq
}

pub open spec fn zp_mode(idx: Index) -> Mode {
    match idx {
        Index::Plain => Mode::Zp,
        Index::X => Mode::Zpx,
        Index::Y => Mode::Zpy,
    }
}

pub open spec fn abs_mode(idx: Index) -> Mode {
    match idx {
        Index::Plain => Mode::Abs,
        Index::X => Mode::Abx,
        Index::Y => Mode::Aby,
    }
}

/// `mode` when the operation has an opcode in it, else the error.
pub open spec fn required(op: Op, mode: Mode, line: int) -> Result<Mode, Fault> {
    if encoding(op, mode) is Some {
        Ok(mode)
    } else {
        Err((line, "no such addressing mode for this instruction"@))
    }
}

/// A mode paired with an operand expression (errors pass through).
pub open spec fn mode_with(r: Result<Mode, Fault>, e: Option<Expr>) -> Result<(Mode, Option<Expr>), Fault> {
    match r {
        Ok(m) => Ok((m, e)),
        Err(f) => Err(f),
    }
}

/// The addressing mode of an instruction, fixed in pass 1 so that byte
/// counts are frozen before any operand is fully evaluated. Symbol-bearing
/// operands always go absolute; `<expr` forces the zero-page family; fitting
/// literals use zero page when the opcode exists there, otherwise absolute.
pub open spec fn mode_choice(
    src: Seq<char>,
    syms: Seq<(usize, usize, i32)>,
    line: int,
    op: Op,
    operand: Operand,
    pc: int,
) -> Result<(Mode, Option<Expr>), Fault> {
    match operand {
        Operand::Absent => mode_with(required(op, if shift_op(op) { Mode::Acc } else { Mode::Imp }, line), None),
        Operand::A => if shift_op(op) {
            mode_with(required(op, Mode::Acc, line), None)
        } else {
            Err((line, "'a' operand is only valid on shifts"@))
        },
        Operand::Imm(e) => mode_with(required(op, Mode::Imm, line), Some(e)),
        Operand::Ind(e) => if op == Op::Jmp {
            mode_with(required(op, Mode::Ind, line), Some(e))
        } else {
            Err((line, "(abs) indirect is only valid on jmp"@))
        },
        Operand::Izx(e) => mode_with(required(op, Mode::Izx, line), Some(e)),
        Operand::Izy(e) => mode_with(required(op, Mode::Izy, line), Some(e)),
        Operand::Abs(e, idx) => if branch_op(op) {
            if idx != Index::Plain {
                Err((line, "branches take a plain target, not an index"@))
            } else {
                mode_with(required(op, Mode::Rel, line), Some(e))
            }
        } else if e is Lo {
            mode_with(required(op, zp_mode(idx), line), Some(e))
        } else {
            let fits_zp = !mentions_symbol(e) && (eval(src, syms, e, pc) matches Some(v) && 0 <= v
                <= 0xFF);
            if fits_zp && encoding(op, zp_mode(idx)) is Some {
                Ok((zp_mode(idx), Some(e)))
            } else {
                mode_with(required(op, abs_mode(idx), line), Some(e))
            }
        },
    }
}

/// The size of an instruction never depends on a symbol's value: an operand
/// naming a symbol gets the same mode whatever the symbols defined so far
/// hold and wherever the instruction stands, and never a zero-page mode
/// unless written with `<`. This is what lets one sizing pass fix every
/// address.
pub proof fn lemma_symbolic_operands_absolute(
    src: Seq<char>,
    syms1: Seq<(usize, usize, i32)>,
    syms2: Seq<(usize, usize, i32)>,
    line: int,
    op: Op,
    e: Expr,
    idx: Index,
    pc1: int,
    pc2: int,
)
    requires
        mentions_symbol(e),
    ensures
        mode_choice(src, syms1, line, op, Operand::Abs(e, idx), pc1) == mode_choice(
            src,
            syms2,
            line,
            op,
            Operand::Abs(e, idx),
            pc2,
        ),
        !(e is Lo) ==> (mode_choice(src, syms1, line, op, Operand::Abs(e, idx), pc1) matches Ok((m, _))
            ==> m != Mode::Zp && m != Mode::Zpx && m != Mode::Zpy),
{
}

/// `<expr` forces the zero-page family of modes.
pub proof fn lemma_low_byte_forces_zero_page(
    src: Seq<char>,
    syms: Seq<(usize, usize, i32)>,
    line: int,
    op: Op,
    x: Expr,
    idx: Index,
    pc: int,
)
    requires
        !branch_op(op),
    ensures
        mode_choice(src, syms, line, op, Operand::Abs(Expr::Lo(Box::new(x)), idx), pc) matches Ok((m, _))
            ==> m == zp_mode(idx),
{
}

/// A non-branch instruction with an address operand takes the zero-page
/// form exactly when the operand is a `<` low byte, or names no symbol,
/// evaluates within $00-$FF and the zero-page opcode exists; otherwise the
/// absolute form. Either way the mode chosen has an opcode and keeps the
/// operand.
pub proof fn lemma_zero_page_rule(
    src: Seq<char>,
    syms: Seq<(usize, usize, i32)>,
    line: int,
    op: Op,
    e: Expr,
    idx: Index,
    pc: int,
)
    requires
        !branch_op(op),
    ensures
        mode_choice(src, syms, line, op, Operand::Abs(e, idx), pc) matches Ok((m, x)) ==> {
            &&& x == Some(e)
            &&& encoding(op, m) is Some
            &&& (m == zp_mode(idx) || m == abs_mode(idx))
            &&& (m == zp_mode(idx) <==> (e is Lo || (!mentions_symbol(e) && (eval(src, syms, e, pc) matches Some(v)
                && 0 <= v <= 0xFF) && encoding(op, zp_mode(idx)) is Some)))
        },
{
    assert(zp_mode(idx) != abs_mode(idx));
}

fn is_shift(op: Op) -> (r: bool)
    ensures
        r == shift_op(op),
{
    op == Op::Asl || op == Op::Lsr || op == Op::Rol || op == Op::Ror
}

fn is_branch(op: Op) -> (r: bool)
    ensures
        r == branch_op(op),
{
    op == Op::BrPl || op == Op::BrMi || op == Op::BrVc || op == Op::BrVs || op == Op::BrCc || op
        == Op::BrCs || op == Op::BrNe || op == Op::BrEq
}

fn require(op: Op, mode: Mode, line: usize) -> (r: Result<Mode, Error>)
    ensures
        agrees(r, required(op, mode, line as int)),
{
    match encode(op, mode) {
        Some(_) => Ok(mode),
        None => Err(err(line, "no such addressing mode for this instruction")),
    }
}

fn decide_mode(
    src: &Vec<char>,
    syms: &Vec<(usize, usize, i32)>,
    line: usize,
    op: Op,
    operand: Operand,
    pc: u32,
) -> (r: Result<(Mode, Option<Expr>), Error>)
    requires
        pc <= 0x1_0000,
        operand_in(operand, src@.len() as int),
        syms_ok(src@, syms@),
    ensures
        agrees(r, mode_choice(src@, syms@, line as int, op, operand, pc as int)),
        r matches Ok((m, e)) ==> encoding(op, m) is Some && (e matches Some(x) ==> expr_in(x, src@.len() as int)),
{
    match operand {
        Operand::Absent => {
            let m = if is_shift(op) { Mode::Acc } else { Mode::Imp };
            let m = require(op, m, line)?;
            Ok((m, None))
        },
        Operand::A => {
            if is_shift(op) {
                let m = require(op, Mode::Acc, line)?;
                Ok((m, None))
            } else {
                Err(err(line, "'a' operand is only valid on shifts"))
            }
        },
        Operand::Imm(e) => {
            let m = require(op, Mode::Imm, line)?;
            Ok((m, Some(e)))
        },
        Operand::Ind(e) => {
            if op == Op::Jmp {
                let m = require(op, Mode::Ind, line)?;
                Ok((m, Some(e)))
            } else {
                Err(err(line, "(abs) indirect is only valid on jmp"))
            }
        },
        Operand::Izx(e) => {
            let m = require(op, Mode::Izx, line)?;
            Ok((m, Some(e)))
        },
        Operand::Izy(e) => {
            let m = require(op, Mode::Izy, line)?;
            Ok((m, Some(e)))
        },
        Operand::Abs(e, idx) => {
            let zp = match idx {
                Index::Plain => Mode::Zp,
                Index::X => Mode::Zpx,
                Index::Y => Mode::Zpy,
            };
            let abs = match idx {
                Index::Plain => Mode::Abs,
                Index::X => Mode::Abx,
                Index::Y => Mode::Aby,
            };
            if is_branch(op) {
                if idx != Index::Plain {
                    return Err(err(line, "branches take a plain target, not an index"));
                }
                let m = require(op, Mode::Rel, line)?;
                Ok((m, Some(e)))
            } else if let Expr::Lo(_) = e {
                let m = require(op, zp, line)?;
                Ok((m, Some(e)))
            } else {
                let fits_zp = !has_sym(&e) && match resolve(src, syms, &e, pc) {
                    Some(v) => 0 <= v && v <= 0xFF,
                    None => false,
                };
                if fits_zp && encode(op, zp).is_some() {
                    Ok((zp, Some(e)))
                } else {
                    let m = require(op, abs, line)?;
                    Ok((m, Some(e)))
                }
            }
        },
    }
}

// ------------------------------------------------------------ error lines

proof fn lemma_lex_line(src: Seq<char>, i: int, end: int, line: int)
    ensures
        lex(src, i, end, line) is Err ==> lex(src, i, end, line)->Err_0.0 == line,
    decreases end - i,
{
    if i < end {
        lemma_lex_line(src, i + 1, end, line);
        if i + 2 <= end {
            lemma_lex_line(src, i + 2, end, line);
        }
        if i + 3 <= end {
            lemma_lex_line(src, i + 3, end, line);
        }
        let c = src[i];
        let radix: int = if c == '$' {
            16
        } else if c == '%' {
            2
        } else {
            10
        };
        let start = if c == '$' || c == '%' {
            i + 1
        } else {
            i
        };
        if start <= end {
            let j = digits_end(src, start, end, radix);
            lemma_digits_end_bounds(src, start, end, radix);
            if i < j {
                lemma_lex_line(src, j, end, line);
            }
        }
        if i + 1 <= end {
            let w = word_end(src, i + 1, end);
            lemma_word_end_bounds(src, i + 1, end);
            lemma_lex_line(src, w, end, line);
        }
    }
}

proof fn lemma_items_line(src: Seq<char>, i: int, end: int, line: int)
    requires
        forall|a: int, b: int|
            #[trigger] parse_expr_spec(src, a, b, line) is Err ==> parse_expr_spec(src, a, b, line)->Err_0.0
                == line,
    ensures
        items_from(src, i, end, line) is Err ==> items_from(src, i, end, line)->Err_0.0 == line,
    decreases end - i,
{
    if i <= end {
        let j = next_comma(src, i, end);
        lemma_next_comma_bounds(src, i, end);
        if j < end {
            lemma_items_line(src, j + 1, end, line);
        }
    }
}

/// Every parse error is reported at the line being parsed.
pub proof fn lemma_parse_error_line(src: Seq<char>, line: int)
    ensures
        forall|a: int, b: int|
            #[trigger] parse_expr_spec(src, a, b, line) is Err ==> parse_expr_spec(src, a, b, line)->Err_0.0
                == line,
        forall|a: int, b: int|
            #[trigger] items_spec(src, a, b, line) is Err ==> items_spec(src, a, b, line)->Err_0.0 == line,
        forall|a: int, b: int|
            #[trigger] line_spec(src, a, b, line) is Err ==> line_spec(src, a, b, line)->Err_0.0 == line,
{
    assert forall|a: int, b: int| #[trigger]
        parse_expr_spec(src, a, b, line) is Err implies parse_expr_spec(src, a, b, line)->Err_0.0 == line by {
        lemma_lex_line(src, a, b, line);
    }
    assert forall|a: int, b: int| #[trigger]
        items_spec(src, a, b, line) is Err implies items_spec(src, a, b, line)->Err_0.0 == line by {
        lemma_items_line(src, a, b, line);
    }
    assert forall|a: int, b: int| #[trigger]
        statement_spec(src, a, b, line) is Err implies statement_spec(src, a, b, line)->Err_0.0 == line by {
    }
    assert forall|a: int, b: int| #[trigger]
        line_spec(src, a, b, line) is Err implies line_spec(src, a, b, line)->Err_0.0 == line by {
        reveal(line_spec);
    }
}

} // verus!
