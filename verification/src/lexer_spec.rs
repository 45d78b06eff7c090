//! The meaning of lexing, stated over character sequences: a lexing state,
//! one function per kind of lexeme that says how it moves the state, and the
//! run to the end of the input.

use vstd::prelude::*;
use crate::text::{alphabetic, nfc, is_scalar};
use crate::lexer::KEYWORDS;
use crate::messages::{
    COMMENT_UNCLOSED, ESCAPE_INCOMPLETE, ESCAPE_UNKNOWN, U_ESCAPE_BRACE, U_ESCAPE_INVALID, U_ESCAPE_SCALAR, STRING_UNCLOSED, STRING_NEWLINE, CHAR_UNCLOSED, CHAR_NEWLINE, CHAR_ONE, CHAR_QUOTE_MISSING, MIXED_DIGITS, NUMBER_RANGE, BANG, MISMATCH, UNEXPECTED, OPEN_AT_END, QUOTE,
};

verus! {

/// What a token carries, as plain values.
pub enum KindV {
    Ident(Seq<char>),
    Kw(Seq<char>),
    Int(i64),
    Float(Seq<char>),
    Str(Seq<char>),
    Chr(char),
    Newline,
    Op(Seq<char>),
}

/// A token at its line and column (both counted from 1).
pub struct TokV {
    pub kind: KindV,
    pub line: int,
    pub col: int,
}

/// A diagnostic at its line and column.
pub struct DiagV {
    pub line: int,
    pub col: int,
    pub message: Seq<char>,
}

/// The lexer's state part-way through the input: the next index, the
/// position it stands at, what has been produced, and the brackets
/// (`(` or `[`, with their positions) still open.
pub struct LexSt {
    pub i: int,
    pub line: int,
    pub col: int,
    pub toks: Seq<TokV>,
    pub diags: Seq<DiagV>,
    pub opens: Seq<(char, int, int)>,
}

pub open spec fn peek_at(cs: Seq<char>, i: int) -> Option<char> {
    if 0 <= i < cs.len() {
        Some(cs[i])
    } else {
        None
    }
}

pub open spec fn init_state() -> LexSt {
    LexSt { i: 0, line: 1, col: 1, toks: seq![], diags: seq![], opens: seq![] }
}

/// Moves `n` characters on along the current line.
pub open spec fn adv(st: LexSt, n: int) -> LexSt {
    LexSt { i: st.i + n, col: st.col + n, ..st }
}

pub open spec fn with_err(st: LexSt, line: int, col: int, message: Seq<char>) -> LexSt {
    LexSt { diags: st.diags.push(DiagV { line, col, message }), ..st }
}

pub open spec fn with_tok(st: LexSt, kind: KindV, line: int, col: int) -> LexSt {
    LexSt { toks: st.toks.push(TokV { kind, line, col }), ..st }
}

// ---------------------------------------------------------------------------
// Character classes
// ---------------------------------------------------------------------------

pub open spec fn bangla_digit(c: char) -> bool {
    0x09E6 <= (c as u32) <= 0x09EF
}

pub open spec fn ascii_digit(c: char) -> bool {
    0x30 <= (c as u32) <= 0x39
}

pub open spec fn any_digit(c: char) -> bool {
    ascii_digit(c) || bangla_digit(c)
}

pub open spec fn bangla_block(c: char) -> bool {
    0x0980 <= (c as u32) <= 0x09FF
}

pub open spec fn ident_start(c: char) -> bool {
    c == '_' || alphabetic(c)
}

pub open spec fn ident_part(c: char) -> bool {
    ident_start(c) || any_digit(c) || bangla_block(c) || c == '\u{200C}' || c == '\u{200D}'
}

pub open spec fn ascii_hex(c: char) -> bool {
    ascii_digit(c) || (0x41 <= (c as u32) <= 0x46) || (0x61 <= (c as u32) <= 0x66)
}

/// The value of a decimal digit, ASCII or Bengali.
pub open spec fn digit_val(c: char) -> int {
    if ascii_digit(c) {
        (c as u32) - 0x30
    } else {
        (c as u32) - 0x09E6
    }
}

/// The ASCII digit with the same value as a Bengali one; any other
/// character is left as it is.
pub open spec fn to_ascii_digit(c: char) -> char {
    if bangla_digit(c) {
        (((c as u32) - 0x09E6 + 0x30) as u8) as char
    } else {
        c
    }
}

pub open spec fn hex_val(c: char) -> int {
    if ascii_digit(c) {
        (c as u32) - 0x30
    } else if 0x41 <= (c as u32) <= 0x46 {
        (c as u32) - 0x41 + 10
    } else {
        (c as u32) - 0x61 + 10
    }
}

/// The number that a string of decimal digits denotes.
pub open spec fn digits_value(ds: Seq<char>) -> int
    decreases ds.len(),
{
    if ds.len() == 0 {
        0
    } else {
        10 * digits_value(ds.drop_last()) + digit_val(ds.last())
    }
}

/// The number that a string of hexadecimal digits denotes.
pub open spec fn hex_value(ds: Seq<char>) -> int
    decreases ds.len(),
{
    if ds.len() == 0 {
        0
    } else {
        16 * hex_value(ds.drop_last()) + hex_val(ds.last())
    }
}

pub open spec fn is_keyword(n: Seq<char>) -> bool {
    exists|k: int| 0 <= k < KEYWORDS@.len() && (#[trigger] KEYWORDS@[k])@ == n
}

/// A word is a keyword token when its normal form is in the table, and a
/// name otherwise.
pub open spec fn word_kind(n: Seq<char>) -> KindV {
    if is_keyword(n) {
        KindV::Kw(n)
    } else {
        KindV::Ident(n)
    }
}

// ---------------------------------------------------------------------------
// Runs of characters
// ---------------------------------------------------------------------------

/// The end of a `//` comment that starts before `j`: the next line break, or the end.
pub open spec fn line_comment_end(cs: Seq<char>, j: int) -> int
    decreases cs.len() - j,
{
    if 0 <= j < cs.len() && cs[j] != '\n' && cs[j] != '\r' {
        line_comment_end(cs, j + 1)
    } else {
        j
    }
}

/// Scans the inside of a `/* */` comment from `j`: where it ends, the
/// position there, and whether `*/` was found.
pub open spec fn block_comment(cs: Seq<char>, j: int, line: int, col: int) -> (int, int, int, bool)
    decreases cs.len() - j,
{
    if j < 0 || j >= cs.len() {
        (j, line, col, false)
    } else if cs[j] == '*' && peek_at(cs, j + 1) == Some('/') {
        (j + 2, line, col + 2, true)
    } else if cs[j] == '\n' {
        block_comment(cs, j + 1, line + 1, 1)
    } else {
        block_comment(cs, j + 1, line, col + 1)
    }
}

pub proof fn lemma_block_comment_moves(cs: Seq<char>, j: int, line: int, col: int)
    ensures
        block_comment(cs, j, line, col).0 >= j,
        0 <= j <= cs.len() ==> block_comment(cs, j, line, col).0 <= cs.len(),
    decreases cs.len() - j,
{
    if 0 <= j < cs.len() && !(cs[j] == '*' && peek_at(cs, j + 1) == Some('/')) {
        if cs[j] == '\n' {
            lemma_block_comment_moves(cs, j + 1, line + 1, 1);
        } else {
            lemma_block_comment_moves(cs, j + 1, line, col + 1);
        }
    }
}

pub proof fn lemma_digits_end_moves(cs: Seq<char>, j: int)
    ensures
        digits_end(cs, j) >= j,
        0 <= j <= cs.len() ==> digits_end(cs, j) <= cs.len(),
    decreases cs.len() - j,
{
    if 0 <= j < cs.len() && any_digit(cs[j]) {
        lemma_digits_end_moves(cs, j + 1);
    }
}

/// Everything in a run of digits is a digit.
pub proof fn lemma_digits_run(cs: Seq<char>, a: int)
    requires
        0 <= a,
    ensures
        forall|j: int| a <= j < digits_end(cs, a) ==> any_digit(#[trigger] cs[j]),
    decreases cs.len() - a,
{
    if 0 <= a < cs.len() && any_digit(cs[a]) {
        lemma_digits_run(cs, a + 1);
    }
}

pub proof fn lemma_ident_end_moves(cs: Seq<char>, j: int)
    ensures
        ident_end(cs, j) >= j,
        0 <= j <= cs.len() ==> ident_end(cs, j) <= cs.len(),
    decreases cs.len() - j,
{
    if 0 <= j < cs.len() && ident_part(cs[j]) {
        lemma_ident_end_moves(cs, j + 1);
    }
}

/// Extending the range by one digit adds that digit to the check.
pub proof fn lemma_mixed_extend(cs: Seq<char>, a: int, b: int, bangla: bool)
    requires
        a <= b,
    ensures
        mixed_digits(cs, a, b + 1, bangla) == (mixed_digits(cs, a, b, bangla) || bangla_digit(cs[b]) != bangla),
{
    if mixed_digits(cs, a, b + 1, bangla) {
        let j = choose|j: int| a <= j < b + 1 && bangla_digit(#[trigger] cs[j]) != bangla;
        if j < b {
            assert(mixed_digits(cs, a, b, bangla));
        }
    }
}

pub proof fn lemma_mixed_empty(cs: Seq<char>, a: int, bangla: bool)
    ensures
        !mixed_digits(cs, a, a, bangla),
{
}

/// A string of digits denotes a number no smaller than any of its prefixes
/// (and never a negative one).
pub proof fn lemma_digits_prefix(ds: Seq<char>, k: int)
    requires
        0 <= k <= ds.len(),
        forall|j: int| 0 <= j < ds.len() ==> any_digit(#[trigger] ds[j]),
    ensures
        0 <= digits_value(ds.take(k)) <= digits_value(ds),
    decreases ds.len(),
{
    if k == ds.len() {
        assert(ds.take(k) =~= ds);
        lemma_digits_nonneg(ds);
    } else {
        let d = ds.drop_last();
        assert(d.take(k) =~= ds.take(k));
        lemma_digits_prefix(d, k);
        lemma_digits_nonneg(d);
    }
}

pub proof fn lemma_digits_nonneg(ds: Seq<char>)
    requires
        forall|j: int| 0 <= j < ds.len() ==> any_digit(#[trigger] ds[j]),
    ensures
        digits_value(ds) >= 0,
    decreases ds.len(),
{
    if ds.len() > 0 {
        let d = ds.drop_last();
        assert forall|j: int| 0 <= j < d.len() implies any_digit(#[trigger] d[j]) by {
            assert(d[j] == ds[j]);
        }
        lemma_digits_nonneg(d);
    }
}

/// The end of the hexadecimal digits of a `\u{...}` escape starting at `start`
/// (at most six of them).
pub open spec fn hex_end(cs: Seq<char>, j: int, start: int) -> int
    decreases cs.len() - j,
{
    if 0 <= j < cs.len() && ascii_hex(cs[j]) && j - start < 6 {
        hex_end(cs, j + 1, start)
    } else {
        j
    }
}

/// The end of a run of digits (ASCII or Bengali) from `j`.
pub open spec fn digits_end(cs: Seq<char>, j: int) -> int
    decreases cs.len() - j,
{
    if 0 <= j < cs.len() && any_digit(cs[j]) {
        digits_end(cs, j + 1)
    } else {
        j
    }
}

/// The end of a run of identifier characters from `j`.
pub open spec fn ident_end(cs: Seq<char>, j: int) -> int
    decreases cs.len() - j,
{
    if 0 <= j < cs.len() && ident_part(cs[j]) {
        ident_end(cs, j + 1)
    } else {
        j
    }
}

/// Where the rest of a broken character literal ends: at the next quote or
/// line break, or the end.
pub open spec fn quote_end(cs: Seq<char>, j: int) -> int
    decreases cs.len() - j,
{
    if 0 <= j < cs.len() && cs[j] != '\'' && cs[j] != '\n' && cs[j] != '\r' {
        quote_end(cs, j + 1)
    } else {
        j
    }
}

// ---------------------------------------------------------------------------
// Lexemes
// ---------------------------------------------------------------------------

/// A line break at `(line, col)`: a `Newline` token unless a bracket is open.
pub open spec fn newline(st: LexSt, line: int, col: int) -> LexSt {
    LexSt {
        toks: if st.opens.len() == 0 {
            st.toks.push(TokV { kind: KindV::Newline, line, col })
        } else {
            st.toks
        },
        line: st.line + 1,
        col: 1,
        ..st
    }
}

/// `/`: a line comment, a block comment, or the division operator.
pub open spec fn slash(cs: Seq<char>, st: LexSt) -> LexSt {
    if peek_at(cs, st.i + 1) == Some('/') {
        let e = line_comment_end(cs, st.i + 2);
        LexSt { i: e, col: st.col + (e - st.i), ..st }
    } else if peek_at(cs, st.i + 1) == Some('*') {
        let r = block_comment(cs, st.i + 2, st.line, st.col + 2);
        let st1 = LexSt { i: r.0, line: r.1, col: r.2, ..st };
        if r.3 {
            st1
        } else {
            with_err(st1, st.line, st.col, COMMENT_UNCLOSED@)
        }
    } else {
        adv(with_tok(st, KindV::Op("/"@), st.line, st.col), 1)
    }
}

/// `\u{...}` after the `\u`: up to six hex digits naming a Unicode scalar value.
pub open spec fn unicode_escape(cs: Seq<char>, st: LexSt, sl: int, sc: int) -> (LexSt, Option<char>) {
    if peek_at(cs, st.i) != Some('{') {
        (with_err(st, sl, sc, U_ESCAPE_BRACE@), None)
    } else {
        let st1 = adv(st, 1);
        let e = hex_end(cs, st1.i, st1.i);
        let st2 = adv(st1, e - st1.i);
        if e == st1.i || peek_at(cs, e) != Some('}') {
            (with_err(st2, sl, sc, U_ESCAPE_INVALID@), None)
        } else {
            let st3 = adv(st2, 1);
            let v = hex_value(cs.subrange(st1.i, e));
            if is_scalar(v) {
                (st3, Some(v as char))
            } else {
                (with_err(st3, sl, sc, U_ESCAPE_SCALAR@), None)
            }
        }
    }
}

/// An escape sequence starting at the backslash under `st.i`: the state
/// after it and the character it denotes, if it is valid.
pub open spec fn escape(cs: Seq<char>, st: LexSt) -> (LexSt, Option<char>) {
    let el = st.line;
    let ec = st.col;
    let st1 = adv(st, 1);
    match peek_at(cs, st1.i) {
        None => (with_err(st1, el, ec, ESCAPE_INCOMPLETE@), None),
        Some(e) => {
            let st2 = adv(st1, 1);
            if e == 'n' {
                (st2, Some('\n'))
            } else if e == 't' {
                (st2, Some('\t'))
            } else if e == 'r' {
                (st2, Some('\r'))
            } else if e == '\\' {
                (st2, Some('\\'))
            } else if e == '"' {
                (st2, Some('"'))
            } else if e == '\'' {
                (st2, Some('\''))
            } else if e == 'u' {
                unicode_escape(cs, st2, el, ec)
            } else {
                (with_err(st2, el, ec, ESCAPE_UNKNOWN@ + seq![e] + QUOTE@), None)
            }
        },
    }
}

/// The body of a text literal that opened at `(sl, sc)`, with `s` read so far.
pub open spec fn string_body(cs: Seq<char>, st: LexSt, sl: int, sc: int, s: Seq<char>) -> LexSt
    decreases cs.len() - st.i,
{
    match peek_at(cs, st.i) {
        None => with_err(st, sl, sc, STRING_UNCLOSED@),
        Some(c) => {
            if c == '"' {
                with_tok(adv(st, 1), KindV::Str(s), sl, sc)
            } else if c == '\n' || c == '\r' {
                with_err(st, sl, sc, STRING_NEWLINE@)
            } else if c == '\\' {
                let r = escape(cs, st);
                let s1 = match r.1 {
                    Some(ch) => s.push(ch),
                    None => s,
                };
                if st.i < r.0.i <= cs.len() {
                    string_body(cs, r.0, sl, sc, s1)
                } else {
                    r.0
                }
            } else {
                string_body(cs, adv(st, 1), sl, sc, s.push(c))
            }
        },
    }
}

/// A text literal starting at the quote under `st.i`.
pub open spec fn string_lit(cs: Seq<char>, st: LexSt) -> LexSt {
    string_body(cs, adv(st, 1), st.line, st.col, seq![])
}

/// Skips the rest of a broken character literal, with its closing quote if any.
pub open spec fn skip_char_rest(cs: Seq<char>, st: LexSt) -> LexSt {
    let e = quote_end(cs, st.i);
    let st1 = adv(st, e - st.i);
    if peek_at(cs, e) == Some('\'') {
        adv(st1, 1)
    } else {
        st1
    }
}

/// A character literal starting at the quote under `st.i`.
pub open spec fn char_lit(cs: Seq<char>, st: LexSt) -> LexSt {
    let sl = st.line;
    let sc = st.col;
    let st1 = adv(st, 1);
    match peek_at(cs, st1.i) {
        None => with_err(st1, sl, sc, CHAR_UNCLOSED@),
        Some(c) => {
            let r: (LexSt, Option<char>) = if c == '\n' || c == '\r' {
                (with_err(st1, sl, sc, CHAR_NEWLINE@), None)
            } else if c == '\\' {
                escape(cs, st1)
            } else {
                (adv(st1, 1), Some(c))
            };
            let st2 = r.0;
            match r.1 {
                None => skip_char_rest(cs, st2),
                Some(ch) => {
                    if peek_at(cs, st2.i) == Some('\'') {
                        with_tok(adv(st2, 1), KindV::Chr(ch), sl, sc)
                    } else {
                        let e = quote_end(cs, st2.i);
                        let st3 = adv(st2, e - st2.i);
                        if peek_at(cs, e) == Some('\'') {
                            with_err(adv(st3, 1), sl, sc, CHAR_ONE@)
                        } else {
                            with_err(st3, sl, sc, CHAR_QUOTE_MISSING@)
                        }
                    }
                },
            }
        },
    }
}

/// Whether some digit in `cs[a..b]` is Bengali when `bangla` is false, or
/// ASCII when it is true.
pub open spec fn mixed_digits(cs: Seq<char>, a: int, b: int, bangla: bool) -> bool {
    exists|j: int| a <= j < b && bangla_digit(#[trigger] cs[j]) != bangla
}

/// Whether the digits ending at `e` go on with a `.` and another digit.
pub open spec fn has_fraction(cs: Seq<char>, e: int) -> bool {
    peek_at(cs, e) == Some('.') && match peek_at(cs, e + 1) {
        Some(d) => any_digit(d),
        None => false,
    }
}

/// A number literal starting at the digit under `st.i`.
pub open spec fn number(cs: Seq<char>, st: LexSt) -> LexSt {
    let bangla = bangla_digit(cs[st.i]);
    let e1 = digits_end(cs, st.i);
    let frac = has_fraction(cs, e1);
    let e2 = if frac { digits_end(cs, e1 + 1) } else { e1 };
    let mixed = mixed_digits(cs, st.i, e1, bangla) || (frac && mixed_digits(cs, e1 + 1, e2, bangla));
    let text = cs.subrange(st.i, e2);
    let st1 = adv(st, e2 - st.i);
    if mixed {
        with_err(st1, st.line, st.col, MIXED_DIGITS@)
    } else if frac {
        with_tok(st1, KindV::Float(text.map_values(|c: char| to_ascii_digit(c))), st.line, st.col)
    } else if digits_value(text) > i64::MAX {
        with_err(st1, st.line, st.col, NUMBER_RANGE@)
    } else {
        with_tok(st1, KindV::Int(digits_value(text) as i64), st.line, st.col)
    }
}

/// A name or keyword starting under `st.i`; its spelling is taken in NFC,
/// so both encodings of a Bengali letter give the same token.
pub open spec fn word(cs: Seq<char>, st: LexSt) -> LexSt {
    let e = ident_end(cs, st.i);
    let n = nfc(cs.subrange(st.i, e));
    with_tok(adv(st, e - st.i), word_kind(n), st.line, st.col)
}

/// The two-character operator that `c` begins when `next` follows it.
pub open spec fn two_char_op(c: char, next: Option<char>) -> Option<Seq<char>> {
    if next == Some('=') {
        if c == '=' {
            Some("=="@)
        } else if c == '!' {
            Some("!="@)
        } else if c == '<' {
            Some("<="@)
        } else if c == '>' {
            Some(">="@)
        } else if c == '+' {
            Some("+="@)
        } else if c == '-' {
            Some("-="@)
        } else if c == '*' {
            Some("*="@)
        } else if c == '/' {
            Some("/="@)
        } else {
            None
        }
    } else if next == Some('>') && c == '-' {
        Some("->"@)
    } else {
        None
    }
}

/// The one-character operator `c` is, if any.
pub open spec fn one_char_op(c: char) -> Option<Seq<char>> {
    if c == '+' {
        Some("+"@)
    } else if c == '-' {
        Some("-"@)
    } else if c == '*' {
        Some("*"@)
    } else if c == '/' {
        Some("/"@)
    } else if c == '%' {
        Some("%"@)
    } else if c == '=' {
        Some("="@)
    } else if c == '<' {
        Some("<"@)
    } else if c == '>' {
        Some(">"@)
    } else if c == ':' {
        Some(":"@)
    } else if c == ',' {
        Some(","@)
    } else if c == '.' {
        Some("."@)
    } else if c == '(' {
        Some("("@)
    } else if c == ')' {
        Some(")"@)
    } else if c == '[' {
        Some("["@)
    } else if c == ']' {
        Some("]"@)
    } else if c == '{' {
        Some("{"@)
    } else if c == '}' {
        Some("}"@)
    } else {
        None
    }
}

/// The bracket bookkeeping of a one-character operator `c` at `(line, col)`:
/// `(` and `[` are pushed; `)` and `]` pop the last open bracket and report
/// a mismatch when it is not their partner or there is none.
pub open spec fn track_bracket(st: LexSt, c: char, line: int, col: int) -> LexSt {
    if c == '(' || c == '[' {
        LexSt { opens: st.opens.push((c, line, col)), ..st }
    } else if c == ')' || c == ']' {
        let want = if c == ')' { '(' } else { '[' };
        if st.opens.len() > 0 && st.opens.last().0 == want {
            LexSt { opens: st.opens.drop_last(), ..st }
        } else {
            let st1 = LexSt {
                opens: if st.opens.len() > 0 { st.opens.drop_last() } else { st.opens },
                ..st
            };
            with_err(st1, line, col, MISMATCH@ + seq![c] + QUOTE@)
        }
    } else {
        st
    }
}

/// An operator character `c` under `st.i`.
pub open spec fn operator(cs: Seq<char>, st: LexSt, c: char) -> LexSt {
    match two_char_op(c, peek_at(cs, st.i + 1)) {
        Some(o) => adv(with_tok(st, KindV::Op(o), st.line, st.col), 2),
        None => {
            if c == '!' {
                adv(with_err(st, st.line, st.col, BANG@), 1)
            } else {
                match one_char_op(c) {
                    Some(o) => adv(
                        with_tok(track_bracket(st, c, st.line, st.col), KindV::Op(o), st.line, st.col),
                        1,
                    ),
                    None => adv(
                        with_err(st, st.line, st.col, UNEXPECTED@ + seq![c] + QUOTE@),
                        1,
                    ),
                }
            }
        },
    }
}

/// One lexeme (or one piece of layout) from `st.i`, which is inside the input.
pub open spec fn step(cs: Seq<char>, st: LexSt) -> LexSt {
    let c = cs[st.i];
    if c == '\u{FEFF}' {
        LexSt { i: st.i + 1, ..st }
    } else if c == ' ' || c == '\t' || c == '\u{000C}' {
        adv(st, 1)
    } else if c == '\r' {
        let st1 = if peek_at(cs, st.i + 1) == Some('\n') { adv(st, 2) } else { adv(st, 1) };
        newline(st1, st.line, st.col)
    } else if c == '\n' {
        newline(LexSt { i: st.i + 1, ..st }, st.line, st.col)
    } else if c == '/' {
        slash(cs, st)
    } else if c == '"' {
        string_lit(cs, st)
    } else if c == '\'' {
        char_lit(cs, st)
    } else if any_digit(c) {
        number(cs, st)
    } else if ident_start(c) {
        word(cs, st)
    } else {
        operator(cs, st, c)
    }
}

/// Lexemes one after another until the input is used up.
pub open spec fn run(cs: Seq<char>, st: LexSt) -> LexSt
    decreases cs.len() - st.i,
{
    if 0 <= st.i < cs.len() {
        let st1 = step(cs, st);
        if st.i < st1.i <= cs.len() {
            run(cs, st1)
        } else {
            st1
        }
    } else {
        st
    }
}

/// The diagnostic for a bracket still open at the end of the input.
pub open spec fn unclosed_diag(o: (char, int, int)) -> DiagV {
    DiagV { line: o.1, col: o.2, message: QUOTE@ + seq![o.0] + OPEN_AT_END@ }
}

/// The tokens and diagnostics of a whole source text.
pub open spec fn lex_result(cs: Seq<char>) -> (Seq<TokV>, Seq<DiagV>) {
    let st = run(cs, init_state());
    (st.toks, st.diags + st.opens.map_values(|o: (char, int, int)| unclosed_diag(o)))
}

// ---------------------------------------------------------------------------
// Bengali and ASCII numerals
// ---------------------------------------------------------------------------

/// The Bengali digit with the same value as an ASCII one.
pub open spec fn to_bengali(c: char) -> char {
    (((c as u32) - 0x30 + 0x09E6) as u32) as char
}

pub open spec fn all_ascii(ds: Seq<char>) -> bool {
    forall|k: int| 0 <= k < ds.len() ==> ascii_digit(#[trigger] ds[k])
}

proof fn lemma_digits_end_all(cs: Seq<char>, j: int)
    requires
        0 <= j <= cs.len(),
        forall|k: int| 0 <= k < cs.len() ==> any_digit(#[trigger] cs[k]),
    ensures
        digits_end(cs, j) == cs.len(),
    decreases cs.len() - j,
{
    if j < cs.len() {
        lemma_digits_end_all(cs, j + 1);
    }
}

proof fn lemma_same_value(ds: Seq<char>)
    requires
        all_ascii(ds),
    ensures
        digits_value(ds.map_values(|c: char| to_bengali(c))) == digits_value(ds),
    decreases ds.len(),
{
    if ds.len() > 0 {
        let bs = ds.map_values(|c: char| to_bengali(c));
        assert(bs.drop_last() =~= ds.drop_last().map_values(|c: char| to_bengali(c)));
        lemma_same_value(ds.drop_last());
        let c = ds.last();
        assert(ascii_digit(ds[ds.len() - 1]));
        vstd::utf8::char_u32_cast(to_bengali(c), ((c as u32) - 0x30 + 0x09E6) as u32);
        assert(bs.last() == to_bengali(c));
    }
}

/// A number written with Bengali digits (২৫) reads the same as with ASCII
/// digits (25): a text made only of digits gives the same tokens and
/// diagnostics either way.
pub proof fn law_bengali_numerals(ds: Seq<char>)
    requires
        ds.len() > 0,
        all_ascii(ds),
    ensures
        lex_result(ds.map_values(|c: char| to_bengali(c))) == lex_result(ds),
{
    let bs = ds.map_values(|c: char| to_bengali(c));
    assert forall|k: int| 0 <= k < bs.len() implies bangla_digit(#[trigger] bs[k]) by {
        assert(ascii_digit(ds[k]));
        vstd::utf8::char_u32_cast(bs[k], ((ds[k] as u32) - 0x30 + 0x09E6) as u32);
    }
    assert forall|k: int| 0 <= k < bs.len() implies any_digit(#[trigger] bs[k]) by {
        assert(bangla_digit(bs[k]));
    }
    assert forall|k: int| 0 <= k < ds.len() implies any_digit(#[trigger] ds[k]) by {
        assert(ascii_digit(ds[k]));
    }
    lemma_digits_end_all(ds, 0);
    lemma_digits_end_all(bs, 0);
    lemma_same_value(ds);
    assert(!mixed_digits(ds, 0, ds.len() as int, false)) by {
        if mixed_digits(ds, 0, ds.len() as int, false) {
            let j = choose|j: int| 0 <= j < ds.len() && bangla_digit(#[trigger] ds[j]) != false;
            assert(ascii_digit(ds[j]));
        }
    }
    assert(!mixed_digits(bs, 0, bs.len() as int, true)) by {
        if mixed_digits(bs, 0, bs.len() as int, true) {
            let j = choose|j: int| 0 <= j < bs.len() && bangla_digit(#[trigger] bs[j]) != true;
            assert(bangla_digit(bs[j]));
        }
    }
    assert(ascii_digit(ds[0]));
    assert(bangla_digit(bs[0]));
    assert(!bangla_digit(ds[0]));
    assert(ds.subrange(0, ds.len() as int) =~= ds);
    assert(bs.subrange(0, bs.len() as int) =~= bs);
    let s0 = init_state();
    assert(step(ds, s0) == number(ds, s0));
    assert(step(bs, s0) == number(bs, s0));
    assert(number(ds, s0).toks == number(bs, s0).toks);
    assert(number(ds, s0).diags == number(bs, s0).diags);
    assert(number(ds, s0) == number(bs, s0));
    assert(run(ds, s0) == run(ds, step(ds, s0)));
    assert(run(bs, s0) == run(bs, step(bs, s0)));
}

// ---------------------------------------------------------------------------
// Positions
// ---------------------------------------------------------------------------

/// `(l1, c1)` comes no later than `(l2, c2)` in the text.
pub open spec fn pos_le(l1: int, c1: int, l2: int, c2: int) -> bool {
    l1 < l2 || (l1 == l2 && c1 <= c2)
}

/// What has been produced sits at lines and columns from 1 on, the tokens
/// in order of position and none of them after `(l, c)`.
pub open spec fn placed(st: LexSt, l: int, c: int) -> bool {
    &&& forall|k: int|
        0 <= k < st.toks.len() ==> 1 <= (#[trigger] st.toks[k]).line && 1 <= st.toks[k].col && pos_le(
            st.toks[k].line,
            st.toks[k].col,
            l,
            c,
        )
    &&& forall|j: int, k: int|
        #![trigger st.toks[j], st.toks[k]]
        0 <= j < k < st.toks.len() ==> pos_le(st.toks[j].line, st.toks[j].col, st.toks[k].line, st.toks[k].col)
    &&& forall|k: int| 0 <= k < st.diags.len() ==> 1 <= (#[trigger] st.diags[k]).line && 1 <= st.diags[k].col
    &&& forall|k: int| 0 <= k < st.opens.len() ==> 1 <= (#[trigger] st.opens[k]).1 && 1 <= st.opens[k].2
}

/// The lexer stands at a position from `(1, 1)` on, with everything it
/// produced at or before it.
pub open spec fn in_order(st: LexSt) -> bool {
    1 <= st.line && 1 <= st.col && placed(st, st.line, st.col)
}

proof fn lemma_placed_later(st: LexSt, l: int, c: int, l2: int, c2: int)
    requires
        placed(st, l, c),
        pos_le(l, c, l2, c2),
    ensures
        placed(st, l2, c2),
{
}

proof fn lemma_placed_tok(st: LexSt, kind: KindV, l: int, c: int, l2: int, c2: int)
    requires
        placed(st, l, c),
        1 <= l,
        1 <= c,
        pos_le(l, c, l2, c2),
    ensures
        placed(with_tok(st, kind, l, c), l2, c2),
{
    let r = with_tok(st, kind, l, c);
    assert forall|k: int| 0 <= k < r.toks.len() implies 1 <= (#[trigger] r.toks[k]).line && 1 <= r.toks[k].col
        && pos_le(r.toks[k].line, r.toks[k].col, l2, c2) by {
        if k < st.toks.len() {
            assert(r.toks[k] == st.toks[k]);
        }
    }
    assert forall|j: int, k: int| #![trigger r.toks[j], r.toks[k]] 0 <= j < k < r.toks.len() implies pos_le(
        r.toks[j].line,
        r.toks[j].col,
        r.toks[k].line,
        r.toks[k].col,
    ) by {
        assert(r.toks[j] == st.toks[j]);
        if k < st.toks.len() {
            assert(r.toks[k] == st.toks[k]);
        }
    }
}

proof fn lemma_placed_err(st: LexSt, l: int, c: int, m: Seq<char>, l2: int, c2: int)
    requires
        placed(st, l2, c2),
        1 <= l,
        1 <= c,
    ensures
        placed(with_err(st, l, c, m), l2, c2),
{
    let r = with_err(st, l, c, m);
    assert forall|k: int| 0 <= k < r.diags.len() implies 1 <= (#[trigger] r.diags[k]).line && 1 <= r.diags[k].col by {
        if k < st.diags.len() {
            assert(r.diags[k] == st.diags[k]);
        }
    }
}

proof fn lemma_line_comment_end_moves(cs: Seq<char>, j: int)
    ensures
        line_comment_end(cs, j) >= j,
    decreases cs.len() - j,
{
    if 0 <= j < cs.len() && cs[j] != '\n' && cs[j] != '\r' {
        lemma_line_comment_end_moves(cs, j + 1);
    }
}

proof fn lemma_quote_end_moves(cs: Seq<char>, j: int)
    ensures
        quote_end(cs, j) >= j,
    decreases cs.len() - j,
{
    if 0 <= j < cs.len() && cs[j] != '\'' && cs[j] != '\n' && cs[j] != '\r' {
        lemma_quote_end_moves(cs, j + 1);
    }
}

proof fn lemma_hex_end_moves(cs: Seq<char>, j: int, start: int)
    ensures
        hex_end(cs, j, start) >= j,
    decreases cs.len() - j,
{
    if 0 <= j < cs.len() && ascii_hex(cs[j]) && j - start < 6 {
        lemma_hex_end_moves(cs, j + 1, start);
    }
}

proof fn lemma_block_comment_pos(cs: Seq<char>, j: int, line: int, col: int)
    requires
        1 <= line,
        1 <= col,
    ensures
        1 <= block_comment(cs, j, line, col).1,
        1 <= block_comment(cs, j, line, col).2,
        pos_le(line, col, block_comment(cs, j, line, col).1, block_comment(cs, j, line, col).2),
    decreases cs.len() - j,
{
    if 0 <= j < cs.len() && !(cs[j] == '*' && peek_at(cs, j + 1) == Some('/')) {
        if cs[j] == '\n' {
            lemma_block_comment_pos(cs, j + 1, line + 1, 1);
        } else {
            lemma_block_comment_pos(cs, j + 1, line, col + 1);
        }
    }
}

proof fn lemma_unicode_escape_placed(cs: Seq<char>, st: LexSt, sl: int, sc: int, l: int, c: int)
    requires
        placed(st, l, c),
        1 <= sl,
        1 <= sc,
    ensures
        placed(unicode_escape(cs, st, sl, sc).0, l, c),
        unicode_escape(cs, st, sl, sc).0.line == st.line,
        unicode_escape(cs, st, sl, sc).0.col >= st.col,
        unicode_escape(cs, st, sl, sc).0.toks == st.toks,
{
    if peek_at(cs, st.i) != Some('{') {
        lemma_placed_err(st, sl, sc, U_ESCAPE_BRACE@, l, c);
    } else {
        let st1 = adv(st, 1);
        let e = hex_end(cs, st1.i, st1.i);
        lemma_hex_end_moves(cs, st1.i, st1.i);
        let st2 = adv(st1, e - st1.i);
        if e == st1.i || peek_at(cs, e) != Some('}') {
            lemma_placed_err(st2, sl, sc, U_ESCAPE_INVALID@, l, c);
        } else {
            let st3 = adv(st2, 1);
            lemma_placed_err(st3, sl, sc, U_ESCAPE_SCALAR@, l, c);
        }
    }
}

proof fn lemma_escape_placed(cs: Seq<char>, st: LexSt, l: int, c: int)
    requires
        placed(st, l, c),
        1 <= st.line,
        1 <= st.col,
    ensures
        placed(escape(cs, st).0, l, c),
        escape(cs, st).0.line == st.line,
        escape(cs, st).0.col >= st.col,
        escape(cs, st).0.toks == st.toks,
{
    let st1 = adv(st, 1);
    match peek_at(cs, st1.i) {
        None => lemma_placed_err(st1, st.line, st.col, ESCAPE_INCOMPLETE@, l, c),
        Some(e) => {
            let st2 = adv(st1, 1);
            if e == 'u' {
                lemma_unicode_escape_placed(cs, st2, st.line, st.col, l, c);
            } else {
                lemma_placed_err(st2, st.line, st.col, ESCAPE_UNKNOWN@ + seq![e] + QUOTE@, l, c);
            }
        },
    }
}

proof fn lemma_string_body_in_order(cs: Seq<char>, st: LexSt, sl: int, sc: int, s: Seq<char>)
    requires
        1 <= sl,
        1 <= sc,
        placed(st, sl, sc),
        pos_le(sl, sc, st.line, st.col),
        1 <= st.col,
    ensures
        in_order(string_body(cs, st, sl, sc, s)),
    decreases cs.len() - st.i,
{
    match peek_at(cs, st.i) {
        None => {
            lemma_placed_later(st, sl, sc, st.line, st.col);
            lemma_placed_err(st, sl, sc, STRING_UNCLOSED@, st.line, st.col);
        },
        Some(c) => {
            if c == '"' {
                lemma_placed_tok(adv(st, 1), KindV::Str(s), sl, sc, st.line, st.col + 1);
            } else if c == '\n' || c == '\r' {
                lemma_placed_later(st, sl, sc, st.line, st.col);
                lemma_placed_err(st, sl, sc, STRING_NEWLINE@, st.line, st.col);
            } else if c == '\\' {
                let r = escape(cs, st);
                lemma_escape_placed(cs, st, sl, sc);
                let s1 = match r.1 {
                    Some(ch) => s.push(ch),
                    None => s,
                };
                if st.i < r.0.i <= cs.len() {
                    lemma_string_body_in_order(cs, r.0, sl, sc, s1);
                } else {
                    lemma_placed_later(r.0, sl, sc, r.0.line, r.0.col);
                }
            } else {
                lemma_string_body_in_order(cs, adv(st, 1), sl, sc, s.push(c));
            }
        },
    }
}

proof fn lemma_skip_char_rest(cs: Seq<char>, st: LexSt, l: int, c: int)
    requires
        placed(st, l, c),
    ensures
        placed(skip_char_rest(cs, st), l, c),
        skip_char_rest(cs, st).line == st.line,
        skip_char_rest(cs, st).col >= st.col,
{
    lemma_quote_end_moves(cs, st.i);
}

proof fn lemma_char_lit_in_order(cs: Seq<char>, st: LexSt)
    requires
        in_order(st),
    ensures
        in_order(char_lit(cs, st)),
{
    let sl = st.line;
    let sc = st.col;
    let st1 = adv(st, 1);
    match peek_at(cs, st1.i) {
        None => {
            lemma_placed_err(st1, sl, sc, CHAR_UNCLOSED@, st1.line, st1.col);
        },
        Some(c) => {
            let r: (LexSt, Option<char>) = if c == '\n' || c == '\r' {
                (with_err(st1, sl, sc, CHAR_NEWLINE@), None)
            } else if c == '\\' {
                escape(cs, st1)
            } else {
                (adv(st1, 1), Some(c))
            };
            if c == '\n' || c == '\r' {
                lemma_placed_err(st1, sl, sc, CHAR_NEWLINE@, sl, sc);
            } else if c == '\\' {
                lemma_escape_placed(cs, st1, sl, sc);
            }
            let st2 = r.0;
            assert(placed(st2, sl, sc));
            assert(st2.line == sl && st2.col >= sc);
            match r.1 {
                None => {
                    lemma_skip_char_rest(cs, st2, sl, sc);
                    let f = skip_char_rest(cs, st2);
                    lemma_placed_later(f, sl, sc, f.line, f.col);
                },
                Some(ch) => {
                    if peek_at(cs, st2.i) == Some('\'') {
                        lemma_placed_tok(adv(st2, 1), KindV::Chr(ch), sl, sc, st2.line, st2.col + 1);
                    } else {
                        let e = quote_end(cs, st2.i);
                        lemma_quote_end_moves(cs, st2.i);
                        let st3 = adv(st2, e - st2.i);
                        lemma_placed_later(st3, sl, sc, st3.line, st3.col + 1);
                        lemma_placed_err(adv(st3, 1), sl, sc, CHAR_ONE@, st3.line, st3.col + 1);
                        lemma_placed_err(st3, sl, sc, CHAR_QUOTE_MISSING@, st3.line, st3.col + 1);
                        lemma_placed_later(st3, sl, sc, st3.line, st3.col);
                        lemma_placed_err(st3, sl, sc, CHAR_QUOTE_MISSING@, st3.line, st3.col);
                    }
                },
            }
        },
    }
}

proof fn lemma_step_in_order(cs: Seq<char>, st: LexSt)
    requires
        in_order(st),
        0 <= st.i < cs.len(),
    ensures
        in_order(step(cs, st)),
{
    let c = cs[st.i];
    let (l, k) = (st.line, st.col);
    if c == '\u{FEFF}' {
    } else if c == ' ' || c == '\t' || c == '\u{000C}' {
        lemma_placed_later(st, l, k, l, k + 1);
    } else if c == '\r' || c == '\n' {
        let st1 = if c == '\n' {
            LexSt { i: st.i + 1, ..st }
        } else if peek_at(cs, st.i + 1) == Some('\n') {
            adv(st, 2)
        } else {
            adv(st, 1)
        };
        assert(placed(st1, l, k));
        lemma_placed_tok(st1, KindV::Newline, l, k, l + 1, 1);
        lemma_placed_later(st1, l, k, l + 1, 1);
    } else if c == '/' {
        if peek_at(cs, st.i + 1) == Some('/') {
            lemma_line_comment_end_moves(cs, st.i + 2);
            let e = line_comment_end(cs, st.i + 2);
            lemma_placed_later(st, l, k, l, k + (e - st.i));
        } else if peek_at(cs, st.i + 1) == Some('*') {
            let r = block_comment(cs, st.i + 2, l, k + 2);
            lemma_block_comment_pos(cs, st.i + 2, l, k + 2);
            lemma_placed_later(st, l, k, r.1, r.2);
            let st1 = LexSt { i: r.0, line: r.1, col: r.2, ..st };
            assert(placed(st1, r.1, r.2));
            lemma_placed_err(st1, l, k, COMMENT_UNCLOSED@, r.1, r.2);
        } else {
            lemma_placed_tok(st, KindV::Op("/"@), l, k, l, k + 1);
        }
    } else if c == '"' {
        lemma_string_body_in_order(cs, adv(st, 1), l, k, seq![]);
    } else if c == '\'' {
        lemma_char_lit_in_order(cs, st);
    } else if any_digit(c) {
        let e1 = digits_end(cs, st.i);
        lemma_digits_end_moves(cs, st.i);
        lemma_digits_end_moves(cs, e1 + 1);
        let frac = has_fraction(cs, e1);
        let e2 = if frac { digits_end(cs, e1 + 1) } else { e1 };
        let st1 = adv(st, e2 - st.i);
        let text = cs.subrange(st.i, e2);
        lemma_placed_later(st, l, k, l, k + (e2 - st.i));
        lemma_placed_err(st1, l, k, MIXED_DIGITS@, l, k + (e2 - st.i));
        lemma_placed_err(st1, l, k, NUMBER_RANGE@, l, k + (e2 - st.i));
        lemma_placed_tok(st1, KindV::Float(text.map_values(|c: char| to_ascii_digit(c))), l, k, l, k + (e2 - st.i));
        lemma_placed_tok(st1, KindV::Int(digits_value(text) as i64), l, k, l, k + (e2 - st.i));
    } else if ident_start(c) {
        let e = ident_end(cs, st.i);
        lemma_ident_end_moves(cs, st.i);
        let n = nfc(cs.subrange(st.i, e));
        lemma_placed_tok(adv(st, e - st.i), word_kind(n), l, k, l, k + (e - st.i));
    } else {
        match two_char_op(c, peek_at(cs, st.i + 1)) {
            Some(o) => {
                lemma_placed_tok(st, KindV::Op(o), l, k, l, k + 2);
            },
            None => {
                if c == '!' {
                    lemma_placed_later(st, l, k, l, k + 1);
                    lemma_placed_err(st, l, k, BANG@, l, k + 1);
                } else {
                    match one_char_op(c) {
                        Some(o) => {
                            let t = track_bracket(st, c, l, k);
                            lemma_placed_later(st, l, k, l, k);
                            if c == '(' || c == '[' {
                                assert forall|q: int| 0 <= q < t.opens.len() implies 1 <= (#[trigger] t.opens[q]).1
                                    && 1 <= t.opens[q].2 by {
                                    if q < st.opens.len() {
                                        assert(t.opens[q] == st.opens[q]);
                                    }
                                }
                                assert(placed(t, l, k));
                            } else if c == ')' || c == ']' {
                                let want = if c == ')' { '(' } else { '[' };
                                let st1 = LexSt {
                                    opens: if st.opens.len() > 0 { st.opens.drop_last() } else { st.opens },
                                    ..st
                                };
                                assert forall|q: int| 0 <= q < st1.opens.len() implies 1 <= (#[trigger] st1.opens[q]).1
                                    && 1 <= st1.opens[q].2 by {
                                    assert(st1.opens[q] == st.opens[q]);
                                }
                                assert(placed(st1, l, k));
                                lemma_placed_err(st1, l, k, MISMATCH@ + seq![c] + QUOTE@, l, k);
                                assert(placed(t, l, k));
                            }
                            lemma_placed_tok(t, KindV::Op(o), l, k, l, k + 1);
                        },
                        None => {
                            lemma_placed_later(st, l, k, l, k + 1);
                            lemma_placed_err(st, l, k, UNEXPECTED@ + seq![c] + QUOTE@, l, k + 1);
                        },
                    }
                }
            },
        }
    }
}

proof fn lemma_run_in_order(cs: Seq<char>, st: LexSt)
    requires
        in_order(st),
    ensures
        in_order(run(cs, st)),
    decreases cs.len() - st.i,
{
    if 0 <= st.i < cs.len() {
        lemma_step_in_order(cs, st);
        let st1 = step(cs, st);
        if st.i < st1.i <= cs.len() {
            lemma_run_in_order(cs, st1);
        }
    }
}

/// Every token and every diagnostic of a text stands at a line and a
/// column counted from 1, and the tokens come in the order of their
/// positions in the text.
pub proof fn law_positions_in_order(cs: Seq<char>)
    ensures
        forall|k: int|
            0 <= k < lex_result(cs).0.len() ==> 1 <= (#[trigger] lex_result(cs).0[k]).line && 1
                <= lex_result(cs).0[k].col,
        forall|j: int, k: int|
            #![trigger lex_result(cs).0[j], lex_result(cs).0[k]]
            0 <= j < k < lex_result(cs).0.len() ==> pos_le(
                lex_result(cs).0[j].line,
                lex_result(cs).0[j].col,
                lex_result(cs).0[k].line,
                lex_result(cs).0[k].col,
            ),
        forall|k: int|
            0 <= k < lex_result(cs).1.len() ==> 1 <= (#[trigger] lex_result(cs).1[k]).line && 1
                <= lex_result(cs).1[k].col,
{
    lemma_run_in_order(cs, init_state());
    let st = run(cs, init_state());
    let ds = st.diags + st.opens.map_values(|o: (char, int, int)| unclosed_diag(o));
    assert forall|k: int| 0 <= k < ds.len() implies 1 <= (#[trigger] ds[k]).line && 1 <= ds[k].col by {
        if k < st.diags.len() {
            assert(ds[k] == st.diags[k]);
        } else {
            assert(ds[k] == unclosed_diag(st.opens[k - st.diags.len()]));
        }
    }
}

/// A `-` followed by `>` is the one operator `->`: the lexer gives a
/// single `->` token at the position of the `-`, reports nothing and goes
/// on after the `>`. The same holds of the other two-character operators
/// that end in `=`.
pub proof fn law_arrow_is_one_operator(cs: Seq<char>, st: LexSt)
    requires
        0 <= st.i,
        st.i + 1 < cs.len(),
        cs[st.i] == '-',
        cs[st.i + 1] == '>' || cs[st.i + 1] == '=',
    ensures
        ({
            let r = operator(cs, st, '-');
            let o = seq!['-', cs[st.i + 1]];
            &&& r.toks == st.toks.push(TokV { kind: KindV::Op(o), line: st.line, col: st.col })
            &&& r.diags == st.diags
            &&& r.opens == st.opens
            &&& r.i == st.i + 2
            &&& r.line == st.line
            &&& r.col == st.col + 2
        }),
        !alphabetic('-') ==> step(cs, st) == operator(cs, st, '-'),
{
    reveal_strlit("->");
    reveal_strlit("-=");
    assert(peek_at(cs, st.i + 1) == Some(cs[st.i + 1]));
    assert("->"@ =~= seq!['-', '>']);
    assert("-="@ =~= seq!['-', '=']);
    if cs[st.i + 1] == '>' {
        assert(two_char_op('-', Some('>')) == Some(seq!['-', '>']));
    } else {
        assert(two_char_op('-', Some('=')) == Some(seq!['-', '=']));
    }
}

} // verus!
