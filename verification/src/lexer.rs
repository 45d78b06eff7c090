//! The Kolom lexer: source text to tokens, with Bengali-numeral line and
//! column numbers in its messages.
//!
//! Digits may be ASCII (`25`) or Bengali (`২৫`) but not both in one number;
//! names are compared in NFC, so the two encodings of `য়`, `ড়` and `ঢ়`
//! lex alike, while text literals keep exactly the characters written.

use vstd::prelude::*;
use crate::text::{is_scalar, push_char, push_str, string_from, chars_of, chars_equal, char_from_u32, is_alphabetic, to_nfc};
use crate::lexer_spec::{
    KindV, TokV, DiagV, LexSt, ascii_digit, bangla_digit, bangla_block, ident_start, ident_part,
    any_digit, ascii_hex, hex_val, digit_val, to_ascii_digit, peek_at, adv, with_err, with_tok,
    newline, line_comment_end, block_comment, slash, hex_end, hex_value, unicode_escape, escape,
    string_body, string_lit, quote_end, skip_char_rest, char_lit, digits_end, mixed_digits,
    has_fraction, digits_value, number, ident_end, word, word_kind, is_keyword, two_char_op,
    one_char_op, track_bracket, operator, step, run, init_state, unclosed_diag, lex_result,
    lemma_block_comment_moves, lemma_digits_end_moves, lemma_ident_end_moves, lemma_mixed_extend,
    lemma_mixed_empty, lemma_digits_prefix, lemma_digits_nonneg, lemma_digits_run,
};
use crate::messages::{
    COMMENT_UNCLOSED, ESCAPE_INCOMPLETE, ESCAPE_UNKNOWN, U_ESCAPE_BRACE, U_ESCAPE_INVALID, U_ESCAPE_SCALAR, STRING_UNCLOSED, STRING_NEWLINE, CHAR_UNCLOSED, CHAR_NEWLINE, CHAR_ONE, CHAR_QUOTE_MISSING, MIXED_DIGITS, NUMBER_RANGE, BANG, MISMATCH, UNEXPECTED, OPEN_AT_END, QUOTE,
};

verus! {

/// A problem found in the source, at its line and column.
#[derive(Debug, Clone)]
pub struct Diagnostic {
    pub line: u32,
    pub col: u32,
    pub message: String,
}

/// A number literal. A decimal fraction is kept as its ASCII spelling
/// (`৩.৫` becomes `3.5`), which is what a float parser reads.
#[derive(Debug, Clone, PartialEq)]
pub enum NumTok {
    Int(i64),
    Float(String),
}

#[derive(Debug, Clone, PartialEq)]
pub enum TokenKind {
    Ident(String),
    Kw(&'static str),
    Num(NumTok),
    Str(String),
    Chr(char),
    Newline,
    Op(&'static str),
}

#[derive(Debug, Clone, PartialEq)]
pub struct Token {
    pub kind: TokenKind,
    pub line: u32,
    pub col: u32,
}

pub const KEYWORDS: [&'static str; 40] = [
    "অ্যাপ",
    "ফাংশন",
    "ধরি",
    "ধ্রুবক",
    "ফেরাও",
    "যদি",
    "নাহলে",
    "লুপ",
    "যতক্ষণ",
    "প্রতি",
    "থামো",
    "চলো",
    "ইম্পোর্ট",
    "সত্য",
    "মিথ্যা",
    "ফাঁকা",
    "এবং",
    "অথবা",
    "না",
    "শেয়ার",
    "ডিসপ্লে",
    "ক্যানভাস",
    "টেক্সট",
    "বাটন",
    "ইনপুট",
    "ছবি",
    "সারি",
    "কলাম",
    "কার্ড",
    "ডায়ালগ",
    "স্ক্রল",
    "সংখ্যা",
    "দশমিক",
    "লেখা",
    "সত্যতা",
    "অক্ষর",
    // `ফাঁকা` is both the null literal (listed above with সত্য/মিথ্যা) and the
    // void type name, so it is deliberately listed once and used in both roles.
    "ম্যাপ",
    "ডাটা",
    "চেষ্টা",
    "ধরো",
];

impl TokenKind {
    pub open spec fn kind_v(&self) -> KindV {
        match self {
            TokenKind::Ident(s) => KindV::Ident(s@),
            TokenKind::Kw(k) => KindV::Kw(k@),
            TokenKind::Num(NumTok::Int(v)) => KindV::Int(*v),
            TokenKind::Num(NumTok::Float(t)) => KindV::Float(t@),
            TokenKind::Str(s) => KindV::Str(s@),
            TokenKind::Chr(c) => KindV::Chr(*c),
            TokenKind::Newline => KindV::Newline,
            TokenKind::Op(o) => KindV::Op(o@),
        }
    }
}

impl View for Token {
    type V = TokV;

    open spec fn view(&self) -> TokV {
        TokV { kind: self.kind.kind_v(), line: self.line as int, col: self.col as int }
    }
}

impl View for Diagnostic {
    type V = DiagV;

    open spec fn view(&self) -> DiagV {
        DiagV { line: self.line as int, col: self.col as int, message: self.message@ }
    }
}

pub open spec fn toks_v(ts: Seq<Token>) -> Seq<TokV> {
    ts.map_values(|t: Token| t@)
}

pub open spec fn diags_v(ds: Seq<Diagnostic>) -> Seq<DiagV> {
    ds.map_values(|d: Diagnostic| d@)
}

pub open spec fn opens_v(os: Seq<(char, u32, u32)>) -> Seq<(char, int, int)> {
    os.map_values(|o: (char, u32, u32)| (o.0, o.1 as int, o.2 as int))
}

// ---------------------------------------------------------------------------
// Bengali numerals and error text
// ---------------------------------------------------------------------------

/// The decimal digits of `n`, most significant first, as ASCII characters.
pub open spec fn decimal(n: nat) -> Seq<char>
    decreases n,
{
    if n < 10 {
        seq![((n + 0x30) as u8) as char]
    } else {
        decimal(n / 10).push((((n % 10) + 0x30) as u8) as char)
    }
}

/// A digit character written in Bengali.
pub open spec fn bengali_digit(c: char) -> char {
    if ascii_digit(c) {
        ((c as u32) - 0x30 + 0x09E6) as char
    } else {
        c
    }
}

/// `n` in decimal with Bengali digits.
pub open spec fn bn_digits(n: nat) -> Seq<char> {
    decimal(n).map_values(|c: char| bengali_digit(c))
}

/// The decimal digits of `n` as ASCII characters.
pub fn decimal_chars(n: u32) -> (v: Vec<char>)
    ensures
        v@ == decimal(n as nat),
    decreases n,
{
    if n < 10 {
        let mut v: Vec<char> = Vec::new();
        v.push(((n as u8) + 0x30u8) as char);
        v
    } else {
        let mut v = decimal_chars(n / 10);
        v.push((((n % 10) as u8) + 0x30u8) as char);
        v
    }
}

/// A Bengali digit, `০` to `৯`.
pub open spec fn is_bengali_digit(c: char) -> bool {
    0x09E6 <= (c as u32) <= 0x09EF
}

/// The number that a run of Bengali digits spells.
pub open spec fn bengali_value(s: Seq<char>) -> int
    decreases s.len(),
{
    if s.len() == 0 {
        0
    } else {
        bengali_value(s.drop_last()) * 10 + ((s.last() as u32) - 0x09E6)
    }
}

/// A number written with Bengali digits has as many digits as in ASCII,
/// every one of them is a Bengali digit, and they read back as the number.
pub proof fn law_bengali_digits_read_back(n: nat)
    ensures
        bn_digits(n).len() == decimal(n).len(),
        forall|i: int| 0 <= i < bn_digits(n).len() ==> is_bengali_digit(#[trigger] bn_digits(n)[i]),
        bengali_value(bn_digits(n)) == n,
    decreases n,
{
    let d = ((n % 10) + 0x30) as u8;
    let c = d as char;
    assert((c as u32) == d as u32);
    let v = ((c as u32) - 0x30 + 0x09E6) as u32;
    assert(((v as char) as u32) == v);
    assert(ascii_digit(c));
    assert((bengali_digit(c) as u32) - 0x09E6 == n % 10);
    if n < 10 {
        assert(decimal(n) == seq![c]);
        assert(bn_digits(n) =~= seq![bengali_digit(c)]);
        assert(bn_digits(n).drop_last() =~= Seq::<char>::empty());
        assert(bengali_value(bn_digits(n).drop_last()) == 0);
    } else {
        law_bengali_digits_read_back(n / 10);
        assert(decimal(n) == decimal(n / 10).push(c));
        assert(bn_digits(n) =~= bn_digits(n / 10).push(bengali_digit(c)));
        assert(bn_digits(n).drop_last() =~= bn_digits(n / 10));
        assert(bn_digits(n).last() == bengali_digit(c));
        assert(bengali_value(bn_digits(n)) == bengali_value(bn_digits(n / 10)) * 10 + n % 10);
        assert((n / 10) * 10 + n % 10 == n) by (nonlinear_arith);
        assert forall|i: int| 0 <= i < bn_digits(n).len() implies is_bengali_digit(#[trigger] bn_digits(n)[i]) by {
            if i < bn_digits(n / 10).len() {
                assert(bn_digits(n)[i] == bn_digits(n / 10)[i]);
            }
        }
    }
}

/// `n` written with Bengali digits: `১২৩` for 123.
pub fn bn_num(n: u32) -> (s: String)
    ensures
        s@ == bn_digits(n as nat),
{
    let ds = decimal_chars(n);
    let mut out: Vec<char> = Vec::new();
    let mut i: usize = 0;
    while i < ds.len()
        invariant
            i <= ds.len(),
            ds@ == decimal(n as nat),
            out@ == ds@.take(i as int).map_values(|c: char| bengali_digit(c)),
        decreases ds.len() - i,
    {
        let c = ds[i];
        let u = c as u32;
        let b = if 0x30 <= u && u <= 0x39 {
            let v: u32 = u - 0x30 + 0x09E6;
            assert(is_scalar(v as int));
            match char_from_u32(v) {
                Some(x) => x,
                None => c,
            }
        } else {
            c
        };
        out.push(b);
        assert(ds@.take(i as int + 1).map_values(|c: char| bengali_digit(c)) =~= ds@.take(
            i as int,
        ).map_values(|c: char| bengali_digit(c)).push(bengali_digit(ds@[i as int])));
        i += 1;
    }
    assert(ds@.take(ds.len() as int) =~= ds@);
    string_from(&out)
}

/// The text of an error report: `prefix: file:line:col`, a blank line, then
/// the message, with line and column in Bengali digits.
pub open spec fn error_text(prefix: Seq<char>, file: Seq<char>, line: nat, col: nat, msg: Seq<char>) -> Seq<char> {
    prefix + ": "@ + file + ":"@ + bn_digits(line) + ":"@ + bn_digits(col) + "\n\n"@ + msg
}

/// Formats an error report (see `error_text`).
pub fn format_error(prefix: &str, file: &str, line: u32, col: u32, msg: &str) -> (s: String)
    ensures
        s@ == error_text(prefix@, file@, line as nat, col as nat, msg@),
{
    let mut s = String::new();
    push_str(&mut s, prefix);
    push_str(&mut s, ": ");
    push_str(&mut s, file);
    push_str(&mut s, ":");
    let l = bn_num(line);
    push_str(&mut s, l.as_str());
    push_str(&mut s, ":");
    let c = bn_num(col);
    push_str(&mut s, c.as_str());
    push_str(&mut s, "\n\n");
    push_str(&mut s, msg);
    s
}

// ---------------------------------------------------------------------------
// Character classes
// ---------------------------------------------------------------------------

fn is_bangla_digit(c: char) -> (b: bool)
    ensures
        b == bangla_digit(c),
{
    let u = c as u32;
    0x09E6 <= u && u <= 0x09EF
}

fn is_bangla_block(c: char) -> (b: bool)
    ensures
        b == bangla_block(c),
{
    let u = c as u32;
    0x0980 <= u && u <= 0x09FF
}

fn is_ident_start(c: char) -> (b: bool)
    ensures
        b == ident_start(c),
{
    c == '_' || is_alphabetic(c)
}

fn is_ident_part(c: char) -> (b: bool)
    ensures
        b == ident_part(c),
{
    is_ident_start(c) || is_any_digit(c) || is_bangla_block(c) || c == '\u{200C}' || c == '\u{200D}'
}

fn is_any_digit(c: char) -> (b: bool)
    ensures
        b == any_digit(c),
{
    let u = c as u32;
    (0x30 <= u && u <= 0x39) || is_bangla_digit(c)
}

pub(crate) fn is_hex_digit(c: char) -> (b: bool)
    ensures
        b == ascii_hex(c),
{
    let u = c as u32;
    (0x30 <= u && u <= 0x39) || (0x41 <= u && u <= 0x46) || (0x61 <= u && u <= 0x66)
}

pub(crate) fn hex_digit_value(c: char) -> (v: u32)
    requires
        ascii_hex(c),
    ensures
        v == hex_val(c),
        v < 16,
{
    let u = c as u32;
    if 0x30 <= u && u <= 0x39 {
        u - 0x30
    } else if 0x41 <= u && u <= 0x46 {
        u - 0x41 + 10
    } else {
        u - 0x61 + 10
    }
}

fn digit_value(c: char) -> (v: i64)
    requires
        any_digit(c),
    ensures
        v == digit_val(c),
        0 <= v <= 9,
{
    let u = c as u32;
    if 0x30 <= u && u <= 0x39 {
        (u - 0x30) as i64
    } else {
        (u - 0x09E6) as i64
    }
}

fn digit_to_ascii(c: char) -> (r: char)
    ensures
        r == to_ascii_digit(c),
{
    if is_bangla_digit(c) {
        (((c as u32) - 0x09E6) as u8 + 0x30u8) as char
    } else {
        c
    }
}

/// A bound on the value of `k` hex digits.
spec fn hex_cap(k: int) -> int {
    if k <= 0 {
        1
    } else if k == 1 {
        0x10
    } else if k == 2 {
        0x100
    } else if k == 3 {
        0x1000
    } else if k == 4 {
        0x10000
    } else if k == 5 {
        0x100000
    } else {
        0x1000000
    }
}

/// A message made of `prefix`, the character `c`, and a closing quote.
fn message_with(prefix: &str, c: char) -> (s: String)
    ensures
        s@ == prefix@ + seq![c] + QUOTE@,
{
    let mut s = String::new();
    push_str(&mut s, prefix);
    push_char(&mut s, c);
    push_str(&mut s, QUOTE);
    s
}

} // verus!

verus! {

// ---------------------------------------------------------------------------
// The lexer proper
// ---------------------------------------------------------------------------

struct Lx {
    i: usize,
    line: u32,
    col: u32,
    toks: Vec<Token>,
    diags: Vec<Diagnostic>,
    opens: Vec<(char, u32, u32)>,
}

proof fn lemma_toks_push(ts: Seq<Token>, t: Token)
    ensures
        toks_v(ts.push(t)) == toks_v(ts).push(t@),
{
    assert(toks_v(ts.push(t)) =~= toks_v(ts).push(t@));
}

proof fn lemma_diags_push(ds: Seq<Diagnostic>, d: Diagnostic)
    ensures
        diags_v(ds.push(d)) == diags_v(ds).push(d@),
{
    assert(diags_v(ds.push(d)) =~= diags_v(ds).push(d@));
}

proof fn lemma_opens_push(os: Seq<(char, u32, u32)>, o: (char, u32, u32))
    ensures
        opens_v(os.push(o)) == opens_v(os).push((o.0, o.1 as int, o.2 as int)),
{
    assert(opens_v(os.push(o)) =~= opens_v(os).push((o.0, o.1 as int, o.2 as int)));
}

proof fn lemma_opens_drop(os: Seq<(char, u32, u32)>)
    requires
        os.len() > 0,
    ensures
        opens_v(os.drop_last()) == opens_v(os).drop_last(),
        opens_v(os).last() == (os.last().0, os.last().1 as int, os.last().2 as int),
{
    assert(opens_v(os.drop_last()) =~= opens_v(os).drop_last());
}

impl Lx {
    spec fn st(&self) -> LexSt {
        LexSt {
            i: self.i as int,
            line: self.line as int,
            col: self.col as int,
            toks: toks_v(self.toks@),
            diags: diags_v(self.diags@),
            opens: opens_v(self.opens@),
        }
    }

    /// Positions stay within what has been read, so they fit in `u32`
    /// when the input does.
    spec fn wf(&self, n: int) -> bool {
        &&& n < u32::MAX
        &&& self.i <= n
        &&& 1 <= self.line <= self.i + 1
        &&& 1 <= self.col <= self.i + 1
    }

    fn peek(&self, cs: &Vec<char>) -> (r: Option<char>)
        ensures
            r == peek_at(cs@, self.i as int),
    {
        if self.i < cs.len() {
            Some(cs[self.i])
        } else {
            None
        }
    }

    fn peek2(&self, cs: &Vec<char>) -> (r: Option<char>)
        requires
            self.i < usize::MAX,
        ensures
            r == peek_at(cs@, self.i + 1),
    {
        if self.i + 1 < cs.len() {
            Some(cs[self.i + 1])
        } else {
            None
        }
    }

    fn adv(&mut self, cs: &Vec<char>, n: usize)
        requires
            old(self).wf(cs@.len() as int),
            old(self).i + n <= cs@.len(),
        ensures
            final(self).wf(cs@.len() as int),
            final(self).st() == adv(old(self).st(), n as int),
    {
        self.i = self.i + n;
        self.col = self.col + n as u32;
    }

    fn err(&mut self, line: u32, col: u32, message: String)
        ensures
            final(self).st() == with_err(old(self).st(), line as int, col as int, message@),
            final(self).i == old(self).i,
            final(self).line == old(self).line,
            final(self).col == old(self).col,
    {
        let d = Diagnostic { line, col, message };
        proof {
            lemma_diags_push(self.diags@, d);
        }
        self.diags.push(d);
    }

    fn push_tok(&mut self, kind: TokenKind, line: u32, col: u32)
        ensures
            final(self).st() == with_tok(old(self).st(), kind.kind_v(), line as int, col as int),
            final(self).i == old(self).i,
            final(self).line == old(self).line,
            final(self).col == old(self).col,
    {
        let t = Token { kind, line, col };
        proof {
            lemma_toks_push(self.toks@, t);
        }
        self.toks.push(t);
    }

    fn emit_newline(&mut self, cs: &Vec<char>, line: u32, col: u32)
        requires
            old(self).wf(cs@.len() as int),
            old(self).line <= old(self).i,
        ensures
            final(self).wf(cs@.len() as int),
            final(self).st() == newline(old(self).st(), line as int, col as int),
    {
        if self.opens.len() == 0 {
            self.push_tok(TokenKind::Newline, line, col);
        }
        self.line = self.line + 1;
        self.col = 1;
        assert(self.st() =~= newline(old(self).st(), line as int, col as int));
    }

    fn slash(&mut self, cs: &Vec<char>)
        requires
            old(self).wf(cs@.len() as int),
            old(self).i < cs@.len(),
        ensures
            final(self).wf(cs@.len() as int),
            final(self).i > old(self).i,
            final(self).st() == slash(cs@, old(self).st()),
    {
        let ghost st0 = self.st();
        let next = self.peek2(cs);
        if next == Some('/') {
            self.adv(cs, 2);
            loop
                invariant
                    self.wf(cs@.len() as int),
                    st0.i + 2 <= self.i <= cs@.len(),
                    self.st() == (LexSt { i: self.i as int, col: st0.col + (self.i - st0.i), ..st0 }),
                    line_comment_end(cs@, self.i as int) == line_comment_end(cs@, st0.i + 2),
                ensures
                    self.wf(cs@.len() as int),
                    self.st() == (LexSt { i: self.i as int, col: st0.col + (self.i - st0.i), ..st0 }),
                    line_comment_end(cs@, st0.i + 2) == self.i,
                    self.i >= st0.i + 2,
                decreases cs@.len() - self.i,
            {
                if self.i < cs.len() && cs[self.i] != '\n' && cs[self.i] != '\r' {
                    self.adv(cs, 1);
                } else {
                    break;
                }
            }
            assert(self.st() == slash(cs@, st0));
        } else if next == Some('*') {
            let sl = self.line;
            let sc = self.col;
            self.adv(cs, 2);
            let ghost r = block_comment(cs@, st0.i + 2, st0.line, st0.col + 2);
            proof {
                lemma_block_comment_moves(cs@, st0.i + 2, st0.line, st0.col + 2);
            }
            let mut closed = false;
            loop
                invariant_except_break
                    self.wf(cs@.len() as int),
                    st0.i + 2 <= self.i <= cs@.len(),
                    self.st() == (LexSt {
                        i: self.i as int,
                        line: self.line as int,
                        col: self.col as int,
                        ..st0
                    }),
                    block_comment(cs@, self.i as int, self.line as int, self.col as int) == r,
                    !closed,
                ensures
                    self.wf(cs@.len() as int),
                    self.st() == (LexSt { i: r.0, line: r.1, col: r.2, ..st0 }),
                    closed == r.3,
                decreases cs@.len() - self.i,
            {
                if self.i >= cs.len() {
                    assert(block_comment(cs@, self.i as int, self.line as int, self.col as int)
                        == (self.i as int, self.line as int, self.col as int, false));
                    break;
                }
                let c = cs[self.i];
                if c == '*' && self.peek2(cs) == Some('/') {
                    assert(block_comment(cs@, self.i as int, self.line as int, self.col as int)
                        == (self.i + 2, self.line + 2 - 2 + 0, self.col + 2, true));
                    self.adv(cs, 2);
                    closed = true;
                    break;
                }
                if c == '\n' {
                    self.line = self.line + 1;
                    self.col = 1;
                } else {
                    self.col = self.col + 1;
                }
                self.i = self.i + 1;
            }
            if !closed {
                self.err(sl, sc, COMMENT_UNCLOSED.to_owned());
            }
            assert(self.st() == slash(cs@, st0));
        } else {
            let l = self.line;
            let c = self.col;
            self.push_tok(TokenKind::Op("/"), l, c);
            self.adv(cs, 1);
        }
    }

    fn unicode_escape(&mut self, cs: &Vec<char>, sl: u32, sc: u32) -> (r: Option<char>)
        requires
            old(self).wf(cs@.len() as int),
        ensures
            final(self).wf(cs@.len() as int),
            final(self).i >= old(self).i,
            (final(self).st(), r) == unicode_escape(cs@, old(self).st(), sl as int, sc as int),
    {
        let ghost st0 = self.st();
        if self.peek(cs) != Some('{') {
            self.err(sl, sc, U_ESCAPE_BRACE.to_owned());
            return None;
        }
        self.adv(cs, 1);
        let start = self.i;
        let ghost st1 = self.st();
        let mut v: u32 = 0;
        loop
            invariant_except_break
                self.wf(cs@.len() as int),
                start <= self.i <= cs@.len(),
                self.i - start <= 6,
                self.st() == adv(st1, self.i - start),
                hex_end(cs@, self.i as int, start as int) == hex_end(cs@, start as int, start as int),
                v == hex_value(cs@.subrange(start as int, self.i as int)),
                v < hex_cap(self.i - start),
            ensures
                self.wf(cs@.len() as int),
                start <= self.i <= cs@.len(),
                self.st() == adv(st1, self.i - start),
                hex_end(cs@, start as int, start as int) == self.i,
                v == hex_value(cs@.subrange(start as int, self.i as int)),
            decreases cs@.len() - self.i,
        {
            if self.i < cs.len() && is_hex_digit(cs[self.i]) && self.i - start < 6 {
                let d = hex_digit_value(cs[self.i]);
                assert(cs@.subrange(start as int, self.i + 1).drop_last()
                    =~= cs@.subrange(start as int, self.i as int));
                v = v * 16 + d;
                self.adv(cs, 1);
            } else {
                break;
            }
        }
        if self.i == start || self.peek(cs) != Some('}') {
            self.err(sl, sc, U_ESCAPE_INVALID.to_owned());
            return None;
        }
        self.adv(cs, 1);
        match char_from_u32(v) {
            Some(ch) => Some(ch),
            None => {
                self.err(sl, sc, U_ESCAPE_SCALAR.to_owned());
                None
            },
        }
    }

    fn escape_char(&mut self, cs: &Vec<char>) -> (r: Option<char>)
        requires
            old(self).wf(cs@.len() as int),
            old(self).i < cs@.len(),
        ensures
            final(self).wf(cs@.len() as int),
            final(self).i > old(self).i,
            (final(self).st(), r) == escape(cs@, old(self).st()),
    {
        let el = self.line;
        let ec = self.col;
        self.adv(cs, 1);
        let e = match self.peek(cs) {
            Some(c) => c,
            None => {
                self.err(el, ec, ESCAPE_INCOMPLETE.to_owned());
                return None;
            },
        };
        self.adv(cs, 1);
        if e == 'n' {
            Some('\n')
        } else if e == 't' {
            Some('\t')
        } else if e == 'r' {
            Some('\r')
        } else if e == '\\' {
            Some('\\')
        } else if e == '"' {
            Some('"')
        } else if e == '\'' {
            Some('\'')
        } else if e == 'u' {
            self.unicode_escape(cs, el, ec)
        } else {
            self.err(el, ec, message_with(ESCAPE_UNKNOWN, e));
            None
        }
    }

    fn string(&mut self, cs: &Vec<char>)
        requires
            old(self).wf(cs@.len() as int),
            old(self).i < cs@.len(),
        ensures
            final(self).wf(cs@.len() as int),
            final(self).i > old(self).i,
            final(self).st() == string_lit(cs@, old(self).st()),
    {
        let ghost st0 = self.st();
        let sl = self.line;
        let sc = self.col;
        self.adv(cs, 1);
        let ghost target = string_lit(cs@, st0);
        let mut s: Vec<char> = Vec::new();
        loop
            invariant_except_break
                self.wf(cs@.len() as int),
                self.i > st0.i,
                string_body(cs@, self.st(), sl as int, sc as int, s@) == target,
            ensures
                self.wf(cs@.len() as int),
                self.i > st0.i,
                self.st() == target,
            decreases cs@.len() - self.i,
        {
            match self.peek(cs) {
                None => {
                    self.err(sl, sc, STRING_UNCLOSED.to_owned());
                    break;
                },
                Some(c) => {
                    if c == '"' {
                        self.adv(cs, 1);
                        let text = string_from(&s);
                        self.push_tok(TokenKind::Str(text), sl, sc);
                        break;
                    } else if c == '\n' || c == '\r' {
                        self.err(sl, sc, STRING_NEWLINE.to_owned());
                        break;
                    } else if c == '\\' {
                        if let Some(ch) = self.escape_char(cs) {
                            s.push(ch);
                        }
                    } else {
                        s.push(c);
                        self.adv(cs, 1);
                    }
                },
            }
        }
    }

    /// Skips to the next quote or line break, and past a quote found there.
    fn skip_char_rest(&mut self, cs: &Vec<char>)
        requires
            old(self).wf(cs@.len() as int),
        ensures
            final(self).wf(cs@.len() as int),
            final(self).i >= old(self).i,
            final(self).st() == skip_char_rest(cs@, old(self).st()),
    {
        let ghost st0 = self.st();
        let start = self.i;
        loop
            invariant_except_break
                self.wf(cs@.len() as int),
                start <= self.i <= cs@.len(),
                self.st() == adv(st0, self.i - start),
                quote_end(cs@, self.i as int) == quote_end(cs@, start as int),
            ensures
                self.wf(cs@.len() as int),
                start <= self.i <= cs@.len(),
                self.st() == adv(st0, self.i - start),
                quote_end(cs@, start as int) == self.i,
            decreases cs@.len() - self.i,
        {
            if self.i < cs.len() && cs[self.i] != '\'' && cs[self.i] != '\n' && cs[self.i] != '\r' {
                self.adv(cs, 1);
            } else {
                break;
            }
        }
        if self.peek(cs) == Some('\'') {
            self.adv(cs, 1);
        }
    }

    fn char_lit(&mut self, cs: &Vec<char>)
        requires
            old(self).wf(cs@.len() as int),
            old(self).i < cs@.len(),
        ensures
            final(self).wf(cs@.len() as int),
            final(self).i > old(self).i,
            final(self).st() == char_lit(cs@, old(self).st()),
    {
        let ghost st0 = self.st();
        let sl = self.line;
        let sc = self.col;
        self.adv(cs, 1);
        let ch: Option<char> = match self.peek(cs) {
            None => {
                self.err(sl, sc, CHAR_UNCLOSED.to_owned());
                return;
            },
            Some(c) => {
                if c == '\n' || c == '\r' {
                    self.err(sl, sc, CHAR_NEWLINE.to_owned());
                    None
                } else if c == '\\' {
                    self.escape_char(cs)
                } else {
                    self.adv(cs, 1);
                    Some(c)
                }
            },
        };
        match ch {
            None => {
                self.skip_char_rest(cs);
            },
            Some(x) => {
                if self.peek(cs) == Some('\'') {
                    self.adv(cs, 1);
                    self.push_tok(TokenKind::Chr(x), sl, sc);
                } else {
                    let ghost st2 = self.st();
                    let start = self.i;
                    loop
                        invariant_except_break
                            self.wf(cs@.len() as int),
                            start <= self.i <= cs@.len(),
                            self.st() == adv(st2, self.i - start),
                            quote_end(cs@, self.i as int) == quote_end(cs@, start as int),
                        ensures
                            self.wf(cs@.len() as int),
                            start <= self.i <= cs@.len(),
                            self.st() == adv(st2, self.i - start),
                            quote_end(cs@, start as int) == self.i,
                        decreases cs@.len() - self.i,
                    {
                        if self.i < cs.len() && cs[self.i] != '\'' && cs[self.i] != '\n'
                            && cs[self.i] != '\r' {
                            self.adv(cs, 1);
                        } else {
                            break;
                        }
                    }
                    if self.peek(cs) == Some('\'') {
                        self.adv(cs, 1);
                        self.err(sl, sc, CHAR_ONE.to_owned());
                    } else {
                        self.err(sl, sc, CHAR_QUOTE_MISSING.to_owned());
                    }
                }
            },
        }
    }

    /// Reads digits from `self.i` onwards into `text`, noting in the result
    /// whether any of them differs from `bangla` in script.
    fn digit_run(&mut self, cs: &Vec<char>, bangla: bool, text: &mut Vec<char>) -> (mixed: bool)
        requires
            old(self).wf(cs@.len() as int),
        ensures
            final(self).wf(cs@.len() as int),
            final(self).i == digits_end(cs@, old(self).i as int),
            final(self).st() == adv(old(self).st(), final(self).i - old(self).i),
            final(text)@ == old(text)@ + cs@.subrange(old(self).i as int, final(self).i as int),
            mixed == mixed_digits(cs@, old(self).i as int, final(self).i as int, bangla),
    {
        let ghost st0 = self.st();
        let ghost t0 = text@;
        let start = self.i;
        let mut mixed = false;
        proof {
            lemma_mixed_empty(cs@, start as int, bangla);
            assert(cs@.subrange(start as int, start as int) =~= Seq::<char>::empty());
            assert(t0 + Seq::<char>::empty() =~= t0);
        }
        loop
            invariant_except_break
                self.wf(cs@.len() as int),
                start <= self.i <= cs@.len(),
                self.st() == adv(st0, self.i - start),
                digits_end(cs@, self.i as int) == digits_end(cs@, start as int),
                text@ == t0 + cs@.subrange(start as int, self.i as int),
                mixed == mixed_digits(cs@, start as int, self.i as int, bangla),
            ensures
                self.wf(cs@.len() as int),
                start <= self.i <= cs@.len(),
                self.st() == adv(st0, self.i - start),
                digits_end(cs@, start as int) == self.i,
                text@ == t0 + cs@.subrange(start as int, self.i as int),
                mixed == mixed_digits(cs@, start as int, self.i as int, bangla),
            decreases cs@.len() - self.i,
        {
            if self.i < cs.len() && is_any_digit(cs[self.i]) {
                let c = cs[self.i];
                proof {
                    lemma_mixed_extend(cs@, start as int, self.i as int, bangla);
                    assert(t0 + cs@.subrange(start as int, self.i + 1) =~= (t0 + cs@.subrange(
                        start as int,
                        self.i as int,
                    )).push(c));
                }
                if is_bangla_digit(c) != bangla {
                    mixed = true;
                }
                text.push(c);
                self.adv(cs, 1);
            } else {
                break;
            }
        }
        mixed
    }

    fn number(&mut self, cs: &Vec<char>)
        requires
            old(self).wf(cs@.len() as int),
            old(self).i < cs@.len(),
            any_digit(cs@[old(self).i as int]),
        ensures
            final(self).wf(cs@.len() as int),
            final(self).i > old(self).i,
            final(self).st() == number(cs@, old(self).st()),
    {
        let ghost st0 = self.st();
        let sl = self.line;
        let sc = self.col;
        let start = self.i;
        let bangla = is_bangla_digit(cs[start]);
        let mut text: Vec<char> = Vec::new();
        proof {
            lemma_digits_end_moves(cs@, start as int + 1);
            assert(digits_end(cs@, start as int) == digits_end(cs@, start as int + 1));
            lemma_digits_run(cs@, start as int);
        }
        let mut mixed = self.digit_run(cs, bangla, &mut text);
        let e1 = self.i;
        proof {
            assert(text@ =~= cs@.subrange(start as int, e1 as int));
        }
        let frac = self.peek(cs) == Some('.') && match self.peek2(cs) {
            Some(d) => is_any_digit(d),
            None => false,
        };
        assert(frac == has_fraction(cs@, e1 as int));
        if frac {
            text.push('.');
            self.adv(cs, 1);
            let f0 = self.i;
            let ghost t1 = text@;
            assert(t1 =~= cs@.subrange(start as int, f0 as int));
            let mixed2 = self.digit_run(cs, bangla, &mut text);
            proof {
                lemma_digits_end_moves(cs@, f0 as int);
                assert(text@ =~= cs@.subrange(start as int, self.i as int));
            }
            mixed = mixed || mixed2;
        }
        let ghost e2 = self.i as int;
        assert(text@ =~= cs@.subrange(start as int, e2));
        assert(self.st() == adv(st0, e2 - start));
        if mixed {
            self.err(sl, sc, MIXED_DIGITS.to_owned());
        } else if frac {
            let mut out: Vec<char> = Vec::new();
            let mut k: usize = 0;
            while k < text.len()
                invariant
                    k <= text.len(),
                    out@ == text@.take(k as int).map_values(|c: char| to_ascii_digit(c)),
                decreases text.len() - k,
            {
                let c = digit_to_ascii(text[k]);
                assert(text@.take(k as int + 1).map_values(|c: char| to_ascii_digit(c))
                    =~= text@.take(k as int).map_values(|c: char| to_ascii_digit(c)).push(c));
                out.push(c);
                k += 1;
            }
            assert(text@.take(text.len() as int) =~= text@);
            let t = string_from(&out);
            self.push_tok(TokenKind::Num(NumTok::Float(t)), sl, sc);
        } else {
            proof {
                assert forall|j: int| 0 <= j < text@.len() implies any_digit(#[trigger] text@[j]) by {
                    assert(text@[j] == cs@[start + j]);
                    assert(start <= start + j < digits_end(cs@, start as int));
                }
            }
            let mut acc: i64 = 0;
            let mut overflow = false;
            let mut k: usize = 0;
            loop
                invariant_except_break
                    k <= text.len(),
                    !overflow,
                    acc == digits_value(text@.take(k as int)),
                    forall|j: int| 0 <= j < text@.len() ==> any_digit(#[trigger] text@[j]),
                ensures
                    overflow <==> digits_value(text@) > i64::MAX,
                    !overflow ==> acc == digits_value(text@),
                decreases text.len() - k,
            {
                if k >= text.len() {
                    assert(text@.take(k as int) =~= text@);
                    break;
                }
                let d = digit_value(text[k]);
                proof {
                    assert(text@.take(k as int + 1).drop_last() =~= text@.take(k as int));
                    lemma_digits_prefix(text@, k as int + 1);
                }
                match acc.checked_mul(10) {
                    Some(m) => match m.checked_add(d) {
                        Some(v) => {
                            acc = v;
                        },
                        None => {
                            overflow = true;
                            break;
                        },
                    },
                    None => {
                        proof {
                            lemma_digits_prefix(text@, k as int);
                        }
                        overflow = true;
                        break;
                    },
                }
                k += 1;
            }
            if overflow {
                self.err(sl, sc, NUMBER_RANGE.to_owned());
            } else {
                self.push_tok(TokenKind::Num(NumTok::Int(acc)), sl, sc);
            }
        }
    }

    fn word(&mut self, cs: &Vec<char>)
        requires
            old(self).wf(cs@.len() as int),
            old(self).i < cs@.len(),
            ident_start(cs@[old(self).i as int]),
        ensures
            final(self).wf(cs@.len() as int),
            final(self).i > old(self).i,
            final(self).st() == word(cs@, old(self).st()),
    {
        let ghost st0 = self.st();
        let sl = self.line;
        let sc = self.col;
        let start = self.i;
        let mut text: Vec<char> = Vec::new();
        proof {
            lemma_ident_end_moves(cs@, start as int + 1);
            assert(ident_end(cs@, start as int) == ident_end(cs@, start as int + 1));
            assert(cs@.subrange(start as int, start as int) =~= Seq::<char>::empty());
        }
        loop
            invariant_except_break
                self.wf(cs@.len() as int),
                start <= self.i <= cs@.len(),
                self.st() == adv(st0, self.i - start),
                ident_end(cs@, self.i as int) == ident_end(cs@, start as int),
                text@ == cs@.subrange(start as int, self.i as int),
            ensures
                self.wf(cs@.len() as int),
                start <= self.i <= cs@.len(),
                self.st() == adv(st0, self.i - start),
                ident_end(cs@, start as int) == self.i,
                text@ == cs@.subrange(start as int, self.i as int),
            decreases cs@.len() - self.i,
        {
            if self.i < cs.len() && is_ident_part(cs[self.i]) {
                let c = cs[self.i];
                assert(cs@.subrange(start as int, self.i + 1) =~= cs@.subrange(
                    start as int,
                    self.i as int,
                ).push(c));
                text.push(c);
                self.adv(cs, 1);
            } else {
                break;
            }
        }
        let raw = string_from(&text);
        let norm = to_nfc(raw.as_str());
        let kind = word_token(norm);
        self.push_tok(kind, sl, sc);
    }

    fn operator(&mut self, cs: &Vec<char>, c: char)
        requires
            old(self).wf(cs@.len() as int),
            old(self).i < cs@.len(),
        ensures
            final(self).wf(cs@.len() as int),
            final(self).i > old(self).i,
            final(self).st() == operator(cs@, old(self).st(), c),
    {
        let ghost st0 = self.st();
        let l = self.line;
        let co = self.col;
        match two_char_operator(c, self.peek2(cs)) {
            Some(o) => {
                self.push_tok(TokenKind::Op(o), l, co);
                self.adv(cs, 2);
            },
            None => {
                if c == '!' {
                    self.err(l, co, BANG.to_owned());
                    self.adv(cs, 1);
                } else {
                    match one_char_operator(c) {
                        Some(o) => {
                            if c == '(' || c == '[' {
                                proof {
                                    lemma_opens_push(self.opens@, (c, l, co));
                                }
                                self.opens.push((c, l, co));
                            } else if c == ')' || c == ']' {
                                let want = if c == ')' {
                                    '('
                                } else {
                                    '['
                                };
                                proof {
                                    if self.opens@.len() > 0 {
                                        lemma_opens_drop(self.opens@);
                                    }
                                }
                                match self.opens.pop() {
                                    Some(top) => {
                                        if top.0 != want {
                                            self.err(l, co, message_with(MISMATCH, c));
                                        }
                                    },
                                    None => {
                                        self.err(l, co, message_with(MISMATCH, c));
                                    },
                                }
                            }
                            assert(self.st() == track_bracket(st0, c, l as int, co as int));
                            self.push_tok(TokenKind::Op(o), l, co);
                            self.adv(cs, 1);
                        },
                        None => {
                            self.err(l, co, message_with(UNEXPECTED, c));
                            self.adv(cs, 1);
                        },
                    }
                }
            },
        }
    }

    fn run(&mut self, cs: &Vec<char>)
        requires
            old(self).wf(cs@.len() as int),
        ensures
            final(self).wf(cs@.len() as int),
            final(self).st() == run(cs@, old(self).st()),
    {
        let ghost target = run(cs@, self.st());
        loop
            invariant_except_break
                self.wf(cs@.len() as int),
                run(cs@, self.st()) == target,
            ensures
                self.wf(cs@.len() as int),
                self.st() == target,
            decreases cs@.len() - self.i,
        {
            if self.i >= cs.len() {
                break;
            }
            let ghost before = self.st();
            let c = cs[self.i];
            if c == '\u{FEFF}' {
                self.i = self.i + 1;
            } else if c == ' ' || c == '\t' || c == '\u{000C}' {
                self.adv(cs, 1);
            } else if c == '\r' {
                let l = self.line;
                let co = self.col;
                if self.peek2(cs) == Some('\n') {
                    self.adv(cs, 2);
                } else {
                    self.adv(cs, 1);
                }
                self.emit_newline(cs, l, co);
            } else if c == '\n' {
                let l = self.line;
                let co = self.col;
                self.i = self.i + 1;
                self.emit_newline(cs, l, co);
            } else if c == '/' {
                self.slash(cs);
            } else if c == '"' {
                self.string(cs);
            } else if c == '\'' {
                self.char_lit(cs);
            } else if is_any_digit(c) {
                self.number(cs);
            } else if is_ident_start(c) {
                self.word(cs);
            } else {
                self.operator(cs, c);
            }
            assert(self.st() == step(cs@, before));
        }
    }
}

/// The token of a word already in NFC: the keyword it spells, or an
/// identifier of that name.
pub fn word_token(norm: String) -> (kind: TokenKind)
    ensures
        kind.kind_v() == word_kind(norm@),
{
    let n = chars_of(norm.as_str());
    match keyword_index(&n) {
        Some(k) => TokenKind::Kw(KEYWORDS[k]),
        None => TokenKind::Ident(norm),
    }
}

/// The index in `KEYWORDS` of the word `n`, if it is a keyword.
fn keyword_index(n: &Vec<char>) -> (r: Option<usize>)
    ensures
        r matches Some(k) ==> k < KEYWORDS@.len() && KEYWORDS@[k as int]@ == n@,
        r is None ==> !is_keyword(n@),
{
    let mut k: usize = 0;
    while k < KEYWORDS.len()
        invariant
            k <= KEYWORDS@.len(),
            forall|j: int| 0 <= j < k ==> (#[trigger] KEYWORDS@[j])@ != n@,
        decreases KEYWORDS.len() - k,
    {
        let kw = chars_of(KEYWORDS[k]);
        if chars_equal(&kw, n) {
            return Some(k);
        }
        k += 1;
    }
    None
}

fn two_char_operator(c: char, next: Option<char>) -> (r: Option<&'static str>)
    ensures
        r is None <==> two_char_op(c, next) is None,
        r matches Some(o) ==> two_char_op(c, next) == Some(o@),
{
    if next == Some('=') {
        if c == '=' {
            Some("==")
        } else if c == '!' {
            Some("!=")
        } else if c == '<' {
            Some("<=")
        } else if c == '>' {
            Some(">=")
        } else if c == '+' {
            Some("+=")
        } else if c == '-' {
            Some("-=")
        } else if c == '*' {
            Some("*=")
        } else if c == '/' {
            Some("/=")
        } else {
            None
        }
    } else if next == Some('>') && c == '-' {
        Some("->")
    } else {
        None
    }
}

fn one_char_operator(c: char) -> (r: Option<&'static str>)
    ensures
        r is None <==> one_char_op(c) is None,
        r matches Some(o) ==> one_char_op(c) == Some(o@),
{
    if c == '+' {
        Some("+")
    } else if c == '-' {
        Some("-")
    } else if c == '*' {
        Some("*")
    } else if c == '/' {
        Some("/")
    } else if c == '%' {
        Some("%")
    } else if c == '=' {
        Some("=")
    } else if c == '<' {
        Some("<")
    } else if c == '>' {
        Some(">")
    } else if c == ':' {
        Some(":")
    } else if c == ',' {
        Some(",")
    } else if c == '.' {
        Some(".")
    } else if c == '(' {
        Some("(")
    } else if c == ')' {
        Some(")")
    } else if c == '[' {
        Some("[")
    } else if c == ']' {
        Some("]")
    } else if c == '{' {
        Some("{")
    } else if c == '}' {
        Some("}")
    } else {
        None
    }
}

/// The message for a bracket `o` left open at the end of the input.
fn unclosed_message(o: char) -> (s: String)
    ensures
        s@ == QUOTE@ + seq![o] + OPEN_AT_END@,
{
    let mut s = String::new();
    push_str(&mut s, QUOTE);
    push_char(&mut s, o);
    push_str(&mut s, OPEN_AT_END);
    s
}

/// Splits `src` into tokens, with a diagnostic for each lexical error and
/// for each bracket still open at the end. Lexing goes on after an error,
/// so every problem in the text is reported at once.
pub fn lex(src: &str) -> (r: (Vec<Token>, Vec<Diagnostic>))
    requires
        src@.len() < u32::MAX,
    ensures
        (toks_v(r.0@), diags_v(r.1@)) == lex_result(src@),
{
    let cs = chars_of(src);
    let mut lx = Lx { i: 0, line: 1, col: 1, toks: Vec::new(), diags: Vec::new(), opens: Vec::new() };
    assert(toks_v(lx.toks@) =~= Seq::<TokV>::empty());
    assert(diags_v(lx.diags@) =~= Seq::<DiagV>::empty());
    assert(opens_v(lx.opens@) =~= Seq::<(char, int, int)>::empty());
    assert(lx.st() == init_state());
    lx.run(&cs);
    let ghost st = lx.st();
    let mut k: usize = 0;
    while k < lx.opens.len()
        invariant
            k <= lx.opens@.len(),
            toks_v(lx.toks@) == st.toks,
            diags_v(lx.diags@) == st.diags + st.opens.take(k as int).map_values(
                |o: (char, int, int)| unclosed_diag(o),
            ),
            opens_v(lx.opens@) == st.opens,
        decreases lx.opens.len() - k,
    {
        let o = lx.opens[k];
        let d = Diagnostic { line: o.1, col: o.2, message: unclosed_message(o.0) };
        proof {
            lemma_diags_push(lx.diags@, d);
            assert(st.opens[k as int] == (o.0, o.1 as int, o.2 as int));
            assert(st.opens.take(k as int + 1).map_values(|o: (char, int, int)| unclosed_diag(o))
                =~= st.opens.take(k as int).map_values(|o: (char, int, int)| unclosed_diag(o)).push(
                unclosed_diag(st.opens[k as int]),
            ));
            assert((st.diags + st.opens.take(k as int).map_values(
                |o: (char, int, int)| unclosed_diag(o),
            )).push(unclosed_diag(st.opens[k as int])) =~= st.diags + st.opens.take(k as int + 1).map_values(
                |o: (char, int, int)| unclosed_diag(o),
            ));
        }
        lx.diags.push(d);
        k += 1;
    }
    assert(st.opens.take(st.opens.len() as int) =~= st.opens);
    (lx.toks, lx.diags)
}


} // verus!
