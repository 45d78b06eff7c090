//! The JSON helpers of the standard library's `জেসন` module: a validator,
//! string escaping, and reading a string or integer field out of a JSON
//! text without building a document tree.
//!
//! Everything works on the characters of the text. Positions are character
//! indices; the grammar below is the one the validator accepts, which is
//! more lenient than RFC 8259 in its numbers (any run of digits, `.`, `e`,
//! `E`, `+`, `-`) and in its escapes (`\x` stands for `x`).

use vstd::prelude::*;
use crate::text::{white_space, is_whitespace, is_scalar, char_from_u32, push_char, chars_of};
use crate::lexer_spec::{peek_at, ascii_hex, ascii_digit, hex_val, digits_value, digit_val};
use crate::lexer::{is_hex_digit, hex_digit_value};

verus! {

// ---------------------------------------------------------------------------
// The grammar, as functions from a start position to an end position
// ---------------------------------------------------------------------------

/// The first position at or after `i` that does not hold white space.
pub open spec fn ws_end(cs: Seq<char>, i: int) -> int
    decreases cs.len() - i,
{
    if 0 <= i < cs.len() && white_space(cs[i]) {
        ws_end(cs, i + 1)
    } else {
        i
    }
}

/// What a backslash followed by `e` stands for (other than `\u`).
pub open spec fn escaped(e: char) -> char {
    if e == 'n' {
        '\n'
    } else if e == 't' {
        '\t'
    } else if e == 'r' {
        '\r'
    } else if e == 'b' {
        '\u{8}'
    } else if e == 'f' {
        '\u{c}'
    } else {
        e
    }
}

/// The value of the four hexadecimal digits at `k`.
pub open spec fn hex4(cs: Seq<char>, k: int) -> int {
    ((hex_val(cs[k]) * 16 + hex_val(cs[k + 1])) * 16 + hex_val(cs[k + 2])) * 16 + hex_val(cs[k + 3])
}

/// The character of a `\uXXXX` escape whose digits start at `k`: `None`
/// when the digits run out, one is not hexadecimal, or the value is a
/// surrogate.
pub open spec fn unicode4(cs: Seq<char>, k: int) -> Option<char> {
    if 0 <= k && k + 4 <= cs.len() && ascii_hex(cs[k]) && ascii_hex(cs[k + 1]) && ascii_hex(cs[k + 2])
        && ascii_hex(cs[k + 3]) && is_scalar(hex4(cs, k)) {
        Some((hex4(cs, k) as u32) as char)
    } else {
        None
    }
}

/// The rest of a string literal from `j` (just after the opening quote or
/// an earlier piece of the body), with `out` decoded so far: the position
/// after the closing quote and the decoded text, or `None`.
pub open spec fn jstring_body(cs: Seq<char>, j: int, out: Seq<char>) -> Option<(int, Seq<char>)>
    decreases cs.len() - j,
{
    if j < 0 || j >= cs.len() {
        None
    } else if cs[j] == '"' {
        Some((j + 1, out))
    } else if cs[j] == '\\' {
        if j + 1 >= cs.len() {
            None
        } else if cs[j + 1] == 'u' {
            match unicode4(cs, j + 2) {
                Some(c) => jstring_body(cs, j + 6, out.push(c)),
                None => None,
            }
        } else {
            jstring_body(cs, j + 2, out.push(escaped(cs[j + 1])))
        }
    } else {
        jstring_body(cs, j + 1, out.push(cs[j]))
    }
}

/// A string literal at `i`: the position after it and its decoded text.
pub open spec fn jstring(cs: Seq<char>, i: int) -> Option<(int, Seq<char>)> {
    if peek_at(cs, i) == Some('"') {
        jstring_body(cs, i + 1, seq![])
    } else {
        None
    }
}

/// The characters a number may continue with.
pub open spec fn num_char(c: char) -> bool {
    ascii_digit(c) || c == '.' || c == 'e' || c == 'E' || c == '+' || c == '-'
}

pub open spec fn num_run_end(cs: Seq<char>, j: int) -> int
    decreases cs.len() - j,
{
    if 0 <= j < cs.len() && num_char(cs[j]) {
        num_run_end(cs, j + 1)
    } else {
        j
    }
}

/// Where the number starting at `i` ends: an optional `-`, then a run of
/// number characters.
pub open spec fn number_end(cs: Seq<char>, i: int) -> int {
    if peek_at(cs, i) == Some('-') {
        num_run_end(cs, i + 1)
    } else {
        num_run_end(cs, i)
    }
}

/// The word `w` at `i`.
pub open spec fn jlit(cs: Seq<char>, i: int, w: Seq<char>) -> Option<int> {
    if 0 <= i && i + w.len() <= cs.len() && cs.subrange(i, i + w.len()) == w {
        Some(i + w.len())
    } else {
        None
    }
}

pub proof fn lemma_ws_end(cs: Seq<char>, i: int)
    requires
        0 <= i <= cs.len(),
    ensures
        i <= ws_end(cs, i) <= cs.len(),
        ws_end(cs, i) < cs.len() ==> !white_space(cs[ws_end(cs, i)]),
        forall|k: int| i <= k < ws_end(cs, i) ==> white_space(#[trigger] cs[k]),
    decreases cs.len() - i,
{
    if i < cs.len() && white_space(cs[i]) {
        lemma_ws_end(cs, i + 1);
    }
}

pub proof fn lemma_num_run_end(cs: Seq<char>, j: int)
    requires
        0 <= j <= cs.len(),
    ensures
        j <= num_run_end(cs, j) <= cs.len(),
    decreases cs.len() - j,
{
    if j < cs.len() && num_char(cs[j]) {
        lemma_num_run_end(cs, j + 1);
    }
}

pub proof fn lemma_string_body_end(cs: Seq<char>, j: int, out: Seq<char>)
    ensures
        jstring_body(cs, j, out) matches Some(p) ==> j < p.0 <= cs.len(),
    decreases cs.len() - j,
{
    if 0 <= j < cs.len() && cs[j] != '"' {
        if cs[j] == '\\' {
            if j + 1 < cs.len() {
                if cs[j + 1] == 'u' {
                    if let Some(c) = unicode4(cs, j + 2) {
                        lemma_string_body_end(cs, j + 6, out.push(c));
                    }
                } else {
                    lemma_string_body_end(cs, j + 2, out.push(escaped(cs[j + 1])));
                }
            }
        } else {
            lemma_string_body_end(cs, j + 1, out.push(cs[j]));
        }
    }
}

// ---------------------------------------------------------------------------
// Values, objects and arrays
// ---------------------------------------------------------------------------

/// A JSON value after optional white space at `i`: the position after it.
pub open spec fn jvalue(cs: Seq<char>, i: int) -> Option<int>
    decreases cs.len() - i, 0int,
{
    if i < 0 || i > cs.len() {
        None
    } else {
        let j = ws_end(cs, i);
        proof {
            lemma_ws_end(cs, i);
        }
        if j >= cs.len() {
            None
        } else if cs[j] == '{' {
            jobject(cs, j + 1)
        } else if cs[j] == '[' {
            jarray(cs, j + 1)
        } else if cs[j] == '"' {
            match jstring(cs, j) {
                Some(p) => Some(p.0),
                None => None,
            }
        } else if cs[j] == 't' {
            jlit(cs, j, seq!['t', 'r', 'u', 'e'])
        } else if cs[j] == 'f' {
            jlit(cs, j, seq!['f', 'a', 'l', 's', 'e'])
        } else if cs[j] == 'n' {
            jlit(cs, j, seq!['n', 'u', 'l', 'l'])
        } else if number_end(cs, j) > j {
            Some(number_end(cs, j))
        } else {
            None
        }
    }
}

/// An object's body after its `{`.
pub open spec fn jobject(cs: Seq<char>, i: int) -> Option<int>
    decreases cs.len() - i, 2int,
{
    if i < 0 || i > cs.len() {
        None
    } else {
        let j = ws_end(cs, i);
        proof {
            lemma_ws_end(cs, i);
        }
        if j < cs.len() && cs[j] == '}' {
            Some(j + 1)
        } else {
            jmembers(cs, j)
        }
    }
}

/// The members of an object from `i`, each `"key": value`, separated by
/// commas, up to the closing `}`.
pub open spec fn jmembers(cs: Seq<char>, i: int) -> Option<int>
    decreases cs.len() - i, 1int,
{
    if i < 0 || i > cs.len() {
        None
    } else {
        let j = ws_end(cs, i);
        proof {
            lemma_ws_end(cs, i);
        }
        match jstring(cs, j) {
            None => None,
            Some(p) => {
                let k = ws_end(cs, p.0);
                proof {
                    lemma_string_body_end(cs, j + 1, seq![]);
                    lemma_ws_end(cs, p.0);
                }
                if !(k < cs.len() && cs[k] == ':') {
                    None
                } else {
                    match jvalue(cs, k + 1) {
                        None => None,
                        Some(e) => {
                            if !(i < e <= cs.len()) {
                                None
                            } else {
                                let e2 = ws_end(cs, e);
                                proof {
                                    lemma_ws_end(cs, e);
                                }
                                if e2 < cs.len() && cs[e2] == ',' {
                                    jmembers(cs, e2 + 1)
                                } else if e2 < cs.len() && cs[e2] == '}' {
                                    Some(e2 + 1)
                                } else {
                                    None
                                }
                            }
                        }
                    }
                }
            }
        }
    }
}

/// An array's body after its `[`.
pub open spec fn jarray(cs: Seq<char>, i: int) -> Option<int>
    decreases cs.len() - i, 2int,
{
    if i < 0 || i > cs.len() {
        None
    } else {
        let j = ws_end(cs, i);
        proof {
            lemma_ws_end(cs, i);
        }
        if j < cs.len() && cs[j] == ']' {
            Some(j + 1)
        } else {
            jelems(cs, j)
        }
    }
}

/// The elements of an array from `i`, separated by commas, up to the
/// closing `]`.
pub open spec fn jelems(cs: Seq<char>, i: int) -> Option<int>
    decreases cs.len() - i, 1int,
{
    if i < 0 || i > cs.len() {
        None
    } else {
        match jvalue(cs, i) {
            None => None,
            Some(e) => {
                if !(i < e <= cs.len()) {
                    None
                } else {
                    let e2 = ws_end(cs, e);
                    proof {
                        lemma_ws_end(cs, e);
                    }
                    if e2 < cs.len() && cs[e2] == ',' {
                        jelems(cs, e2 + 1)
                    } else if e2 < cs.len() && cs[e2] == ']' {
                        Some(e2 + 1)
                    } else {
                        None
                    }
                }
            }
        }
    }
}

/// Whether `cs` is one JSON value with nothing but white space around it.
pub open spec fn valid_json(cs: Seq<char>) -> bool {
    match jvalue(cs, ws_end(cs, 0)) {
        Some(e) => ws_end(cs, e) == cs.len(),
        None => false,
    }
}

// ---------------------------------------------------------------------------
// The validator
// ---------------------------------------------------------------------------

pub open spec fn end_of(r: Option<usize>) -> Option<int> {
    match r {
        Some(e) => Some(e as int),
        None => None,
    }
}

fn skip_ws(cs: &Vec<char>, i: usize) -> (j: usize)
    requires
        i <= cs.len(),
    ensures
        j as int == ws_end(cs@, i as int),
        i <= j <= cs.len(),
{
    let mut j = i;
    while j < cs.len() && is_whitespace(cs[j])
        invariant
            i <= j <= cs.len(),
            ws_end(cs@, j as int) == ws_end(cs@, i as int),
        decreases cs.len() - j,
    {
        j += 1;
    }
    j
}

fn escaped_char(e: char) -> (c: char)
    ensures
        c == escaped(e),
{
    if e == 'n' {
        '\n'
    } else if e == 't' {
        '\t'
    } else if e == 'r' {
        '\r'
    } else if e == 'b' {
        '\u{8}'
    } else if e == 'f' {
        '\u{c}'
    } else {
        e
    }
}

fn unicode_at(cs: &Vec<char>, k: usize) -> (r: Option<char>)
    ensures
        r == unicode4(cs@, k as int),
{
    if cs.len() < 4 || k > cs.len() - 4 {
        return None;
    }
    if !(is_hex_digit(cs[k]) && is_hex_digit(cs[k + 1]) && is_hex_digit(cs[k + 2]) && is_hex_digit(cs[k + 3])) {
        return None;
    }
    let v: u32 = ((hex_digit_value(cs[k]) * 16 + hex_digit_value(cs[k + 1])) * 16 + hex_digit_value(cs[k + 2])) * 16
        + hex_digit_value(cs[k + 3]);
    assert(v == hex4(cs@, k as int));
    char_from_u32(v)
}

/// A string literal at `i`: the position after it and the decoded text.
fn string_at(cs: &Vec<char>, i: usize) -> (r: Option<(usize, Vec<char>)>)
    requires
        i <= cs.len(),
    ensures
        match r {
            Some(p) => jstring(cs@, i as int) == Some((p.0 as int, p.1@)) && i < p.0 <= cs.len(),
            None => jstring(cs@, i as int) is None,
        },
{
    if i >= cs.len() || cs[i] != '"' {
        return None;
    }
    let mut j = i + 1;
    let mut out: Vec<char> = Vec::new();
    loop
        invariant
            i < j <= cs.len(),
            jstring_body(cs@, j as int, out@) == jstring(cs@, i as int),
        decreases cs.len() - j,
    {
        if j >= cs.len() {
            return None;
        }
        let ch = cs[j];
        if ch == '"' {
            return Some((j + 1, out));
        }
        if ch == '\\' {
            if j + 1 >= cs.len() {
                return None;
            }
            let e = cs[j + 1];
            if e == 'u' {
                match unicode_at(cs, j + 2) {
                    Some(c) => {
                        out.push(c);
                        j = j + 6;
                    },
                    None => {
                        return None;
                    },
                }
            } else {
                out.push(escaped_char(e));
                j = j + 2;
            }
        } else {
            out.push(ch);
            j = j + 1;
        }
    }
}

fn is_num_char(c: char) -> (b: bool)
    ensures
        b == num_char(c),
{
    let u = c as u32;
    (0x30 <= u && u <= 0x39) || c == '.' || c == 'e' || c == 'E' || c == '+' || c == '-'
}

fn number_at(cs: &Vec<char>, i: usize) -> (e: usize)
    requires
        i <= cs.len(),
    ensures
        e as int == number_end(cs@, i as int),
        i <= e <= cs.len(),
{
    let mut j = i;
    if j < cs.len() && cs[j] == '-' {
        j += 1;
    }
    let ghost start = j as int;
    while j < cs.len() && is_num_char(cs[j])
        invariant
            i <= start <= j <= cs.len(),
            num_run_end(cs@, j as int) == number_end(cs@, i as int),
        decreases cs.len() - j,
    {
        j += 1;
    }
    j
}

fn word4(a: char, b: char, c: char, d: char) -> (w: Vec<char>)
    ensures
        w@ == seq![a, b, c, d],
{
    let mut w: Vec<char> = Vec::new();
    w.push(a);
    w.push(b);
    w.push(c);
    w.push(d);
    assert(w@ =~= seq![a, b, c, d]);
    w
}

/// The word `w` at `i`.
fn lit_at(cs: &Vec<char>, i: usize, w: &Vec<char>) -> (r: Option<usize>)
    requires
        i <= cs.len(),
    ensures
        end_of(r) == jlit(cs@, i as int, w@),
        r matches Some(e) ==> i <= e <= cs.len(),
{
    if w.len() > cs.len() - i {
        return None;
    }
    let mut k: usize = 0;
    while k < w.len()
        invariant
            k <= w.len(),
            i + w.len() <= cs.len(),
            forall|m: int| 0 <= m < k ==> cs@[i + m] == w@[m],
        decreases w.len() - k,
    {
        if cs[i + k] != w[k] {
            assert(cs@.subrange(i as int, i + w.len())[k as int] == cs@[i + k]);
            return None;
        }
        k += 1;
    }
    assert(cs@.subrange(i as int, i + w.len()) =~= w@);
    Some(i + w.len())
}

fn value(cs: &Vec<char>, i: usize) -> (r: Option<usize>)
    requires
        i <= cs.len(),
    ensures
        end_of(r) == jvalue(cs@, i as int),
        r matches Some(e) ==> i < e <= cs.len(),
    decreases cs.len() - i, 0int,
{
    let j = skip_ws(cs, i);
    if j >= cs.len() {
        return None;
    }
    let c = cs[j];
    if c == '{' {
        object(cs, j + 1)
    } else if c == '[' {
        array(cs, j + 1)
    } else if c == '"' {
        match string_at(cs, j) {
            Some(p) => Some(p.0),
            None => None,
        }
    } else if c == 't' {
        lit_at(cs, j, &word4('t', 'r', 'u', 'e'))
    } else if c == 'f' {
        let mut w = word4('f', 'a', 'l', 's');
        w.push('e');
        assert(w@ =~= seq!['f', 'a', 'l', 's', 'e']);
        lit_at(cs, j, &w)
    } else if c == 'n' {
        lit_at(cs, j, &word4('n', 'u', 'l', 'l'))
    } else {
        let e = number_at(cs, j);
        if e > j {
            Some(e)
        } else {
            None
        }
    }
}

fn object(cs: &Vec<char>, i: usize) -> (r: Option<usize>)
    requires
        i <= cs.len(),
    ensures
        end_of(r) == jobject(cs@, i as int),
        r matches Some(e) ==> i < e <= cs.len(),
    decreases cs.len() - i, 2int,
{
    let j = skip_ws(cs, i);
    if j < cs.len() && cs[j] == '}' {
        return Some(j + 1);
    }
    members(cs, j)
}

fn members(cs: &Vec<char>, i: usize) -> (r: Option<usize>)
    requires
        i <= cs.len(),
    ensures
        end_of(r) == jmembers(cs@, i as int),
        r matches Some(e) ==> i < e <= cs.len(),
    decreases cs.len() - i, 1int,
{
    let j = skip_ws(cs, i);
    let k0 = match string_at(cs, j) {
        Some(p) => p.0,
        None => {
            return None;
        },
    };
    let k = skip_ws(cs, k0);
    if !(k < cs.len() && cs[k] == ':') {
        return None;
    }
    match value(cs, k + 1) {
        None => None,
        Some(e) => {
            let e2 = skip_ws(cs, e);
            if e2 < cs.len() && cs[e2] == ',' {
                members(cs, e2 + 1)
            } else if e2 < cs.len() && cs[e2] == '}' {
                Some(e2 + 1)
            } else {
                None
            }
        },
    }
}

fn array(cs: &Vec<char>, i: usize) -> (r: Option<usize>)
    requires
        i <= cs.len(),
    ensures
        end_of(r) == jarray(cs@, i as int),
        r matches Some(e) ==> i < e <= cs.len(),
    decreases cs.len() - i, 2int,
{
    let j = skip_ws(cs, i);
    if j < cs.len() && cs[j] == ']' {
        return Some(j + 1);
    }
    elems(cs, j)
}

fn elems(cs: &Vec<char>, i: usize) -> (r: Option<usize>)
    requires
        i <= cs.len(),
    ensures
        end_of(r) == jelems(cs@, i as int),
        r matches Some(e) ==> i < e <= cs.len(),
    decreases cs.len() - i, 1int,
{
    match value(cs, i) {
        None => None,
        Some(e) => {
            let e2 = skip_ws(cs, e);
            if e2 < cs.len() && cs[e2] == ',' {
                elems(cs, e2 + 1)
            } else if e2 < cs.len() && cs[e2] == ']' {
                Some(e2 + 1)
            } else {
                None
            }
        },
    }
}

/// Whether `text` is one JSON value, with nothing but white space around it.
pub fn json_valid(text: &str) -> (b: bool)
    ensures
        b == valid_json(text@),
{
    let cs = chars_of(text);
    let j = skip_ws(&cs, 0);
    match value(&cs, j) {
        Some(e) => skip_ws(&cs, e) == cs.len(),
        None => false,
    }
}

// ---------------------------------------------------------------------------
// Escaping
// ---------------------------------------------------------------------------

/// The lower-case hexadecimal digit for `d` (below 16).
pub open spec fn hex_lower(d: int) -> char {
    if d < 10 {
        ((d + 0x30) as u8) as char
    } else {
        ((d - 10 + 0x61) as u8) as char
    }
}

/// How one character is written inside a JSON string.
pub open spec fn escape_char(c: char) -> Seq<char> {
    if c == '"' {
        seq!['\\', '"']
    } else if c == '\\' {
        seq!['\\', '\\']
    } else if c == '\n' {
        seq!['\\', 'n']
    } else if c == '\r' {
        seq!['\\', 'r']
    } else if c == '\t' {
        seq!['\\', 't']
    } else if (c as u32) < 0x20 {
        seq!['\\', 'u', '0', '0', hex_lower((c as u32) as int / 16), hex_lower((c as u32) as int % 16)]
    } else {
        seq![c]
    }
}

/// The escaped characters of `s`, without the quotes.
pub open spec fn escape_body(s: Seq<char>) -> Seq<char>
    decreases s.len(),
{
    if s.len() == 0 {
        seq![]
    } else {
        escape_char(s[0]) + escape_body(s.skip(1))
    }
}

/// `s` as a JSON string literal.
pub open spec fn json_quoted(s: Seq<char>) -> Seq<char> {
    seq!['"'] + escape_body(s) + seq!['"']
}

pub proof fn lemma_escape_body_push(s: Seq<char>, c: char)
    ensures
        escape_body(s.push(c)) == escape_body(s) + escape_char(c),
    decreases s.len(),
{
    if s.len() == 0 {
        let t = s.push(c);
        assert(t.skip(1) =~= Seq::<char>::empty());
        assert(escape_body(t.skip(1)) =~= Seq::<char>::empty());
        assert(t[0] == c);
        assert(escape_body(t) =~= escape_char(c));
        assert(escape_body(s) =~= Seq::<char>::empty());
    } else {
        assert(s.push(c).skip(1) =~= s.skip(1).push(c));
        lemma_escape_body_push(s.skip(1), c);
        assert(escape_body(s.push(c)) =~= escape_body(s) + escape_char(c));
    }
}

fn hex_lower_char(d: u32) -> (c: char)
    requires
        d < 16,
    ensures
        c == hex_lower(d as int),
{
    if d < 10 {
        ((d + 0x30) as u8) as char
    } else {
        ((d - 10 + 0x61) as u8) as char
    }
}

/// `s` as a JSON string literal: quoted, with `"`, `\`, line feed,
/// carriage return and tab escaped by a backslash and the other control
/// characters as `\u00xx`.
pub fn json_escape(s: &str) -> (r: String)
    ensures
        r@ == json_quoted(s@),
{
    let cs = chars_of(s);
    let mut out = String::new();
    push_char(&mut out, '"');
    let mut i: usize = 0;
    while i < cs.len()
        invariant
            i <= cs.len(),
            out@ == seq!['"'] + escape_body(cs@.take(i as int)),
        decreases cs.len() - i,
    {
        let c = cs[i];
        let ghost before = out@;
        if c == '"' {
            push_char(&mut out, '\\');
            push_char(&mut out, '"');
        } else if c == '\\' {
            push_char(&mut out, '\\');
            push_char(&mut out, '\\');
        } else if c == '\n' {
            push_char(&mut out, '\\');
            push_char(&mut out, 'n');
        } else if c == '\r' {
            push_char(&mut out, '\\');
            push_char(&mut out, 'r');
        } else if c == '\t' {
            push_char(&mut out, '\\');
            push_char(&mut out, 't');
        } else if (c as u32) < 0x20 {
            let v = c as u32;
            push_char(&mut out, '\\');
            push_char(&mut out, 'u');
            push_char(&mut out, '0');
            push_char(&mut out, '0');
            push_char(&mut out, hex_lower_char(v / 16));
            push_char(&mut out, hex_lower_char(v % 16));
        } else {
            push_char(&mut out, c);
        }
        assert(out@ =~= before + escape_char(c));
        proof {
            lemma_escape_body_push(cs@.take(i as int), c);
            assert(cs@.take(i as int + 1) =~= cs@.take(i as int).push(c));
        }
        i += 1;
    }
    assert(cs@.take(cs.len() as int) =~= cs@);
    push_char(&mut out, '"');
    out
}

proof fn lemma_hex_lower(d: int)
    requires
        0 <= d < 16,
    ensures
        ascii_hex(hex_lower(d)),
        hex_val(hex_lower(d)) == d,
{
}

/// Reading the escaped form of `s` back, from `j` up to a closing quote,
/// gives `s` again.
proof fn lemma_body_parses(cs: Seq<char>, j: int, s: Seq<char>, out: Seq<char>)
    requires
        0 <= j,
        j + escape_body(s).len() < cs.len(),
        cs.subrange(j, j + escape_body(s).len()) == escape_body(s),
        cs[j + escape_body(s).len()] == '"',
    ensures
        jstring_body(cs, j, out) == Some((j + escape_body(s).len() + 1, out + s)),
    decreases s.len(),
{
    let n = escape_body(s).len();
    if s.len() == 0 {
        assert(out + s =~= out);
    } else {
        let c = s[0];
        let rest = s.skip(1);
        let e1 = escape_char(c);
        let er = escape_body(rest);
        assert(escape_body(s) == e1 + er);
        assert forall|m: int| 0 <= m < e1.len() implies cs[j + m] == e1[m] by {
            assert(cs.subrange(j, j + n)[m] == cs[j + m]);
            assert(escape_body(s)[m] == e1[m]);
        }
        assert(cs[j + 0] == e1[0]);
        assert(cs[j] == e1[0]);
        assert(e1.len() >= 2 ==> cs[j + 1] == e1[1]);
        let j2 = j + e1.len();
        assert(cs.subrange(j2, j2 + er.len()) =~= er) by {
            assert forall|m: int| 0 <= m < er.len() implies cs.subrange(j2, j2 + er.len())[m] == er[m] by {
                assert(cs.subrange(j, j + n)[e1.len() + m] == cs[j2 + m]);
                assert(escape_body(s)[e1.len() + m] == er[m]);
            }
        }
        lemma_body_parses(cs, j2, rest, out.push(c));
        assert(out.push(c) + rest =~= out + s);
        if c == '"' || c == '\\' || c == '\n' || c == '\r' || c == '\t' {
            assert(cs[j] == '\\');
            assert(cs[j + 1] != 'u');
            assert(escaped(cs[j + 1]) == c);
        } else if (c as u32) < 0x20 {
            let v = c as u32;
            assert(cs[j] == '\\');
            assert(cs[j + 1] == 'u');
            lemma_hex_lower(v as int / 16);
            lemma_hex_lower(v as int % 16);
            assert(cs[j + 2] == e1[2]);
            assert(cs[j + 3] == e1[3]);
            assert(cs[j + 4] == e1[4]);
            assert(cs[j + 5] == e1[5]);
            assert(cs[j + 2] == '0');
            assert(cs[j + 3] == '0');
            vstd::utf8::char_u32_cast(c, v);
            assert(hex4(cs, j + 2) == v);
            assert(unicode4(cs, j + 2) == Some(c));
        } else {
            assert(cs[j] == c);
        }
    }
}

proof fn lemma_ws_run(cs: Seq<char>, i: int, k: int)
    requires
        0 <= i <= k <= cs.len(),
        forall|q: int| i <= q < k ==> cs[q] == ' ',
        k == cs.len() || !white_space(cs[k]),
    ensures
        ws_end(cs, i) == k,
    decreases k - i,
{
    if i < k {
        lemma_ws_run(cs, i + 1, k);
    }
}

/// Each of the words `true`, `false` and `null` is a whole JSON value:
/// wherever one of them stands where a value is read (after any white
/// space), the value is that word and ends right after it.
pub proof fn law_literal_words(cs: Seq<char>, i: int)
    requires
        0 <= i <= cs.len(),
    ensures
        ({
            let j = ws_end(cs, i);
            let w = seq!['t', 'r', 'u', 'e'];
            j + w.len() <= cs.len() && cs.subrange(j, j + w.len()) == w ==> jvalue(cs, i) == Some(j + w.len())
        }),
        ({
            let j = ws_end(cs, i);
            let w = seq!['f', 'a', 'l', 's', 'e'];
            j + w.len() <= cs.len() && cs.subrange(j, j + w.len()) == w ==> jvalue(cs, i) == Some(j + w.len())
        }),
        ({
            let j = ws_end(cs, i);
            let w = seq!['n', 'u', 'l', 'l'];
            j + w.len() <= cs.len() && cs.subrange(j, j + w.len()) == w ==> jvalue(cs, i) == Some(j + w.len())
        }),
{
    let j = ws_end(cs, i);
    lemma_ws_end(cs, i);
    if j < cs.len() {
        if j + 1 <= cs.len() {
            assert(cs.subrange(j, j + 1)[0] == cs[j]);
        }
        let t = seq!['t', 'r', 'u', 'e'];
        let f = seq!['f', 'a', 'l', 's', 'e'];
        let n = seq!['n', 'u', 'l', 'l'];
        if j + 4 <= cs.len() && cs.subrange(j, j + 4) == t {
            assert(cs[j] == cs.subrange(j, j + 4)[0]);
        }
        if j + 5 <= cs.len() && cs.subrange(j, j + 5) == f {
            assert(cs[j] == cs.subrange(j, j + 5)[0]);
        }
        if j + 4 <= cs.len() && cs.subrange(j, j + 4) == n {
            assert(cs[j] == cs.subrange(j, j + 4)[0]);
        }
    }
}

/// A document that is one of the words `true`, `false` or `null`, with
/// any number of spaces before and after it, is valid JSON.
#[verifier::spinoff_prover]
#[verifier::rlimit(50)]
pub proof fn law_literal_documents(before: nat, after: nat)
    ensures
        valid_json(Seq::new(before, |q: int| ' ') + seq!['t', 'r', 'u', 'e'] + Seq::new(after, |q: int| ' ')),
        valid_json(Seq::new(before, |q: int| ' ') + seq!['f', 'a', 'l', 's', 'e'] + Seq::new(after, |q: int| ' ')),
        valid_json(Seq::new(before, |q: int| ' ') + seq!['n', 'u', 'l', 'l'] + Seq::new(after, |q: int| ' ')),
{
    lemma_word_document(before, after, seq!['t', 'r', 'u', 'e']);
    lemma_word_document(before, after, seq!['f', 'a', 'l', 's', 'e']);
    lemma_word_document(before, after, seq!['n', 'u', 'l', 'l']);
}

proof fn lemma_word_document(before: nat, after: nat, w: Seq<char>)
    requires
        w == seq!['t', 'r', 'u', 'e'] || w == seq!['f', 'a', 'l', 's', 'e'] || w == seq!['n', 'u', 'l', 'l'],
    ensures
        valid_json(Seq::new(before, |q: int| ' ') + w + Seq::new(after, |q: int| ' ')),
{
    let cs = Seq::new(before, |q: int| ' ') + w + Seq::new(after, |q: int| ' ');
    let b = before as int;
    let e = b + w.len();
    assert forall|q: int| 0 <= q < b implies cs[q] == ' ' by {}
    assert(cs[b] == w[0]);
    lemma_ws_run(cs, 0, b);
    assert(cs.subrange(b, e) =~= w);
    law_literal_words(cs, 0);
    assert forall|q: int| e <= q < cs.len() implies cs[q] == ' ' by {}
    lemma_ws_run(cs, e, cs.len() as int);
}

/// Escaping a text and reading the literal back gives the text again, and
/// the escaped form is valid JSON on its own.
pub proof fn law_escape_round_trip(s: Seq<char>)
    ensures
        jstring(json_quoted(s), 0) == Some((json_quoted(s).len() as int, s)),
        valid_json(json_quoted(s)),
{
    let cs = json_quoted(s);
    let n = escape_body(s).len() as int;
    assert(cs.subrange(1, 1 + n) =~= escape_body(s));
    lemma_body_parses(cs, 1, s, seq![]);
    assert(seq![] + s =~= s);
    assert(ws_end(cs, 0) == 0);
    assert(ws_end(cs, cs.len() as int) == cs.len());
}

// ---------------------------------------------------------------------------
// Reading one field
// ---------------------------------------------------------------------------

/// The first position at or after `k` where `n` occurs in `h`.
pub open spec fn first_match(h: Seq<char>, n: Seq<char>, k: int) -> Option<int>
    decreases h.len() + 1 - k,
{
    if k < 0 || k + n.len() > h.len() {
        None
    } else if h.subrange(k, k + n.len()) == n {
        Some(k)
    } else {
        first_match(h, n, k + 1)
    }
}

/// Where the value of the field `key` begins: just after the first `:` that
/// follows the first occurrence of `"key"`.
pub open spec fn key_value_start(cs: Seq<char>, key: Seq<char>) -> Option<int> {
    let needle = seq!['"'] + key + seq!['"'];
    match first_match(cs, needle, 0) {
        None => None,
        Some(k) => match first_match(cs, seq![':'], k + needle.len()) {
            None => None,
            Some(c) => Some(c + 1),
        },
    }
}

/// The text of the string that the field `key` holds.
pub open spec fn string_field(cs: Seq<char>, key: Seq<char>) -> Option<Seq<char>> {
    match key_value_start(cs, key) {
        None => None,
        Some(st) => match jstring(cs, ws_end(cs, st)) {
            Some(p) => Some(p.1),
            None => None,
        },
    }
}

pub open spec fn all_ascii_digits(ds: Seq<char>) -> bool {
    forall|k: int| 0 <= k < ds.len() ==> ascii_digit(#[trigger] ds[k])
}

/// What `str::parse::<i64>` gives for `raw`: an optional sign, then one or
/// more ASCII digits, with the value in range.
pub open spec fn int_text(raw: Seq<char>) -> Option<i64> {
    let signed = raw.len() > 0 && (raw[0] == '-' || raw[0] == '+');
    let neg = raw.len() > 0 && raw[0] == '-';
    let ds = if signed {
        raw.skip(1)
    } else {
        raw
    };
    let v = if neg {
        -digits_value(ds)
    } else {
        digits_value(ds)
    };
    if ds.len() == 0 || !all_ascii_digits(ds) || !(i64::MIN <= v <= i64::MAX) {
        None
    } else {
        Some(v as i64)
    }
}

/// The integer that the field `key` holds.
pub open spec fn num_field(cs: Seq<char>, key: Seq<char>) -> Option<i64> {
    match key_value_start(cs, key) {
        None => None,
        Some(st) => {
            let j = ws_end(cs, st);
            let e = number_end(cs, j);
            if e > j {
                int_text(cs.subrange(j, e))
            } else {
                None
            }
        },
    }
}

fn find_from(h: &Vec<char>, n: &Vec<char>, from: usize) -> (r: Option<usize>)
    requires
        from <= h.len(),
    ensures
        end_of(r) == first_match(h@, n@, from as int),
        r matches Some(k) ==> k + n.len() <= h.len(),
{
    let mut k = from;
    loop
        invariant
            from <= k <= h.len(),
            first_match(h@, n@, k as int) == first_match(h@, n@, from as int),
        decreases h.len() - k,
    {
        if n.len() > h.len() - k {
            return None;
        }
        if lit_at(h, k, n).is_some() {
            return Some(k);
        }
        if k == h.len() {
            assert(h@.subrange(k as int, k as int) =~= n@);
            return None;
        }
        k += 1;
    }
}

fn key_start(cs: &Vec<char>, key: &str) -> (r: Option<usize>)
    ensures
        end_of(r) == key_value_start(cs@, key@),
        r matches Some(st) ==> st <= cs.len(),
{
    let mut needle: Vec<char> = Vec::new();
    needle.push('"');
    let kc = chars_of(key);
    let mut i: usize = 0;
    while i < kc.len()
        invariant
            i <= kc.len(),
            needle@ == seq!['"'] + kc@.take(i as int),
        decreases kc.len() - i,
    {
        needle.push(kc[i]);
        assert(kc@.take(i as int + 1) =~= kc@.take(i as int).push(kc@[i as int]));
        i += 1;
    }
    needle.push('"');
    assert(kc@.take(kc.len() as int) =~= kc@);
    assert(needle@ =~= seq!['"'] + key@ + seq!['"']);
    let k = match find_from(cs, &needle, 0) {
        Some(k) => k,
        None => {
            return None;
        },
    };
    let mut colon: Vec<char> = Vec::new();
    colon.push(':');
    assert(colon@ =~= seq![':']);
    match find_from(cs, &colon, k + needle.len()) {
        Some(c) => Some(c + 1),
        None => None,
    }
}

/// The string held by the field `key` of a JSON text, decoded: found
/// without parsing the whole text, as the string after the first `:` that
/// follows the first `"key"`.
pub fn json_string_field(text: &str, key: &str) -> (r: Option<String>)
    ensures
        match r {
            Some(t) => string_field(text@, key@) == Some(t@),
            None => string_field(text@, key@) is None,
        },
{
    let cs = chars_of(text);
    let st = match key_start(&cs, key) {
        Some(st) => st,
        None => {
            return None;
        },
    };
    let j = skip_ws(&cs, st);
    match string_at(&cs, j) {
        Some(p) => Some(crate::text::string_from(p.1.as_slice())),
        None => None,
    }
}

/// `str::parse::<i64>` of the characters `cs[a..b]`.
fn int_in(cs: &Vec<char>, a: usize, b: usize) -> (r: Option<i64>)
    requires
        a <= b <= cs.len(),
    ensures
        r == int_text(cs@.subrange(a as int, b as int)),
{
    let ghost raw = cs@.subrange(a as int, b as int);
    let mut i = a;
    let mut neg = false;
    if a < b && (cs[a] == '-' || cs[a] == '+') {
        neg = cs[a] == '-';
        i = a + 1;
    }
    let ghost ds = cs@.subrange(i as int, b as int);
    assert(ds =~= (if raw.len() > 0 && (raw[0] == '-' || raw[0] == '+') { raw.skip(1) } else { raw }));
    if i == b {
        return None;
    }
    let limit: u64 = if neg { 9223372036854775808 } else { 9223372036854775807 };
    let mut mag: u64 = 0;
    let start = i;
    while i < b
        invariant
            a <= start <= i <= b <= cs.len(),
            ds == cs@.subrange(start as int, b as int),
            raw == cs@.subrange(a as int, b as int),
            ds == (if raw.len() > 0 && (raw[0] == '-' || raw[0] == '+') { raw.skip(1) } else { raw }),
            neg == (raw.len() > 0 && raw[0] == '-'),
            limit == (if neg { 9223372036854775808u64 } else { 9223372036854775807u64 }),
            ds.len() > 0,
            mag as int == digits_value(ds.take(i - start)),
            mag <= limit,
            forall|k: int| 0 <= k < i - start ==> ascii_digit(#[trigger] ds[k]),
        decreases b - i,
    {
        let c = cs[i];
        let u = c as u32;
        if !(0x30 <= u && u <= 0x39) {
            assert(ds[i - start] == c);
            assert(!ascii_digit(ds[i - start]));
            return None;
        }
        let d = (u - 0x30) as u64;
        assert(d <= 9 && limit >= 9);
        assert(ds.take(i - start + 1).drop_last() =~= ds.take(i - start));
        assert(ds.take(i - start + 1).last() == c);
        if mag > (limit - d) / 10 {
            proof {
                assert(mag * 10 + d > limit) by (nonlinear_arith)
                    requires
                        mag > (limit - d) / 10,
                        d <= 9,
                        d <= limit,
                ;
                if all_ascii_digits(ds) {
                    assert forall|j: int| 0 <= j < ds.len() implies crate::lexer_spec::any_digit(#[trigger] ds[j]) by {
                        assert(ascii_digit(ds[j]));
                    }
                    crate::lexer_spec::lemma_digits_prefix(ds, i - start + 1);
                }
            }
            return None;
        }
        assert(mag * 10 + d <= limit) by (nonlinear_arith)
            requires
                mag <= (limit - d) / 10,
                d <= 9,
                d <= limit,
        ;
        mag = mag * 10 + d;
        i += 1;
    }
    assert(ds.take(b - start) =~= ds);
    if neg {
        if mag == 9223372036854775808 {
            Some(i64::MIN)
        } else {
            Some(-(mag as i64))
        }
    } else {
        Some(mag as i64)
    }
}

/// The integer held by the field `key` of a JSON text, found as
/// [`json_string_field`] finds a string: the number after the first `:`
/// that follows the first `"key"`, read by `str::parse::<i64>`.
pub fn json_num_field(text: &str, key: &str) -> (r: Option<i64>)
    ensures
        r == num_field(text@, key@),
{
    let cs = chars_of(text);
    let st = match key_start(&cs, key) {
        Some(st) => st,
        None => {
            return None;
        },
    };
    let j = skip_ws(&cs, st);
    let e = number_at(&cs, j);
    if e > j {
        int_in(&cs, j, e)
    } else {
        None
    }
}

} // verus!
