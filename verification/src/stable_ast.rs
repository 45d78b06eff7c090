//! The stable, line-oriented text form of syntax trees and diagnostics
//! that tests compare against: one tab-separated record per node or error,
//! with control characters escaped so that each record stays on one line.

use vstd::prelude::*;
use crate::text::{push_char, push_str, chars_of};
use crate::lexer::{Diagnostic, decimal, decimal_chars};
use crate::json::hex_lower;

verus! {

/// The lower-case hexadecimal digits of `v` (below 256), without padding.
pub open spec fn short_hex(v: int) -> Seq<char> {
    if v < 16 {
        seq![hex_lower(v)]
    } else {
        seq![hex_lower(v / 16), hex_lower(v % 16)]
    }
}

/// How one character of a message is written in a record.
pub open spec fn esc_char(c: char) -> Seq<char> {
    if c == '\\' {
        seq!['\\', '\\']
    } else if c == '\t' {
        seq!['\\', 't']
    } else if c == '\n' {
        seq!['\\', 'n']
    } else if c == '\r' {
        seq!['\\', 'r']
    } else if (c as u32) < 32 || c == '\u{7f}' {
        seq!['\\', 'u', '{'] + short_hex(c as u32 as int) + seq!['}']
    } else {
        seq![c]
    }
}

pub open spec fn esc_spec(s: Seq<char>) -> Seq<char>
    decreases s.len(),
{
    if s.len() == 0 {
        seq![]
    } else {
        esc_spec(s.drop_last()) + esc_char(s.last())
    }
}

fn hex_char(d: u32) -> (c: char)
    requires
        d < 16,
    ensures
        c == hex_lower(d as int),
{
    if d < 10 {
        ((d + 0x30) as u8) as char
    } else {
        ((d - 10 + 0x61) as u8) as char
    }
}

/// `value` with backslash, tab, line feed, carriage return and the other
/// control characters escaped.
pub fn esc(value: &str) -> (r: String)
    ensures
        r@ == esc_spec(value@),
{
    let cs = chars_of(value);
    let mut out = String::new();
    let mut i: usize = 0;
    while i < cs.len()
        invariant
            i <= cs.len(),
            cs@ == value@,
            out@ == esc_spec(cs@.take(i as int)),
        decreases cs.len() - i,
    {
        let c = cs[i];
        let ghost before = out@;
        if c == '\\' {
            push_char(&mut out, '\\');
            push_char(&mut out, '\\');
        } else if c == '\t' {
            push_char(&mut out, '\\');
            push_char(&mut out, 't');
        } else if c == '\n' {
            push_char(&mut out, '\\');
            push_char(&mut out, 'n');
        } else if c == '\r' {
            push_char(&mut out, '\\');
            push_char(&mut out, 'r');
        } else if (c as u32) < 32 || c == '\u{7f}' {
            let v = c as u32;
            push_char(&mut out, '\\');
            push_char(&mut out, 'u');
            push_char(&mut out, '{');
            if v >= 16 {
                push_char(&mut out, hex_char(v / 16));
            }
            push_char(&mut out, hex_char(v % 16));
            push_char(&mut out, '}');
        } else {
            push_char(&mut out, c);
        }
        proof {
            assert(out@ =~= before + esc_char(c));
            assert(cs@.take(i as int + 1).drop_last() =~= cs@.take(i as int));
        }
        i += 1;
    }
    assert(cs@.take(cs.len() as int) =~= cs@);
    out
}

/// One error as a record: `ERR`, the phase, line, column and the escaped
/// message, separated by tabs and ended by a line feed.
pub open spec fn error_record(phase: Seq<char>, d: Diagnostic) -> Seq<char> {
    seq!['E', 'R', 'R', '\t'] + phase + seq!['\t'] + decimal(d.line as nat) + seq!['\t'] + decimal(d.col as nat)
        + seq!['\t'] + esc_spec(d.message@) + seq!['\n']
}

pub open spec fn error_records(phase: Seq<char>, ds: Seq<Diagnostic>) -> Seq<char>
    decreases ds.len(),
{
    if ds.len() == 0 {
        seq![]
    } else {
        error_records(phase, ds.drop_last()) + error_record(phase, ds.last())
    }
}

fn push_chars(out: &mut String, v: &Vec<char>)
    ensures
        final(out)@ == old(out)@ + v@,
{
    let mut i: usize = 0;
    while i < v.len()
        invariant
            i <= v.len(),
            out@ == old(out)@ + v@.take(i as int),
        decreases v.len() - i,
    {
        push_char(out, v[i]);
        assert(v@.take(i as int + 1) =~= v@.take(i as int).push(v@[i as int]));
        i += 1;
    }
    assert(v@.take(v.len() as int) =~= v@);
}

fn push_error_record(out: &mut String, phase: &str, e: &Diagnostic)
    ensures
        final(out)@ == old(out)@ + error_record(phase@, *e),
{
    let ghost before = out@;
    push_char(out, 'E');
    push_char(out, 'R');
    push_char(out, 'R');
    push_char(out, '\t');
    push_str(out, phase);
    push_char(out, '\t');
    push_chars(out, &decimal_chars(e.line));
    push_char(out, '\t');
    push_chars(out, &decimal_chars(e.col));
    push_char(out, '\t');
    let m = esc(e.message.as_str());
    push_str(out, m.as_str());
    push_char(out, '\n');
    assert(out@ =~= before + error_record(phase@, *e));
}

/// The records of `errors` found in phase `phase`, in order.
pub fn dump_errors(phase: &str, errors: &Vec<Diagnostic>) -> (r: String)
    ensures
        r@ == error_records(phase@, errors@),
{
    let mut out = String::new();
    let mut k: usize = 0;
    while k < errors.len()
        invariant
            k <= errors.len(),
            out@ == error_records(phase@, errors@.take(k as int)),
        decreases errors.len() - k,
    {
        push_error_record(&mut out, phase, &errors[k]);
        assert(errors@.take(k as int + 1).drop_last() =~= errors@.take(k as int));
        k += 1;
    }
    assert(errors@.take(errors.len() as int) =~= errors@);
    out
}

/// One node record: `NODE`, the kind, the line and column (`0` and `0`
/// without a position) and the escaped payload.
pub open spec fn node_record(kind: Seq<char>, pos: Option<(u32, u32)>, payload: Seq<char>) -> Seq<char> {
    let (line, col) = match pos {
        Some(p) => p,
        None => (0u32, 0u32),
    };
    seq!['N', 'O', 'D', 'E', '\t'] + kind + seq!['\t'] + decimal(line as nat) + seq!['\t'] + decimal(col as nat) + seq![
        '\t',
    ] + esc_spec(payload) + seq!['\n']
}

/// Appends a node record.
pub fn record(out: &mut String, kind: &str, pos: Option<(u32, u32)>, payload: &str)
    ensures
        final(out)@ == old(out)@ + node_record(kind@, pos, payload@),
{
    let (line, col) = match pos {
        Some(p) => p,
        None => (0, 0),
    };
    let ghost before = out@;
    push_str(out, "NODE\t");
    push_str(out, kind);
    push_char(out, '\t');
    push_chars(out, &decimal_chars(line));
    push_char(out, '\t');
    push_chars(out, &decimal_chars(col));
    push_char(out, '\t');
    let e = esc(payload);
    push_str(out, e.as_str());
    push_char(out, '\n');
    proof {
        reveal_strlit("NODE\t");
        assert(out@ =~= before + node_record(kind@, pos, payload@));
    }
}

/// Appends the record that opens a node of kind `kind`.
pub fn begin(out: &mut String, kind: &str, pos: Option<(u32, u32)>)
    ensures
        final(out)@ == old(out)@ + node_record("begin_"@ + kind@, pos, seq![]),
{
    let mut k = "begin_".to_owned();
    push_str(&mut k, kind);
    record(out, k.as_str(), pos, "");
    proof {
        reveal_strlit("");
    }
}

/// Appends the record that closes a node of kind `kind`.
pub fn end(out: &mut String, kind: &str)
    ensures
        final(out)@ == old(out)@ + node_record("end_"@ + kind@, None, seq![]),
{
    let mut k = "end_".to_owned();
    push_str(&mut k, kind);
    record(out, k.as_str(), None, "");
    proof {
        reveal_strlit("");
    }
}

} // verus!
