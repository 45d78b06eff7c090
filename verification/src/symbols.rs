//! Object-file symbol names for Kolom functions. A Kolom name may hold any
//! Unicode letters, so its symbol spells the name's UTF-8 bytes in
//! hexadecimal behind a prefix that says what the symbol is.

use vstd::prelude::*;
use vstd::utf8::{encode_utf8, encode_utf8_decode_utf8};
use crate::text::{push_char, push_str};
use crate::json::hex_lower;

verus! {

/// Two lower-case hexadecimal digits per byte.
pub open spec fn hex_spec(bs: Seq<u8>) -> Seq<char>
    decreases bs.len(),
{
    if bs.len() == 0 {
        seq![]
    } else {
        hex_spec(bs.drop_last()) + seq![hex_lower(bs.last() as int / 16), hex_lower(bs.last() as int % 16)]
    }
}

fn hex_digit(d: u8) -> (c: char)
    requires
        d < 16,
    ensures
        c == hex_lower(d as int),
{
    if d < 10 {
        (d + 0x30) as char
    } else {
        (d - 10 + 0x61) as char
    }
}

/// The UTF-8 bytes of `name` in hexadecimal.
pub fn hex(name: &str) -> (s: String)
    ensures
        s@ == hex_spec(encode_utf8(name@)),
{
    let bs = name.as_bytes();
    let mut s = String::new();
    let mut i: usize = 0;
    while i < bs.len()
        invariant
            i <= bs.len(),
            bs@ == encode_utf8(name@),
            s@ == hex_spec(bs@.take(i as int)),
        decreases bs.len() - i,
    {
        let b = bs[i];
        push_char(&mut s, hex_digit(b / 16));
        push_char(&mut s, hex_digit(b % 16));
        proof {
            assert(bs@.take(i as int + 1).drop_last() =~= bs@.take(i as int));
        }
        i += 1;
    }
    assert(bs@.take(bs.len() as int) =~= bs@);
    s
}

/// The symbol of a function.
pub open spec fn fn_symbol(name: Seq<char>) -> Seq<char> {
    seq!['k', 'f', '_'] + hex_spec(encode_utf8(name))
}

/// The symbol of a struct's drop function.
pub open spec fn drop_symbol(name: Seq<char>) -> Seq<char> {
    seq!['k', 'd', '_'] + hex_spec(encode_utf8(name))
}

/// The symbol of a struct's full release function.
pub open spec fn full_decref_symbol(name: Seq<char>) -> Seq<char> {
    seq!['k', 'f', 'd', '_'] + hex_spec(encode_utf8(name))
}

pub fn mangle(name: &str) -> (s: String)
    ensures
        s@ == fn_symbol(name@),
{
    let mut s = String::new();
    push_char(&mut s, 'k');
    push_char(&mut s, 'f');
    push_char(&mut s, '_');
    push_str(&mut s, hex(name).as_str());
    s
}

pub fn mangle_drop(name: &str) -> (s: String)
    ensures
        s@ == drop_symbol(name@),
{
    let mut s = String::new();
    push_char(&mut s, 'k');
    push_char(&mut s, 'd');
    push_char(&mut s, '_');
    push_str(&mut s, hex(name).as_str());
    s
}

pub fn mangle_full_decref(name: &str) -> (s: String)
    ensures
        s@ == full_decref_symbol(name@),
{
    let mut s = String::new();
    push_char(&mut s, 'k');
    push_char(&mut s, 'f');
    push_char(&mut s, 'd');
    push_char(&mut s, '_');
    push_str(&mut s, hex(name).as_str());
    s
}

proof fn lemma_hex_len(bs: Seq<u8>)
    ensures
        hex_spec(bs).len() == 2 * bs.len(),
    decreases bs.len(),
{
    if bs.len() > 0 {
        lemma_hex_len(bs.drop_last());
    }
}

proof fn lemma_hex_digit_injective(a: int, b: int)
    requires
        0 <= a < 16,
        0 <= b < 16,
        hex_lower(a) == hex_lower(b),
    ensures
        a == b,
{
}

proof fn lemma_hex_injective(x: Seq<u8>, y: Seq<u8>)
    requires
        hex_spec(x) == hex_spec(y),
    ensures
        x == y,
    decreases x.len(),
{
    lemma_hex_len(x);
    lemma_hex_len(y);
    if x.len() > 0 {
        let hx = hex_spec(x);
        let n = hx.len();
        let px = hex_spec(x.drop_last());
        let py = hex_spec(y.drop_last());
        lemma_hex_len(x.drop_last());
        lemma_hex_len(y.drop_last());
        assert(hx[n - 2] == hex_lower(x.last() as int / 16));
        assert(hx[n - 1] == hex_lower(x.last() as int % 16));
        assert(hex_spec(y)[n - 2] == hex_lower(y.last() as int / 16));
        assert(hex_spec(y)[n - 1] == hex_lower(y.last() as int % 16));
        lemma_hex_digit_injective(x.last() as int / 16, y.last() as int / 16);
        lemma_hex_digit_injective(x.last() as int % 16, y.last() as int % 16);
        assert(px =~= hx.subrange(0, n - 2));
        assert(py =~= hex_spec(y).subrange(0, n - 2));
        lemma_hex_injective(x.drop_last(), y.drop_last());
        assert(x =~= x.drop_last().push(x.last()));
        assert(y =~= y.drop_last().push(y.last()));
    } else {
        assert(y.len() == 0);
        assert(x =~= y);
    }
}

/// Different Kolom names never get the same symbol, of any of the three
/// kinds, and symbols of different kinds never meet.
pub proof fn law_symbols_distinct(a: Seq<char>, b: Seq<char>)
    ensures
        fn_symbol(a) == fn_symbol(b) ==> a == b,
        drop_symbol(a) == drop_symbol(b) ==> a == b,
        full_decref_symbol(a) == full_decref_symbol(b) ==> a == b,
        fn_symbol(a) != drop_symbol(b),
        fn_symbol(a) != full_decref_symbol(b),
        drop_symbol(a) != full_decref_symbol(b),
{
    encode_utf8_decode_utf8(a);
    encode_utf8_decode_utf8(b);
    let ha = hex_spec(encode_utf8(a));
    let hb = hex_spec(encode_utf8(b));
    if fn_symbol(a) == fn_symbol(b) {
        assert(fn_symbol(a).subrange(3, fn_symbol(a).len() as int) =~= ha);
        assert(fn_symbol(b).subrange(3, fn_symbol(b).len() as int) =~= hb);
        lemma_hex_injective(encode_utf8(a), encode_utf8(b));
    }
    if drop_symbol(a) == drop_symbol(b) {
        assert(drop_symbol(a).subrange(3, drop_symbol(a).len() as int) =~= ha);
        assert(drop_symbol(b).subrange(3, drop_symbol(b).len() as int) =~= hb);
        lemma_hex_injective(encode_utf8(a), encode_utf8(b));
    }
    if full_decref_symbol(a) == full_decref_symbol(b) {
        assert(full_decref_symbol(a).subrange(4, full_decref_symbol(a).len() as int) =~= ha);
        assert(full_decref_symbol(b).subrange(4, full_decref_symbol(b).len() as int) =~= hb);
        lemma_hex_injective(encode_utf8(a), encode_utf8(b));
    }
    assert(fn_symbol(a)[1] == 'f' && drop_symbol(b)[1] == 'd');
    assert(drop_symbol(a)[1] == 'd' && full_decref_symbol(b)[1] == 'f');
    assert(fn_symbol(a)[2] == '_' && full_decref_symbol(b)[2] == 'd');
}

/// A character allowed in a symbol: a lower-case ASCII letter, a digit or
/// an underscore.
pub open spec fn symbol_char(c: char) -> bool {
    (0x61 <= (c as u32) <= 0x7A) || (0x30 <= (c as u32) <= 0x39) || c == '_'
}

proof fn lemma_hex_chars(bs: Seq<u8>)
    ensures
        forall|i: int| 0 <= i < hex_spec(bs).len() ==> symbol_char(#[trigger] hex_spec(bs)[i]),
    decreases bs.len(),
{
    if bs.len() > 0 {
        lemma_hex_chars(bs.drop_last());
        let b = bs.last() as int;
        assert(symbol_char(hex_lower(b / 16)));
        assert(symbol_char(hex_lower(b % 16)));
        let h = hex_spec(bs);
        let p = hex_spec(bs.drop_last());
        assert forall|i: int| 0 <= i < h.len() implies symbol_char(#[trigger] h[i]) by {
            if i < p.len() {
                assert(h[i] == p[i]);
            }
        }
    }
}

/// Every symbol is plain ASCII that any object format and linker accept:
/// lower-case letters, digits and underscores only, whatever letters the
/// Kolom name holds.
pub proof fn law_symbols_are_ascii(name: Seq<char>)
    ensures
        forall|i: int| 0 <= i < fn_symbol(name).len() ==> symbol_char(#[trigger] fn_symbol(name)[i]),
        forall|i: int| 0 <= i < drop_symbol(name).len() ==> symbol_char(#[trigger] drop_symbol(name)[i]),
        forall|i: int|
            0 <= i < full_decref_symbol(name).len() ==> symbol_char(#[trigger] full_decref_symbol(name)[i]),
{
    let h = hex_spec(encode_utf8(name));
    lemma_hex_chars(encode_utf8(name));
    assert forall|i: int| 0 <= i < fn_symbol(name).len() implies symbol_char(#[trigger] fn_symbol(name)[i]) by {
        if i >= 3 {
            assert(fn_symbol(name)[i] == h[i - 3]);
        }
    }
    assert forall|i: int| 0 <= i < drop_symbol(name).len() implies symbol_char(#[trigger] drop_symbol(name)[i]) by {
        if i >= 3 {
            assert(drop_symbol(name)[i] == h[i - 3]);
        }
    }
    assert forall|i: int|
        0 <= i < full_decref_symbol(name).len() implies symbol_char(#[trigger] full_decref_symbol(name)[i]) by {
        if i >= 4 {
            assert(full_decref_symbol(name)[i] == h[i - 4]);
        }
    }
}

} // verus!
