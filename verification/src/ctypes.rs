//! How the C back end names and handles Kolom's types: the mangled name
//! that every generated helper carries, the C type, the zero value, the
//! reference-count calls and the copy expression for each type, and C
//! string literals that survive any compiler's character set.

use vstd::prelude::*;
use vstd::utf8::encode_utf8;
use crate::text::{push_char, push_str};

verus! {

/// A Kolom type as the C back end sees it. (`Table` is a map from keys
/// to values.)
#[derive(Debug)]
pub enum Ty {
    Num,
    Dec,
    Txt,
    Bool,
    Ch,
    Null,
    Arr(Box<Ty>),
    Shared(Box<Ty>),
    Table(Box<Ty>, Box<Ty>),
    Struct(String),
}

/// The mangled name: one letter per scalar type, a prefix letter per
/// container, `m<key>_<value>` for maps and `st_<name>` for structs.
pub open spec fn mangled(t: Ty) -> Seq<char>
    decreases t,
{
    match t {
        Ty::Num => seq!['i'],
        Ty::Dec => seq!['d'],
        Ty::Txt => seq!['s'],
        Ty::Bool => seq!['b'],
        Ty::Ch => seq!['c'],
        Ty::Null => seq!['n'],
        Ty::Arr(i) => seq!['a'] + mangled(*i),
        Ty::Shared(i) => seq!['h'] + mangled(*i),
        Ty::Table(k, v) => seq!['m'] + mangled(*k) + seq!['_'] + mangled(*v),
        Ty::Struct(n) => seq!['s', 't', '_'] + n@,
    }
}

pub open spec fn c_type(t: Ty) -> Seq<char> {
    match t {
        Ty::Num => "int64_t"@,
        Ty::Dec => "double"@,
        Ty::Txt => "kl_str"@,
        Ty::Bool => "bool"@,
        Ty::Ch => "uint32_t"@,
        Ty::Null => "uint8_t"@,
        Ty::Arr(_) => "kl_arr_"@ + mangled(t),
        Ty::Shared(_) => "kl_sh_"@ + mangled(t) + seq!['*'],
        _ => "kl_map_"@ + mangled(t) + seq!['*'],
    }
}

/// Whether values of the type are reference counted.
pub open spec fn is_refcounted(t: Ty) -> bool {
    t is Txt || t is Arr || t is Shared || t is Table || t is Struct
}

pub open spec fn zero_value(t: Ty) -> Seq<char> {
    match t {
        Ty::Num | Ty::Null | Ty::Ch => "0"@,
        Ty::Dec => "0.0"@,
        Ty::Bool => "false"@,
        Ty::Txt => "kl_str_zero()"@,
        Ty::Arr(_) => "kl_arr_"@ + mangled(t) + "_zero()"@,
        _ => "NULL"@,
    }
}

pub open spec fn up_text(t: Ty, v: Seq<char>) -> Seq<char> {
    match t {
        Ty::Txt => "kl_str_incref("@ + v + seq![')'],
        Ty::Arr(_) => "kl_arr_"@ + mangled(t) + "_incref("@ + v + seq![')'],
        Ty::Shared(_) => "kl_sh_"@ + mangled(t) + "_incref("@ + v + seq![')'],
        Ty::Table(_, _) | Ty::Struct(_) => "kl_map_"@ + mangled(t) + "_incref("@ + v + seq![')'],
        _ => seq![],
    }
}

pub open spec fn down_text(t: Ty, a: Seq<char>) -> Seq<char> {
    match t {
        Ty::Txt => "kl_str_decref(&("@ + a + seq![')', ')'],
        Ty::Arr(_) => "kl_arr_"@ + mangled(t) + "_decref(&("@ + a + seq![')', ')'],
        Ty::Shared(_) => "kl_sh_"@ + mangled(t) + "_decref("@ + a + seq![')'],
        Ty::Table(_, _) | Ty::Struct(_) => "kl_map_"@ + mangled(t) + "_decref(&("@ + a + seq![')', ')'],
        _ => seq![],
    }
}

pub open spec fn copy_text(t: Ty, v: Seq<char>) -> Seq<char> {
    match t {
        Ty::Txt => "kl_str_copy("@ + v + seq![')'],
        Ty::Arr(_) => "kl_deep_"@ + mangled(t) + seq!['('] + v + seq![')'],
        Ty::Shared(_) => seq!['('] + up_text(t, v) + seq![',', ' '] + v + seq![')'],
        _ => v,
    }
}

impl Ty {
    pub fn mg(&self) -> (s: String)
        ensures
            s@ == mangled(*self),
        decreases self,
    {
        let mut s = String::new();
        match self {
            Ty::Num => push_char(&mut s, 'i'),
            Ty::Dec => push_char(&mut s, 'd'),
            Ty::Txt => push_char(&mut s, 's'),
            Ty::Bool => push_char(&mut s, 'b'),
            Ty::Ch => push_char(&mut s, 'c'),
            Ty::Null => push_char(&mut s, 'n'),
            Ty::Arr(i) => {
                push_char(&mut s, 'a');
                let m = i.mg();
                push_str(&mut s, m.as_str());
            },
            Ty::Shared(i) => {
                push_char(&mut s, 'h');
                let m = i.mg();
                push_str(&mut s, m.as_str());
            },
            Ty::Table(k, v) => {
                push_char(&mut s, 'm');
                let mk = k.mg();
                push_str(&mut s, mk.as_str());
                push_char(&mut s, '_');
                let mv = v.mg();
                push_str(&mut s, mv.as_str());
            },
            Ty::Struct(n) => {
                push_char(&mut s, 's');
                push_char(&mut s, 't');
                push_char(&mut s, '_');
                push_str(&mut s, n.as_str());
            },
        }
        assert(s@ =~= mangled(*self));
        s
    }

    /// The C type that holds a value.
    pub fn c(&self) -> (s: String)
        ensures
            s@ == c_type(*self),
    {
        match self {
            Ty::Num => "int64_t".to_owned(),
            Ty::Dec => "double".to_owned(),
            Ty::Txt => "kl_str".to_owned(),
            Ty::Bool => "bool".to_owned(),
            Ty::Ch => "uint32_t".to_owned(),
            Ty::Null => "uint8_t".to_owned(),
            Ty::Arr(_) => {
                let mut s = "kl_arr_".to_owned();
                push_str(&mut s, self.mg().as_str());
                s
            },
            Ty::Shared(_) => {
                let mut s = "kl_sh_".to_owned();
                push_str(&mut s, self.mg().as_str());
                push_char(&mut s, '*');
                s
            },
            Ty::Table(_, _) | Ty::Struct(_) => {
                let mut s = "kl_map_".to_owned();
                push_str(&mut s, self.mg().as_str());
                push_char(&mut s, '*');
                s
            },
        }
    }

    pub fn refcounted(&self) -> (b: bool)
        ensures
            b == is_refcounted(*self),
    {
        match self {
            Ty::Txt | Ty::Arr(_) | Ty::Shared(_) | Ty::Table(_, _) | Ty::Struct(_) => true,
            _ => false,
        }
    }

    /// The C expression for a fresh value of the type.
    pub fn zero(&self) -> (s: String)
        ensures
            s@ == zero_value(*self),
    {
        match self {
            Ty::Num | Ty::Null | Ty::Ch => "0".to_owned(),
            Ty::Dec => "0.0".to_owned(),
            Ty::Bool => "false".to_owned(),
            Ty::Txt => "kl_str_zero()".to_owned(),
            Ty::Arr(_) => {
                let mut s = "kl_arr_".to_owned();
                push_str(&mut s, self.mg().as_str());
                push_str(&mut s, "_zero()");
                s
            },
            Ty::Shared(_) | Ty::Table(_, _) | Ty::Struct(_) => "NULL".to_owned(),
        }
    }

    /// The call that takes a reference to the value `v` (empty for
    /// types without a reference count).
    pub fn up_call(&self, v: &str) -> (s: String)
        ensures
            s@ == up_text(*self, v@),
    {
        let mut s = String::new();
        match self {
            Ty::Txt => push_str(&mut s, "kl_str_incref("),
            Ty::Arr(_) => {
                push_str(&mut s, "kl_arr_");
                push_str(&mut s, self.mg().as_str());
                push_str(&mut s, "_incref(");
            },
            Ty::Shared(_) => {
                push_str(&mut s, "kl_sh_");
                push_str(&mut s, self.mg().as_str());
                push_str(&mut s, "_incref(");
            },
            Ty::Table(_, _) | Ty::Struct(_) => {
                push_str(&mut s, "kl_map_");
                push_str(&mut s, self.mg().as_str());
                push_str(&mut s, "_incref(");
            },
            _ => {
                assert(s@ =~= up_text(*self, v@));
                return s;
            },
        }
        push_str(&mut s, v);
        push_char(&mut s, ')');
        assert(s@ =~= up_text(*self, v@));
        s
    }

    /// The call that drops the reference held at the place `addr` (empty
    /// for types without a reference count).
    pub fn down_call(&self, addr: &str) -> (s: String)
        ensures
            s@ == down_text(*self, addr@),
    {
        let mut s = String::new();
        match self {
            Ty::Txt => {
                push_str(&mut s, "kl_str_decref(&(");
                push_str(&mut s, addr);
                push_char(&mut s, ')');
                push_char(&mut s, ')');
            },
            Ty::Arr(_) => {
                push_str(&mut s, "kl_arr_");
                push_str(&mut s, self.mg().as_str());
                push_str(&mut s, "_decref(&(");
                push_str(&mut s, addr);
                push_char(&mut s, ')');
                push_char(&mut s, ')');
            },
            Ty::Shared(_) => {
                push_str(&mut s, "kl_sh_");
                push_str(&mut s, self.mg().as_str());
                push_str(&mut s, "_decref(");
                push_str(&mut s, addr);
                push_char(&mut s, ')');
            },
            Ty::Table(_, _) | Ty::Struct(_) => {
                push_str(&mut s, "kl_map_");
                push_str(&mut s, self.mg().as_str());
                push_str(&mut s, "_decref(&(");
                push_str(&mut s, addr);
                push_char(&mut s, ')');
                push_char(&mut s, ')');
            },
            _ => {},
        }
        assert(s@ =~= down_text(*self, addr@));
        s
    }

    /// The C expression that copies the value `v` as an assignment does:
    /// texts and arrays deeply, shared cells by taking a reference.
    pub fn copy_expr(&self, v: &str) -> (s: String)
        ensures
            s@ == copy_text(*self, v@),
    {
        match self {
            Ty::Txt => {
                let mut s = "kl_str_copy(".to_owned();
                push_str(&mut s, v);
                push_char(&mut s, ')');
                s
            },
            Ty::Arr(_) => {
                let mut s = "kl_deep_".to_owned();
                push_str(&mut s, self.mg().as_str());
                push_char(&mut s, '(');
                push_str(&mut s, v);
                push_char(&mut s, ')');
                assert(s@ =~= copy_text(*self, v@));
                s
            },
            Ty::Shared(_) => {
                let u = self.up_call(v);
                let mut s = String::new();
                push_char(&mut s, '(');
                push_str(&mut s, u.as_str());
                push_char(&mut s, ',');
                push_char(&mut s, ' ');
                push_str(&mut s, v);
                push_char(&mut s, ')');
                assert(s@ =~= copy_text(*self, v@));
                s
            },
            _ => v.to_owned(),
        }
    }
}

// ---------------------------------------------------------------------------
// C string literals
// ---------------------------------------------------------------------------

/// An octal digit.
pub open spec fn oct(d: int) -> char {
    ((d + 0x30) as u8) as char
}

/// How one byte of UTF-8 is written in a C literal: printable ASCII other
/// than `"`, `\` and `?` as itself, anything else as a three-digit octal
/// escape (so no trigraph can form).
pub open spec fn esc_byte(b: u8) -> Seq<char> {
    if 0x20 <= b <= 0x7E && b != 0x22 && b != 0x5C && b != 0x3F {
        seq![b as char]
    } else {
        seq!['\\', oct(b as int / 64), oct((b as int / 8) % 8), oct(b as int % 8)]
    }
}

pub open spec fn esc_bytes_spec(bs: Seq<u8>) -> Seq<char>
    decreases bs.len(),
{
    if bs.len() == 0 {
        seq![]
    } else {
        esc_bytes_spec(bs.drop_last()) + esc_byte(bs.last())
    }
}

/// The UTF-8 bytes of `s` as the inside of a C string literal.
pub fn esc_bytes(s: &str) -> (r: String)
    ensures
        r@ == esc_bytes_spec(encode_utf8(s@)),
{
    let bs = s.as_bytes();
    let mut o = String::new();
    let mut i: usize = 0;
    while i < bs.len()
        invariant
            i <= bs.len(),
            bs@ == encode_utf8(s@),
            o@ == esc_bytes_spec(bs@.take(i as int)),
        decreases bs.len() - i,
    {
        let b = bs[i];
        let ghost before = o@;
        if 0x20 <= b && b <= 0x7E && b != 0x22 && b != 0x5C && b != 0x3F {
            push_char(&mut o, b as char);
        } else {
            push_char(&mut o, '\\');
            push_char(&mut o, ((b / 64) + 0x30) as char);
            push_char(&mut o, (((b / 8) % 8) + 0x30) as char);
            push_char(&mut o, ((b % 8) + 0x30) as char);
        }
        proof {
            assert(o@ =~= before + esc_byte(b));
            assert(bs@.take(i as int + 1).drop_last() =~= bs@.take(i as int));
        }
        i += 1;
    }
    assert(bs@.take(bs.len() as int) =~= bs@);
    o
}

/// The C string literal of `s`, quotes included.
pub open spec fn c_literal(s: Seq<char>) -> Seq<char> {
    seq!['"'] + esc_bytes_spec(encode_utf8(s)) + seq!['"']
}

/// `s` as a C string literal, quotes included.
pub fn cstr(s: &str) -> (r: String)
    ensures
        r@ == c_literal(s@),
{
    let mut r = String::new();
    push_char(&mut r, '"');
    let e = esc_bytes(s);
    push_str(&mut r, e.as_str());
    push_char(&mut r, '"');
    r
}

/// A character that may stand in a C string literal without ending it,
/// starting an escape other than ours, or forming a trigraph: printable
/// ASCII other than `"` and `?`.
pub open spec fn literal_safe(c: char) -> bool {
    0x20 <= (c as u32) <= 0x7E && c != '"' && c != '?'
}

proof fn lemma_esc_safe(bs: Seq<u8>)
    ensures
        forall|i: int| 0 <= i < esc_bytes_spec(bs).len() ==> literal_safe(#[trigger] esc_bytes_spec(bs)[i]),
    decreases bs.len(),
{
    if bs.len() > 0 {
        lemma_esc_safe(bs.drop_last());
        let e = esc_byte(bs.last());
        let p = esc_bytes_spec(bs.drop_last());
        let all = esc_bytes_spec(bs);
        assert forall|i: int| 0 <= i < e.len() implies literal_safe(#[trigger] e[i]) by {
            let b = bs.last();
            if 0x20 <= b <= 0x7E && b != 0x22 && b != 0x5C && b != 0x3F {
                vstd::utf8::char_u32_cast(b as char, b as u32);
            }
        }
        assert forall|i: int| 0 <= i < all.len() implies literal_safe(#[trigger] all[i]) by {
            if i < p.len() {
                assert(all[i] == p[i]);
            } else {
                assert(all[i] == e[i - p.len()]);
            }
        }
    }
}

/// The inside of a C literal that [`cstr`] writes holds only printable
/// ASCII, never a `"` that would end it early and never a `?` that could
/// start a trigraph, whatever text it encodes.
pub proof fn law_literal_is_safe(s: Seq<char>)
    ensures
        forall|i: int|
            0 <= i < esc_bytes_spec(encode_utf8(s)).len() ==> literal_safe(
                #[trigger] esc_bytes_spec(encode_utf8(s))[i],
            ),
{
    lemma_esc_safe(encode_utf8(s));
}

} // verus!
