//! The helper functions that the C back end writes for the types a program
//! uses: print functions, text conversions, deep copies and the
//! reference-counted array, map and shared-cell types. Each helper is
//! written once, and the helpers of a container's inner types come before
//! its own.

use vstd::prelude::*;
use vstd::utf8::encode_utf8;
use crate::ctypes::{
    Ty, mangled, c_type, is_refcounted, zero_value, up_text, down_text, copy_text, esc_bytes_spec,
    c_literal, cstr, esc_bytes,
};
use crate::ctemplates::{
    filled, fill, RUNTIME_TEMPLATE, ARR_TEMPLATE, MAP_TEMPLATE, SH_TEMPLATE, TOSTR_ARR_TEMPLATE,
    DEEP_ARR_TEMPLATE, PRINT_NUM_TEMPLATE, PRINT_DEC_TEMPLATE, PRINT_BOOL_TEMPLATE, PRINT_CH_TEMPLATE,
    PRINT_TXT_TEMPLATE, PRINT_NULL_TEMPLATE, TOSTR_NUM_TEMPLATE, TOSTR_DEC_TEMPLATE, TOSTR_BOOL_TEMPLATE,
    TOSTR_CH_TEMPLATE, TOSTR_TXT_TEMPLATE, TOSTR_NULL_TEMPLATE, DEEP_TXT_TEMPLATE, DEEP_SHARED_TEMPLATE,
    WORD_TRUE, WORD_FALSE, WORD_NULL, PANIC_HEADING, OVERFLOW, DIVISION_BY_ZERO, REMAINDER_BY_ZERO,
    OUT_OF_BOUNDS,
};
use crate::text::{push_char, push_str, str_is};
use crate::strlib::starts_with;

verus! {

/// The texts of a list of strings.
pub open spec fn texts(v: Seq<String>) -> Seq<Seq<char>> {
    v.map_values(|s: String| s@)
}

/// The print function of a scalar type; containers print through their
/// own helpers, so theirs is empty.
pub open spec fn print_code(t: Ty) -> Seq<char> {
    let m = mangled(t);
    match t {
        Ty::Num => filled(PRINT_NUM_TEMPLATE@, seq![m]),
        Ty::Dec => filled(PRINT_DEC_TEMPLATE@, seq![m]),
        Ty::Bool => filled(PRINT_BOOL_TEMPLATE@, seq![m, c_literal(WORD_TRUE@), c_literal(WORD_FALSE@)]),
        Ty::Ch => filled(PRINT_CH_TEMPLATE@, seq![m]),
        Ty::Txt => filled(PRINT_TXT_TEMPLATE@, seq![m]),
        Ty::Null => filled(PRINT_NULL_TEMPLATE@, seq![m, c_literal(WORD_NULL@)]),
        _ => seq![],
    }
}

/// The text conversion of a type: scalars and arrays have one.
pub open spec fn tostr_code(t: Ty) -> Seq<char> {
    let m = mangled(t);
    match t {
        Ty::Num => filled(TOSTR_NUM_TEMPLATE@, seq![m]),
        Ty::Dec => filled(TOSTR_DEC_TEMPLATE@, seq![m]),
        Ty::Bool => filled(TOSTR_BOOL_TEMPLATE@, seq![m, c_literal(WORD_TRUE@), c_literal(WORD_FALSE@)]),
        Ty::Ch => filled(TOSTR_CH_TEMPLATE@, seq![m]),
        Ty::Txt => filled(TOSTR_TXT_TEMPLATE@, seq![m]),
        Ty::Null => filled(TOSTR_NULL_TEMPLATE@, seq![m, c_literal(WORD_NULL@)]),
        Ty::Arr(e) => filled(TOSTR_ARR_TEMPLATE@, seq![m, "kl_tostr_"@ + mangled(*e) + "(v.data[i])"@]),
        _ => seq![],
    }
}

/// How one element is copied into a fresh array.
pub open spec fn deep_elem(e: Ty) -> Seq<char> {
    if is_refcounted(e) {
        "r.data[i] = "@ + copy_text(e, "src.data[i]"@) + seq![';']
    } else {
        "r.data[i] = src.data[i];"@
    }
}

/// The deep copy of text, arrays and shared cells.
pub open spec fn deep_code(t: Ty) -> Seq<char> {
    let m = mangled(t);
    match t {
        Ty::Txt => filled(DEEP_TXT_TEMPLATE@, seq![m]),
        Ty::Arr(e) => filled(DEEP_ARR_TEMPLATE@, seq![m, deep_elem(*e)]),
        Ty::Shared(_) => filled(DEEP_SHARED_TEMPLATE@, seq![m]),
        _ => seq![],
    }
}

/// `text` when the element type is reference counted, else `other`.
pub open spec fn when_counted(e: Ty, text: Seq<char>, other: Seq<char>) -> Seq<char> {
    if is_refcounted(e) {
        text
    } else {
        other
    }
}

/// The values of the holes of an array type's helpers.
pub open spec fn arr_holes(e: Ty) -> Seq<Seq<char>> {
    seq![
        c_type(e),
        seq!['a'] + mangled(e),
        when_counted(e, down_text(e, "arr->data[i]"@) + seq![';'], "(void)0;"@),
        when_counted(e, "return "@ + copy_text(e, "a.data[i]"@) + seq![';'], "return a.data[i];"@),
        when_counted(e, "\n    "@ + up_text(e, "v"@) + ";\n    "@ + down_text(e, "a.data[i]"@) + seq![';'], seq![]),
        when_counted(e, "r.data[i] = "@ + copy_text(e, "x.data[i]"@) + seq![';'], seq![]),
        when_counted(e, "r.data[x.len + i] = "@ + copy_text(e, "y.data[i]"@) + seq![';'], seq![]),
        "kl_print_"@ + mangled(e),
    ]
}

pub open spec fn arr_code(e: Ty) -> Seq<char> {
    filled(ARR_TEMPLATE@, arr_holes(e))
}

/// The values of the holes of a map type's helpers.
pub open spec fn map_holes(k: Ty, v: Ty) -> Seq<Seq<char>> {
    seq![
        c_type(v),
        seq!['m'] + mangled(k) + seq!['_'] + mangled(v),
        when_counted(v, down_text(v, "p->entries[idx].val"@) + seq![';'], seq![]),
        when_counted(v, up_text(v, "val"@) + seq![';'], seq![]),
    ]
}

pub open spec fn map_code(k: Ty, v: Ty) -> Seq<char> {
    filled(MAP_TEMPLATE@, map_holes(k, v))
}

/// The values of the holes of a shared cell's helpers.
pub open spec fn sh_holes(i: Ty) -> Seq<Seq<char>> {
    seq![
        c_type(i),
        seq!['h'] + mangled(i),
        when_counted(i, "\n    "@ + down_text(i, "&pp->v"@) + seq![';'], seq![]),
        esc_bytes_spec(encode_utf8(zero_value(i))),
        "kl_print_"@ + mangled(i),
    ]
}

pub open spec fn sh_code(i: Ty) -> Seq<char> {
    filled(SH_TEMPLATE@, sh_holes(i))
}

/// The runtime with its messages as C literals.
pub open spec fn runtime_code() -> Seq<char> {
    filled(
        RUNTIME_TEMPLATE@,
        seq![
            c_literal(PANIC_HEADING@),
            c_literal(OVERFLOW@),
            c_literal(DIVISION_BY_ZERO@),
            c_literal(REMAINDER_BY_ZERO@),
            c_literal(OUT_OF_BOUNDS@),
        ],
    )
}

/// The runtime that every generated program starts with.
pub fn runtime() -> (r: String)
    ensures
        r@ == runtime_code(),
{
    let hs = vec![cstr(PANIC_HEADING), cstr(OVERFLOW), cstr(DIVISION_BY_ZERO), cstr(REMAINDER_BY_ZERO), cstr(OUT_OF_BOUNDS)];
    assert(texts(hs@) =~= seq![
        c_literal(PANIC_HEADING@),
        c_literal(OVERFLOW@),
        c_literal(DIVISION_BY_ZERO@),
        c_literal(REMAINDER_BY_ZERO@),
        c_literal(OUT_OF_BOUNDS@),
    ]);
    fill(RUNTIME_TEMPLATE, &hs)
}

/// Fills a template whose only hole is a mangled name.
fn fill_name(template: &str, m: String) -> (r: String)
    ensures
        r@ == filled(template@, seq![m@]),
{
    let hs = vec![m];
    assert(texts(hs@) =~= seq![hs@[0]@]);
    fill(template, &hs)
}

/// Fills a template whose holes are a mangled name and two words.
fn fill_words(template: &str, m: String, a: &str, b: &str) -> (r: String)
    ensures
        r@ == filled(template@, seq![m@, c_literal(a@), c_literal(b@)]),
{
    let hs = vec![m, cstr(a), cstr(b)];
    assert(texts(hs@) =~= seq![hs@[0]@, hs@[1]@, hs@[2]@]);
    fill(template, &hs)
}

/// Fills a template whose holes are a mangled name and one word.
fn fill_word(template: &str, m: String, a: &str) -> (r: String)
    ensures
        r@ == filled(template@, seq![m@, c_literal(a@)]),
{
    let hs = vec![m, cstr(a)];
    assert(texts(hs@) =~= seq![hs@[0]@, hs@[1]@]);
    fill(template, &hs)
}

/// Fills a template whose holes are a mangled name and one more value.
fn fill_two(template: &str, m: String, x: String) -> (r: String)
    ensures
        r@ == filled(template@, seq![m@, x@]),
{
    let hs = vec![m, x];
    assert(texts(hs@) =~= seq![hs@[0]@, hs@[1]@]);
    fill(template, &hs)
}

/// The print function of `t`.
pub fn print_impl(t: &Ty) -> (r: String)
    ensures
        r@ == print_code(*t),
{
    let m = t.mg();
    match t {
        Ty::Num => fill_name(PRINT_NUM_TEMPLATE, m),
        Ty::Dec => fill_name(PRINT_DEC_TEMPLATE, m),
        Ty::Bool => fill_words(PRINT_BOOL_TEMPLATE, m, WORD_TRUE, WORD_FALSE),
        Ty::Ch => fill_name(PRINT_CH_TEMPLATE, m),
        Ty::Txt => fill_name(PRINT_TXT_TEMPLATE, m),
        Ty::Null => fill_word(PRINT_NULL_TEMPLATE, m, WORD_NULL),
        _ => String::new(),
    }
}

/// The text conversion of `t`.
pub fn tostr_impl(t: &Ty) -> (r: String)
    ensures
        r@ == tostr_code(*t),
{
    let m = t.mg();
    match t {
        Ty::Num => fill_name(TOSTR_NUM_TEMPLATE, m),
        Ty::Dec => fill_name(TOSTR_DEC_TEMPLATE, m),
        Ty::Bool => fill_words(TOSTR_BOOL_TEMPLATE, m, WORD_TRUE, WORD_FALSE),
        Ty::Ch => fill_name(TOSTR_CH_TEMPLATE, m),
        Ty::Txt => fill_name(TOSTR_TXT_TEMPLATE, m),
        Ty::Null => fill_word(TOSTR_NULL_TEMPLATE, m, WORD_NULL),
        Ty::Arr(e) => {
            let mut x = String::new();
            push_str(&mut x, "kl_tostr_");
            let em = e.mg();
            push_str(&mut x, em.as_str());
            push_str(&mut x, "(v.data[i])");
            fill_two(TOSTR_ARR_TEMPLATE, m, x)
        },
        _ => String::new(),
    }
}

/// The deep copy of `t`.
pub fn deep_impl(t: &Ty) -> (r: String)
    ensures
        r@ == deep_code(*t),
{
    let m = t.mg();
    match t {
        Ty::Txt => fill_name(DEEP_TXT_TEMPLATE, m),
        Ty::Arr(e) => {
            let mut x = String::new();
            if e.refcounted() {
                push_str(&mut x, "r.data[i] = ");
                let c = e.copy_expr("src.data[i]");
                push_str(&mut x, c.as_str());
                push_char(&mut x, ';');
            } else {
                push_str(&mut x, "r.data[i] = src.data[i];");
            }
            assert(x@ == deep_elem(**e));
            fill_two(DEEP_ARR_TEMPLATE, m, x)
        },
        Ty::Shared(_) => fill_name(DEEP_SHARED_TEMPLATE, m),
        _ => String::new(),
    }
}

/// `a` followed by `c`.
fn with_char(a: &str, c: char) -> (r: String)
    ensures
        r@ == a@ + seq![c],
{
    let mut r = String::new();
    push_str(&mut r, a);
    push_char(&mut r, c);
    r
}

/// The helpers of the map type from `kt` to `vt`.
pub fn map_impl(kt: &Ty, vt: &Ty) -> (r: String)
    ensures
        r@ == map_code(*kt, *vt),
{
    let mut m = String::new();
    push_char(&mut m, 'm');
    push_str(&mut m, kt.mg().as_str());
    push_char(&mut m, '_');
    push_str(&mut m, vt.mg().as_str());
    let counted = vt.refcounted();
    let down_old = if counted {
        with_char(vt.down_call("p->entries[idx].val").as_str(), ';')
    } else {
        String::new()
    };
    let up_new = if counted {
        with_char(vt.up_call("val").as_str(), ';')
    } else {
        String::new()
    };
    let ghost mh = map_holes(*kt, *vt);
    assert(m@ == mh[1]);
    assert(down_old@ == mh[2]);
    assert(up_new@ == mh[3]);
    let hs = vec![vt.c(), m, down_old, up_new];
    assert(hs@.len() == 4);
    assert(hs@[0]@ == mh[0]);
    assert(texts(hs@) =~= map_holes(*kt, *vt));
    fill(MAP_TEMPLATE, &hs)
}


/// The helpers written so far, in order, and the mangled names of the
/// types whose print function, deep copy and text conversion have been
/// written.
pub struct Helpers {
    impls: Vec<String>,
    printed: Vec<String>,
    copied: Vec<String>,
    converted: Vec<String>,
}

/// The helpers as plain values.
pub struct HelpersV {
    pub impls: Seq<Seq<char>>,
    pub printed: Seq<Seq<char>>,
    pub copied: Seq<Seq<char>>,
    pub converted: Seq<Seq<char>>,
}

impl View for Helpers {
    type V = HelpersV;

    closed spec fn view(&self) -> HelpersV {
        HelpersV {
            impls: texts(self.impls@),
            printed: texts(self.printed@),
            copied: texts(self.copied@),
            converted: texts(self.converted@),
        }
    }
}

/// The comment that opens the helpers of the type with mangled name `m`.
pub open spec fn marker(m: Seq<char>) -> Seq<char> {
    "/* kl_marker_"@ + m + " */"@
}

pub open spec fn starts(s: Seq<char>, p: Seq<char>) -> bool {
    p.len() <= s.len() && s.take(p.len() as int) == p
}

/// Whether the helpers of the type with mangled name `m` are written.
pub open spec fn has_impl_spec(h: HelpersV, m: Seq<char>) -> bool {
    exists|i: int| 0 <= i < h.impls.len() && starts(#[trigger] h.impls[i], marker(m))
}

/// `h` with `code` written under the marker of `m`.
pub open spec fn mark_spec(h: HelpersV, m: Seq<char>, code: Seq<char>) -> HelpersV {
    HelpersV { impls: h.impls.push(marker(m) + seq!['\n'] + code), ..h }
}

/// Writes the print functions that `t` needs, inner types first, each once.
pub open spec fn ensure_print_spec(h: HelpersV, t: Ty) -> HelpersV
    decreases t,
{
    let h1 = match t {
        Ty::Arr(i) => ensure_print_spec(h, *i),
        Ty::Shared(i) => ensure_print_spec(h, *i),
        _ => h,
    };
    if h1.printed.contains(mangled(t)) {
        h1
    } else {
        HelpersV { printed: h1.printed.push(mangled(t)), impls: h1.impls.push(print_code(t)), ..h1 }
    }
}

/// Writes the deep copies that `t` needs, inner types first, each once;
/// types that are not reference counted need none.
pub open spec fn ensure_deep_spec(h: HelpersV, t: Ty) -> HelpersV
    decreases t,
{
    let h1 = match t {
        Ty::Arr(i) => ensure_deep_spec(h, *i),
        Ty::Shared(i) => ensure_deep_spec(h, *i),
        _ => h,
    };
    if !is_refcounted(t) || h1.copied.contains(mangled(t)) {
        h1
    } else {
        HelpersV { copied: h1.copied.push(mangled(t)), impls: h1.impls.push(deep_code(t)), ..h1 }
    }
}

/// Writes the text conversions that `t` needs, element types first, each
/// once.
pub open spec fn ensure_tostr_spec(h: HelpersV, t: Ty) -> HelpersV
    decreases t,
{
    let h1 = match t {
        Ty::Arr(i) => ensure_tostr_spec(h, *i),
        _ => h,
    };
    if h1.converted.contains(mangled(t)) {
        h1
    } else {
        HelpersV { converted: h1.converted.push(mangled(t)), impls: h1.impls.push(tostr_code(t)), ..h1 }
    }
}

/// What an array type's helpers need written first: the element's print
/// function and, for a counted element, its deep copy.
pub open spec fn arr_prep(h: HelpersV, e: Ty) -> HelpersV {
    let h1 = ensure_print_spec(h, e);
    if is_refcounted(e) {
        ensure_deep_spec(h1, e)
    } else {
        h1
    }
}

/// Writes the helpers of the container types in `t`, inner types first,
/// each once.
pub open spec fn ensure_spec(h: HelpersV, t: Ty) -> HelpersV
    decreases t,
{
    match t {
        Ty::Arr(i) => {
            let h1 = ensure_spec(h, *i);
            if has_impl_spec(h1, mangled(t)) {
                h1
            } else {
                mark_spec(arr_prep(h1, *i), mangled(t), arr_code(*i))
            }
        },
        Ty::Shared(i) => {
            let h1 = ensure_spec(h, *i);
            if has_impl_spec(h1, mangled(t)) {
                h1
            } else {
                mark_spec(ensure_print_spec(h1, *i), mangled(t), sh_code(*i))
            }
        },
        Ty::Table(k, v) => {
            let h1 = ensure_spec(ensure_spec(h, *k), *v);
            if has_impl_spec(h1, mangled(t)) {
                h1
            } else {
                mark_spec(h1, mangled(t), map_code(*k, *v))
            }
        },
        _ => h,
    }
}

/// The helpers one after another, each followed by a line feed.
pub open spec fn block_text(impls: Seq<Seq<char>>) -> Seq<char>
    decreases impls.len(),
{
    if impls.len() == 0 {
        seq![]
    } else {
        block_text(impls.drop_last()) + impls.last() + seq!['\n']
    }
}


/// `a` is a prefix of `b`.
pub open spec fn prefix(a: Seq<Seq<char>>, b: Seq<Seq<char>>) -> bool {
    a.len() <= b.len() && forall|i: int| 0 <= i < a.len() ==> #[trigger] b[i] == a[i]
}

/// `b` is `a` with more written: every list of `a` is a prefix of the
/// same list of `b`.
pub open spec fn grows(a: HelpersV, b: HelpersV) -> bool {
    &&& prefix(a.impls, b.impls)
    &&& prefix(a.printed, b.printed)
    &&& prefix(a.copied, b.copied)
    &&& prefix(a.converted, b.converted)
}

/// The helpers of every container type in `t` are written.
pub open spec fn covered(h: HelpersV, t: Ty) -> bool
    decreases t,
{
    match t {
        Ty::Arr(i) => covered(h, *i) && has_impl_spec(h, mangled(t)),
        Ty::Shared(i) => covered(h, *i) && has_impl_spec(h, mangled(t)),
        Ty::Table(k, v) => covered(h, *k) && covered(h, *v) && has_impl_spec(h, mangled(t)),
        _ => true,
    }
}

/// The print functions of `t` and of the types inside it are written.
pub open spec fn print_covered(h: HelpersV, t: Ty) -> bool
    decreases t,
{
    &&& h.printed.contains(mangled(t))
    &&& match t {
        Ty::Arr(i) => print_covered(h, *i),
        Ty::Shared(i) => print_covered(h, *i),
        _ => true,
    }
}

/// The deep copies of the counted types in `t` are written.
pub open spec fn deep_covered(h: HelpersV, t: Ty) -> bool
    decreases t,
{
    &&& is_refcounted(t) ==> h.copied.contains(mangled(t))
    &&& match t {
        Ty::Arr(i) => deep_covered(h, *i),
        Ty::Shared(i) => deep_covered(h, *i),
        _ => true,
    }
}

/// The text conversions of `t` and of its element types are written.
pub open spec fn tostr_covered(h: HelpersV, t: Ty) -> bool
    decreases t,
{
    &&& h.converted.contains(mangled(t))
    &&& match t {
        Ty::Arr(i) => tostr_covered(h, *i),
        _ => true,
    }
}

proof fn lemma_grows_trans(a: HelpersV, b: HelpersV, c: HelpersV)
    requires
        grows(a, b),
        grows(b, c),
    ensures
        grows(a, c),
{
    assert forall|i: int| 0 <= i < a.impls.len() implies #[trigger] c.impls[i] == a.impls[i] by {
        assert(b.impls[i] == a.impls[i]);
    }
    assert forall|i: int| 0 <= i < a.printed.len() implies #[trigger] c.printed[i] == a.printed[i] by {
        assert(b.printed[i] == a.printed[i]);
    }
    assert forall|i: int| 0 <= i < a.copied.len() implies #[trigger] c.copied[i] == a.copied[i] by {
        assert(b.copied[i] == a.copied[i]);
    }
    assert forall|i: int| 0 <= i < a.converted.len() implies #[trigger] c.converted[i] == a.converted[i] by {
        assert(b.converted[i] == a.converted[i]);
    }
}

proof fn lemma_prefix_contains(a: Seq<Seq<char>>, b: Seq<Seq<char>>, x: Seq<char>)
    requires
        prefix(a, b),
        a.contains(x),
    ensures
        b.contains(x),
{
    let i = choose|i: int| 0 <= i < a.len() && a[i] == x;
    assert(b[i] == a[i]);
}

proof fn lemma_has_impl_grows(a: HelpersV, b: HelpersV, m: Seq<char>)
    requires
        grows(a, b),
        has_impl_spec(a, m),
    ensures
        has_impl_spec(b, m),
{
    let i = choose|i: int| 0 <= i < a.impls.len() && starts(#[trigger] a.impls[i], marker(m));
    assert(b.impls[i] == a.impls[i]);
}

proof fn lemma_covered_grows(a: HelpersV, b: HelpersV, t: Ty)
    requires
        grows(a, b),
        covered(a, t),
    ensures
        covered(b, t),
    decreases t,
{
    match t {
        Ty::Arr(i) => {
            lemma_covered_grows(a, b, *i);
            lemma_has_impl_grows(a, b, mangled(t));
        },
        Ty::Shared(i) => {
            lemma_covered_grows(a, b, *i);
            lemma_has_impl_grows(a, b, mangled(t));
        },
        Ty::Table(k, v) => {
            lemma_covered_grows(a, b, *k);
            lemma_covered_grows(a, b, *v);
            lemma_has_impl_grows(a, b, mangled(t));
        },
        _ => {},
    }
}

proof fn lemma_print_covered_grows(a: HelpersV, b: HelpersV, t: Ty)
    requires
        grows(a, b),
        print_covered(a, t),
    ensures
        print_covered(b, t),
    decreases t,
{
    lemma_prefix_contains(a.printed, b.printed, mangled(t));
    match t {
        Ty::Arr(i) => lemma_print_covered_grows(a, b, *i),
        Ty::Shared(i) => lemma_print_covered_grows(a, b, *i),
        _ => {},
    }
}

proof fn lemma_deep_covered_grows(a: HelpersV, b: HelpersV, t: Ty)
    requires
        grows(a, b),
        deep_covered(a, t),
    ensures
        deep_covered(b, t),
    decreases t,
{
    if is_refcounted(t) {
        lemma_prefix_contains(a.copied, b.copied, mangled(t));
    }
    match t {
        Ty::Arr(i) => lemma_deep_covered_grows(a, b, *i),
        Ty::Shared(i) => lemma_deep_covered_grows(a, b, *i),
        _ => {},
    }
}

proof fn lemma_tostr_covered_grows(a: HelpersV, b: HelpersV, t: Ty)
    requires
        grows(a, b),
        tostr_covered(a, t),
    ensures
        tostr_covered(b, t),
    decreases t,
{
    lemma_prefix_contains(a.converted, b.converted, mangled(t));
    match t {
        Ty::Arr(i) => lemma_tostr_covered_grows(a, b, *i),
        _ => {},
    }
}

proof fn lemma_print_grows(h: HelpersV, t: Ty)
    ensures
        grows(h, ensure_print_spec(h, t)),
        print_covered(ensure_print_spec(h, t), t),
    decreases t,
{
    let h1 = match t {
        Ty::Arr(i) => ensure_print_spec(h, *i),
        Ty::Shared(i) => ensure_print_spec(h, *i),
        _ => h,
    };
    match t {
        Ty::Arr(i) => lemma_print_grows(h, *i),
        Ty::Shared(i) => lemma_print_grows(h, *i),
        _ => {},
    }
    let r = ensure_print_spec(h, t);
    assert(grows(h1, r));
    lemma_grows_trans(h, h1, r);
    if !h1.printed.contains(mangled(t)) {
        assert(r.printed[h1.printed.len() as int] == mangled(t));
    }
    match t {
        Ty::Arr(i) => lemma_print_covered_grows(h1, r, *i),
        Ty::Shared(i) => lemma_print_covered_grows(h1, r, *i),
        _ => {},
    }
}

proof fn lemma_deep_grows(h: HelpersV, t: Ty)
    ensures
        grows(h, ensure_deep_spec(h, t)),
        deep_covered(ensure_deep_spec(h, t), t),
    decreases t,
{
    let h1 = match t {
        Ty::Arr(i) => ensure_deep_spec(h, *i),
        Ty::Shared(i) => ensure_deep_spec(h, *i),
        _ => h,
    };
    match t {
        Ty::Arr(i) => lemma_deep_grows(h, *i),
        Ty::Shared(i) => lemma_deep_grows(h, *i),
        _ => {},
    }
    let r = ensure_deep_spec(h, t);
    assert(grows(h1, r));
    lemma_grows_trans(h, h1, r);
    if is_refcounted(t) && !h1.copied.contains(mangled(t)) {
        assert(r.copied[h1.copied.len() as int] == mangled(t));
    }
    match t {
        Ty::Arr(i) => lemma_deep_covered_grows(h1, r, *i),
        Ty::Shared(i) => lemma_deep_covered_grows(h1, r, *i),
        _ => {},
    }
}

proof fn lemma_tostr_grows(h: HelpersV, t: Ty)
    ensures
        grows(h, ensure_tostr_spec(h, t)),
        tostr_covered(ensure_tostr_spec(h, t), t),
    decreases t,
{
    let h1 = match t {
        Ty::Arr(i) => ensure_tostr_spec(h, *i),
        _ => h,
    };
    match t {
        Ty::Arr(i) => lemma_tostr_grows(h, *i),
        _ => {},
    }
    let r = ensure_tostr_spec(h, t);
    assert(grows(h1, r));
    lemma_grows_trans(h, h1, r);
    if !h1.converted.contains(mangled(t)) {
        assert(r.converted[h1.converted.len() as int] == mangled(t));
    }
    match t {
        Ty::Arr(i) => lemma_tostr_covered_grows(h1, r, *i),
        _ => {},
    }
}

/// Writing under a marker keeps what was written and provides the marker.
proof fn lemma_mark(h: HelpersV, m: Seq<char>, code: Seq<char>)
    ensures
        grows(h, mark_spec(h, m, code)),
        has_impl_spec(mark_spec(h, m, code), m),
{
    let r = mark_spec(h, m, code);
    let last = marker(m) + seq!['\n'] + code;
    assert(last.take(marker(m).len() as int) =~= marker(m));
    assert(starts(r.impls[h.impls.len() as int], marker(m)));
}

proof fn lemma_ensure_grows(h: HelpersV, t: Ty)
    ensures
        grows(h, ensure_spec(h, t)),
        covered(ensure_spec(h, t), t),
    decreases t,
{
    let r = ensure_spec(h, t);
    match t {
        Ty::Arr(i) => {
            lemma_ensure_grows(h, *i);
            let h1 = ensure_spec(h, *i);
            if !has_impl_spec(h1, mangled(t)) {
                let p1 = ensure_print_spec(h1, *i);
                lemma_print_grows(h1, *i);
                let p = arr_prep(h1, *i);
                if is_refcounted(*i) {
                    lemma_deep_grows(p1, *i);
                    lemma_grows_trans(h1, p1, p);
                }
                lemma_mark(p, mangled(t), arr_code(*i));
                lemma_grows_trans(h1, p, r);
            }
            lemma_grows_trans(h, h1, r);
            lemma_covered_grows(h1, r, *i);
        },
        Ty::Shared(i) => {
            lemma_ensure_grows(h, *i);
            let h1 = ensure_spec(h, *i);
            if !has_impl_spec(h1, mangled(t)) {
                let p = ensure_print_spec(h1, *i);
                lemma_print_grows(h1, *i);
                lemma_mark(p, mangled(t), sh_code(*i));
                lemma_grows_trans(h1, p, r);
            }
            lemma_grows_trans(h, h1, r);
            lemma_covered_grows(h1, r, *i);
        },
        Ty::Table(k, v) => {
            lemma_ensure_grows(h, *k);
            let h0 = ensure_spec(h, *k);
            lemma_ensure_grows(h0, *v);
            let h1 = ensure_spec(h0, *v);
            lemma_grows_trans(h, h0, h1);
            lemma_covered_grows(h0, h1, *k);
            if !has_impl_spec(h1, mangled(t)) {
                lemma_mark(h1, mangled(t), map_code(*k, *v));
            }
            lemma_grows_trans(h, h1, r);
            lemma_covered_grows(h1, r, *k);
            lemma_covered_grows(h1, r, *v);
        },
        _ => {
            assert(grows(h, h));
        },
    }
}

proof fn lemma_covered_fixed(h: HelpersV, t: Ty)
    requires
        covered(h, t),
    ensures
        ensure_spec(h, t) == h,
    decreases t,
{
    match t {
        Ty::Arr(i) => lemma_covered_fixed(h, *i),
        Ty::Shared(i) => lemma_covered_fixed(h, *i),
        Ty::Table(k, v) => {
            lemma_covered_fixed(h, *k);
            lemma_covered_fixed(h, *v);
        },
        _ => {},
    }
}

proof fn lemma_print_fixed(h: HelpersV, t: Ty)
    requires
        print_covered(h, t),
    ensures
        ensure_print_spec(h, t) == h,
    decreases t,
{
    match t {
        Ty::Arr(i) => lemma_print_fixed(h, *i),
        Ty::Shared(i) => lemma_print_fixed(h, *i),
        _ => {},
    }
}

proof fn lemma_deep_fixed(h: HelpersV, t: Ty)
    requires
        deep_covered(h, t),
    ensures
        ensure_deep_spec(h, t) == h,
    decreases t,
{
    match t {
        Ty::Arr(i) => lemma_deep_fixed(h, *i),
        Ty::Shared(i) => lemma_deep_fixed(h, *i),
        _ => {},
    }
}

proof fn lemma_tostr_fixed(h: HelpersV, t: Ty)
    requires
        tostr_covered(h, t),
    ensures
        ensure_tostr_spec(h, t) == h,
    decreases t,
{
    match t {
        Ty::Arr(i) => lemma_tostr_fixed(h, *i),
        _ => {},
    }
}

/// Asking for a type's helpers writes the helpers of every container type
/// in it, keeps everything written before as it was, and asking again
/// writes nothing more: each helper is written once.
pub proof fn law_ensure_writes_once(h: HelpersV, t: Ty)
    ensures
        covered(ensure_spec(h, t), t),
        grows(h, ensure_spec(h, t)),
        ensure_spec(ensure_spec(h, t), t) == ensure_spec(h, t),
{
    lemma_ensure_grows(h, t);
    lemma_covered_fixed(ensure_spec(h, t), t);
}

/// The same holds of print functions, deep copies and text conversions:
/// after one request they are written, nothing earlier changes, and a
/// second request writes nothing.
pub proof fn law_helpers_written_once(h: HelpersV, t: Ty)
    ensures
        print_covered(ensure_print_spec(h, t), t),
        grows(h, ensure_print_spec(h, t)),
        ensure_print_spec(ensure_print_spec(h, t), t) == ensure_print_spec(h, t),
        deep_covered(ensure_deep_spec(h, t), t),
        grows(h, ensure_deep_spec(h, t)),
        ensure_deep_spec(ensure_deep_spec(h, t), t) == ensure_deep_spec(h, t),
        tostr_covered(ensure_tostr_spec(h, t), t),
        grows(h, ensure_tostr_spec(h, t)),
        ensure_tostr_spec(ensure_tostr_spec(h, t), t) == ensure_tostr_spec(h, t),
{
    lemma_print_grows(h, t);
    lemma_print_fixed(ensure_print_spec(h, t), t);
    lemma_deep_grows(h, t);
    lemma_deep_fixed(ensure_deep_spec(h, t), t);
    lemma_tostr_grows(h, t);
    lemma_tostr_fixed(ensure_tostr_spec(h, t), t);
}

/// Whether `list` holds `m`.
fn listed(list: &Vec<String>, m: &str) -> (b: bool)
    ensures
        b == texts(list@).contains(m@),
{
    let mut i: usize = 0;
    while i < list.len()
        invariant
            i <= list.len(),
            forall|j: int| 0 <= j < i ==> texts(list@)[j] != m@,
        decreases list.len() - i,
    {
        if str_is(list[i].as_str(), m) {
            assert(texts(list@)[i as int] == m@);
            return true;
        }
        i += 1;
    }
    false
}

/// Adds `s` at the end of `list`.
fn append(list: &mut Vec<String>, s: String)
    ensures
        texts(final(list)@) == texts(old(list)@).push(s@),
{
    let ghost before = list@;
    list.push(s);
    assert(texts(list@) =~= texts(before).push(s@));
}

impl Helpers {
    /// No helper written yet.
    pub fn new() -> (h: Helpers)
        ensures
            h@ == (HelpersV { impls: seq![], printed: seq![], copied: seq![], converted: seq![] }),
    {
        let h = Helpers { impls: Vec::new(), printed: Vec::new(), copied: Vec::new(), converted: Vec::new() };
        assert(h@.impls =~= seq![]);
        assert(h@.printed =~= seq![]);
        assert(h@.copied =~= seq![]);
        assert(h@.converted =~= seq![]);
        h
    }

    /// Whether the helpers of the type with mangled name `m` are written.
    pub fn has_impl(&self, m: &str) -> (b: bool)
        ensures
            b == has_impl_spec(self@, m@),
    {
        let mut mk = String::new();
        push_str(&mut mk, "/* kl_marker_");
        push_str(&mut mk, m);
        push_str(&mut mk, " */");
        let mut i: usize = 0;
        while i < self.impls.len()
            invariant
                i <= self.impls.len(),
                mk@ == marker(m@),
                forall|j: int| 0 <= j < i ==> !starts(#[trigger] self@.impls[j], marker(m@)),
            decreases self.impls.len() - i,
        {
            if starts_with(self.impls[i].as_str(), mk.as_str()) {
                assert(starts(self@.impls[i as int], marker(m@)));
                return true;
            }
            i += 1;
        }
        false
    }

    /// Writes `code` under the marker of `m`.
    pub fn mark_impl(&mut self, m: &str, code: String)
        ensures
            final(self)@ == mark_spec(old(self)@, m@, code@),
    {
        let mut c = String::new();
        push_str(&mut c, "/* kl_marker_");
        push_str(&mut c, m);
        push_str(&mut c, " */");
        push_char(&mut c, '\n');
        push_str(&mut c, code.as_str());
        assert(c@ =~= marker(m@) + seq!['\n'] + code@);
        append(&mut self.impls, c);
    }

    /// Writes the print functions that `t` needs.
    pub fn ensure_print(&mut self, t: &Ty)
        ensures
            final(self)@ == ensure_print_spec(old(self)@, *t),
        decreases t,
    {
        match t {
            Ty::Arr(i) => self.ensure_print(i),
            Ty::Shared(i) => self.ensure_print(i),
            _ => {},
        }
        let m = t.mg();
        if !listed(&self.printed, m.as_str()) {
            append(&mut self.printed, m);
            append(&mut self.impls, print_impl(t));
        }
    }

    /// Writes the deep copies that `t` needs.
    pub fn ensure_deep(&mut self, t: &Ty)
        ensures
            final(self)@ == ensure_deep_spec(old(self)@, *t),
        decreases t,
    {
        match t {
            Ty::Arr(i) => self.ensure_deep(i),
            Ty::Shared(i) => self.ensure_deep(i),
            _ => {},
        }
        if !t.refcounted() {
            return;
        }
        let m = t.mg();
        if !listed(&self.copied, m.as_str()) {
            append(&mut self.copied, m);
            append(&mut self.impls, deep_impl(t));
        }
    }

    /// Writes the text conversions that `t` needs.
    pub fn ensure_tostr(&mut self, t: &Ty)
        ensures
            final(self)@ == ensure_tostr_spec(old(self)@, *t),
        decreases t,
    {
        match t {
            Ty::Arr(i) => self.ensure_tostr(i),
            _ => {},
        }
        let m = t.mg();
        if !listed(&self.converted, m.as_str()) {
            append(&mut self.converted, m);
            append(&mut self.impls, tostr_impl(t));
        }
    }

    /// The helpers of the array type with elements of type `elem`, after
    /// writing what they need.
    pub fn arr_impl(&mut self, elem: &Ty) -> (r: String)
        ensures
            final(self)@ == arr_prep(old(self)@, *elem),
            r@ == arr_code(*elem),
    {
        self.ensure_print(elem);
        let counted = elem.refcounted();
        if counted {
            self.ensure_deep(elem);
        }
        let mut m = String::new();
        push_char(&mut m, 'a');
        push_str(&mut m, elem.mg().as_str());
        let down_decref = if counted {
            with_char(elem.down_call("arr->data[i]").as_str(), ';')
        } else {
            let mut g = String::new();
            push_str(&mut g, "(void)0;");
            g
        };
        let get_ret = if counted {
            let mut g = String::new();
            push_str(&mut g, "return ");
            push_str(&mut g, elem.copy_expr("a.data[i]").as_str());
            push_char(&mut g, ';');
            g
        } else {
            let mut g = String::new();
            push_str(&mut g, "return a.data[i];");
            g
        };
        let set_extra = if counted {
            let mut g = String::new();
            push_str(&mut g, "\n    ");
            push_str(&mut g, elem.up_call("v").as_str());
            push_str(&mut g, ";\n    ");
            push_str(&mut g, elem.down_call("a.data[i]").as_str());
            push_char(&mut g, ';');
            g
        } else {
            String::new()
        };
        let cp_x = if counted {
            let mut g = String::new();
            push_str(&mut g, "r.data[i] = ");
            push_str(&mut g, elem.copy_expr("x.data[i]").as_str());
            push_char(&mut g, ';');
            g
        } else {
            String::new()
        };
        let cp_y = if counted {
            let mut g = String::new();
            push_str(&mut g, "r.data[x.len + i] = ");
            push_str(&mut g, elem.copy_expr("y.data[i]").as_str());
            push_char(&mut g, ';');
            g
        } else {
            String::new()
        };
        let mut elem_print = String::new();
        push_str(&mut elem_print, "kl_print_");
        push_str(&mut elem_print, elem.mg().as_str());
        let ghost ah = arr_holes(*elem);
        assert(m@ == ah[1]);
        assert(down_decref@ == ah[2]);
        assert(get_ret@ == ah[3]);
        assert(set_extra@ == ah[4]);
        assert(cp_x@ == ah[5]);
        assert(cp_y@ == ah[6]);
        assert(elem_print@ == ah[7]);
        let hs = vec![elem.c(), m, down_decref, get_ret, set_extra, cp_x, cp_y, elem_print];
        assert(hs@[0]@ == ah[0]);
        assert(texts(hs@) =~= ah);
        fill(ARR_TEMPLATE, &hs)
    }

    /// The helpers of the shared cell holding `inner`, after writing the
    /// print functions they need.
    pub fn sh_impl(&mut self, inner: &Ty) -> (r: String)
        ensures
            final(self)@ == ensure_print_spec(old(self)@, *inner),
            r@ == sh_code(*inner),
    {
        self.ensure_print(inner);
        let mut m = String::new();
        push_char(&mut m, 'h');
        push_str(&mut m, inner.mg().as_str());
        let down = if inner.refcounted() {
            let mut g = String::new();
            push_str(&mut g, "\n    ");
            push_str(&mut g, inner.down_call("&pp->v").as_str());
            push_char(&mut g, ';');
            g
        } else {
            String::new()
        };
        let ez = esc_bytes(inner.zero().as_str());
        let mut eprint = String::new();
        push_str(&mut eprint, "kl_print_");
        push_str(&mut eprint, inner.mg().as_str());
        let ghost sh = sh_holes(*inner);
        assert(m@ == sh[1]);
        assert(down@ == sh[2]);
        assert(ez@ == sh[3]);
        assert(eprint@ == sh[4]);
        let hs = vec![inner.c(), m, down, ez, eprint];
        assert(hs@[0]@ == sh[0]);
        assert(texts(hs@) =~= sh);
        fill(SH_TEMPLATE, &hs)
    }

    /// Writes the helpers of the container types in `t`, inner types
    /// first, each once.
    pub fn ensure(&mut self, t: &Ty)
        ensures
            final(self)@ == ensure_spec(old(self)@, *t),
        decreases t,
    {
        match t {
            Ty::Arr(inner) => {
                self.ensure(inner);
                let m = t.mg();
                if !self.has_impl(m.as_str()) {
                    let code = self.arr_impl(inner);
                    self.mark_impl(m.as_str(), code);
                }
            },
            Ty::Shared(inner) => {
                self.ensure(inner);
                let m = t.mg();
                if !self.has_impl(m.as_str()) {
                    let code = self.sh_impl(inner);
                    self.mark_impl(m.as_str(), code);
                }
            },
            Ty::Table(kt, vt) => {
                self.ensure(kt);
                self.ensure(vt);
                let m = t.mg();
                if !self.has_impl(m.as_str()) {
                    let code = map_impl(kt, vt);
                    self.mark_impl(m.as_str(), code);
                }
            },
            _ => {},
        }
    }

    /// All helpers written, each followed by a line feed.
    pub fn block(&self) -> (r: String)
        ensures
            r@ == block_text(self@.impls),
    {
        let mut out = String::new();
        let mut i: usize = 0;
        while i < self.impls.len()
            invariant
                i <= self.impls.len(),
                out@ == block_text(self@.impls.take(i as int)),
            decreases self.impls.len() - i,
        {
            push_str(&mut out, self.impls[i].as_str());
            push_char(&mut out, '\n');
            assert(self@.impls.take(i as int + 1).drop_last() =~= self@.impls.take(i as int));
            i += 1;
        }
        assert(self@.impls.take(self.impls.len() as int) =~= self@.impls);
        out
    }
}

} // verus!
