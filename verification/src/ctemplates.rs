//! The C text of the helpers that the C back end writes, with numbered
//! holes: the character with code `k` (1 to 8) stands for the `k`-th value
//! that [`fill`] puts in. No template holds any other character below 9.

use vstd::prelude::*;
use crate::text::{chars_of, push_char, push_str};

verus! {

/// `template` with every hole `k` replaced by `values[k - 1]`; characters
/// that are no hole stay as they are.
pub open spec fn filled(template: Seq<char>, values: Seq<Seq<char>>) -> Seq<char>
    decreases template.len(),
{
    if template.len() == 0 {
        seq![]
    } else {
        let c = template.last();
        filled(template.drop_last(), values) + if 1 <= (c as u32) <= values.len() {
            values[(c as u32) - 1]
        } else {
            seq![c]
        }
    }
}

/// Fills the holes of `template` with `values`.
pub fn fill(template: &str, values: &Vec<String>) -> (r: String)
    ensures
        r@ == filled(template@, values@.map_values(|v: String| v@)),
{
    let cs = chars_of(template);
    let ghost vs = values@.map_values(|v: String| v@);
    let mut out = String::new();
    let mut i: usize = 0;
    while i < cs.len()
        invariant
            i <= cs.len(),
            cs@ == template@,
            vs == values@.map_values(|v: String| v@),
            out@ == filled(cs@.take(i as int), vs),
        decreases cs.len() - i,
    {
        let c = cs[i];
        let k = c as u32;
        if 1 <= k && (k as usize) <= values.len() {
            push_str(&mut out, values[(k - 1) as usize].as_str());
        } else {
            push_char(&mut out, c);
        }
        assert(cs@.take(i as int + 1).drop_last() =~= cs@.take(i as int));
        i += 1;
    }
    assert(cs@.take(cs.len() as int) =~= cs@);
    out
}

/// The runtime every program starts with: panics, `try`, checked integer
/// arithmetic, Bengali numerals and the string type. Holes: the panic
/// heading, the overflow, division and remainder messages, and the
/// out-of-bounds format, each a C literal.
pub const RUNTIME_TEMPLATE: &'static str = "
static void kl_panic(const char* msg) {
    fprintf(stderr, \u{1});
    fprintf(stderr, \"%s\\n\", msg);
    exit(1);
}

#include <setjmp.h>
static jmp_buf* kl_try_stack[64];
static int kl_try_sp = 0;
static char kl_last_err[512] = \"\";

static void kl_throw(const char* msg) {
    snprintf(kl_last_err, sizeof(kl_last_err), \"%s\", msg);
    if (kl_try_sp > 0) {
        longjmp(*kl_try_stack[kl_try_sp - 1], 1);
    }
    fprintf(stderr, \u{1});
    fprintf(stderr, \"%s\\n\", msg);
    exit(1);
}

static void kl_bn(int64_t v, char* out) {
    char tmp[32];
    int i = 0, j = 0;
    unsigned long long u;
    if (v < 0) { out[j++] = (char)0xE2; out[j++] = (char)0x88; out[j++] = (char)0x92; u = (unsigned long long)(-(v + 1)) + 1ULL; }
    else u = (unsigned long long)v;
    if (u == 0) tmp[i++] = '0';
    while (u > 0) { tmp[i++] = (char)('0' + (int)(u % 10)); u /= 10; }
    while (i > 0) {
        int d = tmp[--i] - '0';
        out[j++] = (char)(0xE0);
        out[j++] = (char)(0xA6);
        out[j++] = (char)(0x98 + d);
    }
    out[j] = 0;
}

static int64_t kl_iadd(int64_t a, int64_t b) {
    if (b > 0 && a > INT64_MAX - b) kl_panic(\u{2});
    if (b < 0 && a < INT64_MIN - b) kl_panic(\u{2});
    return a + b;
}

static int64_t kl_isub(int64_t a, int64_t b) {
    if (b < 0 && a > INT64_MAX + b) kl_panic(\u{2});
    if (b > 0 && a < INT64_MIN + b) kl_panic(\u{2});
    return a - b;
}

static int64_t kl_imul(int64_t a, int64_t b) {
    if (a != 0 && b != 0) {
        if (a == -1 && b == INT64_MIN) kl_panic(\u{2});
        if (b == -1 && a == INT64_MIN) kl_panic(\u{2});
        int64_t r = a * b;
        if (r / a != b) kl_panic(\u{2});
        return r;
    }
    return 0;
}

static int64_t kl_idiv(int64_t a, int64_t b) {
    if (b == 0) kl_panic(\u{3});
    if (a == INT64_MIN && b == -1) kl_panic(\u{2});
    return a / b;
}

static int64_t kl_imod(int64_t a, int64_t b) {
    if (b == 0) kl_panic(\u{4});
    if (a == INT64_MIN && b == -1) kl_panic(\u{2});
    return a % b;
}

static bool kl_dz(double x) { return x == 0.0; }

static double kl_ddiv(double a, double b) {
    if (b == 0.0) kl_panic(\u{3});
    return a / b;
}

static double kl_dmod(double a, double b) {
    if (b == 0.0) kl_panic(\u{4});
    return fmod(a, b);
}

static void kl_oob(int64_t i, int64_t n) {
    char b1[40], b2[40], buf[160];
    kl_bn(i, b1);
    kl_bn(n, b2);
    snprintf(buf, sizeof(buf), \u{5}, b1, b2);
    kl_panic(buf);
}

static void kl_emit_utf8(uint32_t cp) {
    if (cp < 0x80) fputc((int)cp, stdout);
    else if (cp < 0x800) { fputc(0xC0 | (int)(cp >> 6), stdout); fputc(0x80 | (int)(cp & 0x3F), stdout); }
    else if (cp < 0x10000) { fputc(0xE0 | (int)(cp >> 12), stdout); fputc(0x80 | (int)((cp >> 6) & 0x3F), stdout); fputc(0x80 | (int)(cp & 0x3F), stdout); }
    else { fputc(0xF0 | (int)(cp >> 18), stdout); fputc(0x80 | (int)((cp >> 12) & 0x3F), stdout); fputc(0x80 | (int)((cp >> 6) & 0x3F), stdout); fputc(0x80 | (int)(cp & 0x3F), stdout); }
}

typedef struct { int64_t rc; int64_t len; uint8_t* data; } kl_str;

static kl_str kl_str_zero(void) { kl_str s; s.rc = 0; s.len = 0; s.data = NULL; return s; }

static int64_t kl_cpcount(const uint8_t* p, int64_t n) {
    int64_t c = 0;
    for (int64_t i = 0; i < n; i++) if ((p[i] & 0xC0) != 0x80) c++;
    return c;
}

static kl_str kl_str_alloc(int64_t nbytes) {
    kl_str s; s.rc = 1; s.data = (uint8_t*)calloc((size_t)nbytes + 1, 1);
    if (!s.data) kl_panic(\"মেমরি বরাদ্দ ব্যর্থ\");
    s.len = 0; return s;
}

static kl_str kl_str_lit(const char* lit) {
    int64_t n = (int64_t)strlen(lit);
    kl_str s = kl_str_alloc(n);
    memcpy(s.data, lit, (size_t)n);
    s.len = kl_cpcount(s.data, n);
    return s;
}

static void kl_str_incref(kl_str s) { if (s.data) s.rc++; }

static void kl_str_decref(kl_str* s) {
    if (!s->data || --s->rc > 0) return;
    free(s->data); s->data = NULL;
}

static kl_str kl_str_concat(kl_str a, kl_str b) {
    int64_t na = a.data ? (int64_t)strlen((const char*)a.data) : 0;
    int64_t nb = b.data ? (int64_t)strlen((const char*)b.data) : 0;
    kl_str s = kl_str_alloc(na + nb);
    if (na) memcpy(s.data, a.data, (size_t)na);
    if (nb) memcpy(s.data + na, b.data, (size_t)nb);
    s.len = a.len + b.len;
    return s;
}

static kl_str kl_str_copy(kl_str a) {
    int64_t n = a.data ? (int64_t)strlen((const char*)a.data) : 0;
    kl_str s = kl_str_alloc(n);
    if (n) memcpy(s.data, a.data, (size_t)n);
    s.len = a.len;
    return s;
}

static bool kl_str_eq(kl_str a, kl_str b) {
    if (!a.data || !b.data) return a.data == b.data;
    return strcmp((const char*)a.data, (const char*)b.data) == 0;
}
";

/// The helpers of an array type. Holes: the element's C type, the
/// array's mangled name, the statement that releases an element, the
/// statement that returns one, what a store does besides storing, the
/// copy of an element of each operand of a concatenation, and the
/// element's print function.
pub const ARR_TEMPLATE: &'static str = "
typedef struct { int64_t rc; int64_t len; \u{1}* data; } kl_arr_\u{2};

static kl_arr_\u{2} kl_arr_\u{2}_zero(void) { kl_arr_\u{2} a; a.rc = 0; a.len = 0; a.data = NULL; return a; }

static void kl_arr_\u{2}_incref(kl_arr_\u{2} a) { if (a.data) a.rc++; }

static void kl_arr_\u{2}_decref(kl_arr_\u{2}* arr) {
    if (!arr->data || --arr->rc > 0) return;
    for (int64_t i = 0; i < arr->len; i++) {
        (void)i;
        \u{3}
    }
    free(arr->data); arr->data = NULL;
}

static kl_arr_\u{2} kl_arr_\u{2}_new(int64_t n) {
    kl_arr_\u{2} a; a.rc = 1; a.len = n;
    a.data = (n > 0) ? (\u{1}*)calloc((size_t)n, sizeof(\u{1})) : NULL;
    if (n > 0 && !a.data) kl_panic(\"মেমরি বরাদ্দ ব্যর্থ\");
    return a;
}

static \u{1}* kl_arr_\u{2}_at(kl_arr_\u{2} a, int64_t i) {
    if (i < 0 || i >= a.len || !a.data) kl_oob(i, a.len);
    return &a.data[i];
}

static \u{1} kl_arr_\u{2}_get(kl_arr_\u{2} a, int64_t i) {
    \u{1}* p = kl_arr_\u{2}_at(a, i);
    (void)p;
    \u{4}
}

static void kl_arr_\u{2}_set(kl_arr_\u{2} a, int64_t i, \u{1} v) {
    \u{1}* p = kl_arr_\u{2}_at(a, i);
    (void)p;\u{5}
    *p = v;
}

static kl_arr_\u{2} kl_arr_\u{2}_concat(kl_arr_\u{2} x, kl_arr_\u{2} y) {
    kl_arr_\u{2} r = kl_arr_\u{2}_new(x.len + y.len);
    for (int64_t i = 0; i < x.len; i++) {
        \u{1} xv = x.data[i];
        (void)xv;
        \u{6}
        r.data[i] = x.data[i];
    }
    for (int64_t i = 0; i < y.len; i++) {
        \u{1} yv = y.data[i];
        (void)yv;
        \u{7}
        r.data[x.len + i] = y.data[i];
    }
    return r;
}

static void kl_print_\u{2}(kl_arr_\u{2} v) {
    fputc('[', stdout);
    for (int64_t i = 0; i < v.len; i++) {
        if (i) fputs(\", \", stdout);
        \u{8}(v.data[i]);
    }
    fputc(']', stdout);
}
";

/// The helpers of a map type. Holes: the value's C type, the map's
/// mangled name, the release of a replaced value and the retain of a
/// stored one.
pub const MAP_TEMPLATE: &'static str = "
typedef struct { kl_str key; \u{1} val; int used; } kl_map_ent_\u{2};
typedef struct { int64_t rc; kl_map_ent_\u{2} entries[128]; int64_t len; } kl_map_\u{2};

static kl_map_\u{2}* kl_map_\u{2}_new(void) {
    kl_map_\u{2}* p = (kl_map_\u{2}*)calloc(1, sizeof(kl_map_\u{2}));
    if (!p) kl_panic(\"মেমরি বরাদ্দ ব্যর্থ\");
    p->rc = 1;
    return p;
}

static void kl_map_\u{2}_incref(kl_map_\u{2}* p) { if (p) p->rc++; }

static void kl_map_\u{2}_decref(kl_map_\u{2}* p) {
    if (!p || --p->rc > 0) return;
    for (int64_t i = 0; i < p->len; i++) {
        kl_str_decref(&p->entries[i].key);
    }
    free(p);
}

static int64_t kl_map_\u{2}_find(kl_map_\u{2}* p, kl_str key) {
    if (!key.data) return -1;
    for (int64_t i = 0; i < p->len; i++) {
        if (p->entries[i].used && strcmp((const char*)p->entries[i].key.data, (const char*)key.data) == 0)
            return i;
    }
    return -1;
}

static \u{1} kl_map_\u{2}_get(kl_map_\u{2}* p, kl_str key) {
    int64_t idx = kl_map_\u{2}_find(p, key);
    if (idx < 0) {
        char b[512];
        snprintf(b, sizeof(b), \"কী '%s' ম্যাপে নেই\", key.data ? (const char*)key.data : \"\");
        kl_panic(b);
    }
    return p->entries[idx].val;
}

static void kl_map_\u{2}_set(kl_map_\u{2}* p, kl_str key, \u{1} val) {
    int64_t idx = kl_map_\u{2}_find(p, key);
    if (idx >= 0) {
        \u{3}
        p->entries[idx].val = val;
        \u{4}
        return;
    }
    if (p->len >= 128) kl_panic(\"????? ?????\");
    p->entries[p->len].key = kl_str_copy(key);
    p->entries[p->len].val = val;
    \u{4}
    p->entries[p->len].used = 1;
    p->len++;
}

static kl_map_ent_\u{2}* kl_map_\u{2}_get_or_null(kl_map_\u{2}* p, kl_str key) {
    int64_t idx = kl_map_\u{2}_find(p, key);
    if (idx < 0) return &p->entries[p->len];
    return &p->entries[idx];
}
";

/// The helpers of a shared cell. Holes: the inner C type, the cell's
/// mangled name, the release of the inner value, the printed form of an
/// empty cell and the inner print function.
pub const SH_TEMPLATE: &'static str = "
typedef struct { int64_t rc; \u{1} v; } kl_sh_\u{2};

static kl_sh_\u{2}* kl_sh_make_\u{2}(\u{1} v) {
    kl_sh_\u{2}* p = (kl_sh_\u{2}*)malloc(sizeof(kl_sh_\u{2}));
    if (!p) kl_panic(\"মেমরি বরাদ্দ ব্যর্থ\");
    p->rc = 1; p->v = v; return p;
}

static void kl_sh_\u{2}_incref(kl_sh_\u{2}* p) { if (p) p->rc++; }

static void kl_sh_\u{2}_decref(kl_sh_\u{2}* pp) {
    if (!pp || --pp->rc > 0) return;\u{3}
    free(pp);
}

static void kl_print_\u{2}(kl_sh_\u{2}* p) {
    if (!p) { fputs(\"\u{4}\", stdout); return; }
    \u{5}(p->v);
}
";

/// The text conversion of an array. Holes: the mangled name and the
/// conversion of one element.
pub const TOSTR_ARR_TEMPLATE: &'static str = "
static kl_str kl_tostr_\u{1}(kl_arr_\u{1} v) {
    kl_str r = kl_str_lit(\"[\");
    for (int64_t i = 0; i < v.len; i++) {
        if (i) r = kl_str_concat(r, kl_str_lit(\", \"));
        r = kl_str_concat(r, \u{2});
    }
    r = kl_str_concat(r, kl_str_lit(\"]\"));
    return r;
}";

/// The deep copy of an array. Holes: the mangled name and the copy of one
/// element.
pub const DEEP_ARR_TEMPLATE: &'static str = "
static kl_arr_\u{1} kl_deep_\u{1}(kl_arr_\u{1} src) {
    kl_arr_\u{1} r = kl_arr_\u{1}_new(src.len);
    for (int64_t i = 0; i < src.len; i++) {
        \u{2}
    }
    return r;
}";

/// Print functions of the scalar types; hole 1 is the mangled name, and
/// the truth values and the null value take their words as holes 2 and 3.
pub const PRINT_NUM_TEMPLATE: &'static str = "static void kl_print_\u{1}(int64_t v) { printf(\"%lld\", (long long)v); }";
pub const PRINT_DEC_TEMPLATE: &'static str = "static void kl_print_\u{1}(double v) { printf(\"%g\", v); }";
pub const PRINT_BOOL_TEMPLATE: &'static str = "static void kl_print_\u{1}(bool v) { fputs(v ? \u{2} : \u{3}, stdout); }";
pub const PRINT_CH_TEMPLATE: &'static str = "static void kl_print_\u{1}(uint32_t v) { kl_emit_utf8(v); }";
pub const PRINT_TXT_TEMPLATE: &'static str = "static void kl_print_\u{1}(kl_str v) { if (v.data) fputs((const char*)v.data, stdout); }";
pub const PRINT_NULL_TEMPLATE: &'static str = "static void kl_print_\u{1}(uint8_t v) { (void)v; fputs(\u{2}, stdout); }";

/// Text conversions of the scalar types, with the same holes as the print
/// functions.
pub const TOSTR_NUM_TEMPLATE: &'static str = "static kl_str kl_tostr_\u{1}(int64_t v) { char b[32]; snprintf(b, sizeof(b), \"%lld\", (long long)v); return kl_str_lit(b); }";
pub const TOSTR_DEC_TEMPLATE: &'static str = "static kl_str kl_tostr_\u{1}(double v) { char b[64]; snprintf(b, sizeof(b), \"%g\", v); return kl_str_lit(b); }";
pub const TOSTR_BOOL_TEMPLATE: &'static str = "static kl_str kl_tostr_\u{1}(bool v) { return kl_str_lit(v ? \u{2} : \u{3}); }";
pub const TOSTR_CH_TEMPLATE: &'static str = "static kl_str kl_tostr_\u{1}(uint32_t cp) { uint8_t b[8]; int n = 0; if (cp < 0x80) b[n++] = (uint8_t)cp; else if (cp < 0x800) { b[n++] = 0xC0 | (cp >> 6); b[n++] = 0x80 | (cp & 0x3F); } else if (cp < 0x10000) { b[n++] = 0xE0 | (cp >> 12); b[n++] = 0x80 | ((cp >> 6) & 0x3F); b[n++] = 0x80 | (cp & 0x3F); } else { b[n++] = 0xF0 | (cp >> 18); b[n++] = 0x80 | ((cp >> 12) & 0x3F); b[n++] = 0x80 | ((cp >> 6) & 0x3F); b[n++] = 0x80 | (cp & 0x3F); } b[n] = 0; (void)n; return kl_str_lit((const char*)b); }";
pub const TOSTR_TXT_TEMPLATE: &'static str = "static kl_str kl_tostr_\u{1}(kl_str v) { return kl_str_copy(v); }";
pub const TOSTR_NULL_TEMPLATE: &'static str = "static kl_str kl_tostr_\u{1}(uint8_t v) { (void)v; return kl_str_lit(\u{2}); }";

/// Deep copies of text and of shared cells; hole 1 is the mangled name.
pub const DEEP_TXT_TEMPLATE: &'static str = "static kl_str kl_deep_\u{1}(kl_str v) { return kl_str_copy(v); }";
pub const DEEP_SHARED_TEMPLATE: &'static str = "static kl_sh_\u{1}* kl_deep_\u{1}(kl_sh_\u{1}* p) { kl_sh_\u{1}_incref(p); return p; }";

/// The words the generated code prints, and the runtime's messages.
pub const WORD_TRUE: &'static str = "সত্য";
pub const WORD_FALSE: &'static str = "মিথ্যা";
pub const WORD_NULL: &'static str = "ফাঁকা";
pub const PANIC_HEADING: &'static str = "রানটাইম ত্রুটি\n\n%s\n";
pub const OVERFLOW: &'static str = "পূর্ণসংখ্যা ওভারফ্লো";
pub const DIVISION_BY_ZERO: &'static str = "শূন্য দিয়ে ভাগ করা যাবে না";
pub const REMAINDER_BY_ZERO: &'static str = "শূন্য দিয়ে ভাগ (মডুলো) করা যাবে না";
pub const OUT_OF_BOUNDS: &'static str = "ইনডেক্স %s সীমার বাইরে (দৈর্ঘ্য %s)";

} // verus!
