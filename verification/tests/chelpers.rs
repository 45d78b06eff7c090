use kolom::chelpers::{deep_impl, map_impl, print_impl, runtime, tostr_impl, Helpers};
use kolom::ctypes::Ty;

fn arr(t: Ty) -> Ty {
    Ty::Arr(Box::new(t))
}

#[test]
fn print_helper_of_an_integer() {
    assert_eq!(
        print_impl(&Ty::Num),
        "static void kl_print_i(int64_t v) { printf(\"%lld\", (long long)v); }"
    );
}

#[test]
fn print_helper_of_a_truth_value_uses_escaped_words() {
    assert_eq!(
        print_impl(&Ty::Bool),
        "static void kl_print_b(bool v) { fputs(v ? \"\\340\\246\\270\\340\\246\\244\\340\\247\\215\\340\\246\\257\" : \"\\340\\246\\256\\340\\246\\277\\340\\246\\245\\340\\247\\215\\340\\246\\257\\340\\246\\276\", stdout); }"
    );
}

#[test]
fn containers_have_no_print_helper_of_their_own() {
    assert_eq!(print_impl(&arr(Ty::Num)), "");
    assert_eq!(tostr_impl(&Ty::Shared(Box::new(Ty::Num))), "");
}

#[test]
fn text_conversion_of_null_and_of_an_array() {
    assert_eq!(
        tostr_impl(&Ty::Null),
        "static kl_str kl_tostr_n(uint8_t v) { (void)v; return kl_str_lit(\"\\340\\246\\253\\340\\246\\276\\340\\246\\201\\340\\246\\225\\340\\246\\276\"); }"
    );
    let t = tostr_impl(&arr(Ty::Txt));
    assert!(t.starts_with("\nstatic kl_str kl_tostr_as(kl_arr_as v) {\n"));
    assert!(t.contains("        r = kl_str_concat(r, kl_tostr_s(v.data[i]));\n"));
    assert!(t.ends_with("    return r;\n}"));
}

#[test]
fn deep_copy_of_text_and_arrays() {
    assert_eq!(deep_impl(&Ty::Txt), "static kl_str kl_deep_s(kl_str v) { return kl_str_copy(v); }");
    assert!(deep_impl(&arr(Ty::Num)).contains("        r.data[i] = src.data[i];\n"));
    assert!(deep_impl(&arr(Ty::Txt)).contains("        r.data[i] = kl_str_copy(src.data[i]);\n"));
    assert_eq!(deep_impl(&Ty::Num), "");
}

#[test]
fn map_helpers_name_the_key_and_value() {
    let m = map_impl(&Ty::Txt, &Ty::Num);
    assert!(m.starts_with("\ntypedef struct { kl_str key; int64_t val; int used; } kl_map_ent_ms_i;\n"));
    assert!(m.contains("static int64_t kl_map_ms_i_get(kl_map_ms_i* p, kl_str key) {"));
    let c = map_impl(&Ty::Txt, &Ty::Txt);
    assert!(c.contains("        kl_str_decref(&(p->entries[idx].val));\n        p->entries[idx].val = val;\n        kl_str_incref(val);\n"));
}

#[test]
fn array_helpers_of_counted_and_plain_elements() {
    let mut h = Helpers::new();
    let plain = h.arr_impl(&Ty::Num);
    assert!(plain.contains("typedef struct { int64_t rc; int64_t len; int64_t* data; } kl_arr_ai;"));
    assert!(plain.contains("        (void)0;\n"));
    assert!(plain.contains("    return a.data[i];\n"));
    assert!(plain.contains("        kl_print_i(v.data[i]);\n"));
    let counted = h.arr_impl(&Ty::Txt);
    assert!(counted.contains("        kl_str_decref(&(arr->data[i]));\n"));
    assert!(counted.contains("    return kl_str_copy(a.data[i]);\n"));
    assert!(counted.contains("    (void)p;\n    kl_str_incref(v);\n    kl_str_decref(&(a.data[i]));\n    *p = v;\n"));
    assert!(counted.contains("        r.data[x.len + i] = kl_str_copy(y.data[i]);\n"));
}

#[test]
fn shared_cell_helpers_print_the_zero_when_empty() {
    let mut h = Helpers::new();
    let s = h.sh_impl(&Ty::Num);
    assert!(s.starts_with("\ntypedef struct { int64_t rc; int64_t v; } kl_sh_hi;\n"));
    assert!(s.contains("    if (!p) { fputs(\"0\", stdout); return; }\n    kl_print_i(p->v);\n"));
}

#[test]
fn ensure_writes_inner_helpers_first_and_only_once() {
    let mut h = Helpers::new();
    let t = arr(arr(Ty::Num));
    h.ensure(&t);
    assert!(h.has_impl("ai"));
    assert!(h.has_impl("aai"));
    assert!(!h.has_impl("i"));
    let first = h.block();
    let inner = first.find("/* kl_marker_ai */").unwrap();
    let outer = first.find("/* kl_marker_aai */").unwrap();
    assert!(inner < outer);
    assert!(first.starts_with("static void kl_print_i(int64_t v)"));
    h.ensure(&t);
    h.ensure(&arr(Ty::Num));
    assert_eq!(h.block(), first);
}

#[test]
fn ensure_of_a_map_writes_its_value_arrays() {
    let mut h = Helpers::new();
    h.ensure(&Ty::Table(Box::new(Ty::Txt), Box::new(arr(Ty::Txt))));
    assert!(h.has_impl("as"));
    assert!(h.has_impl("ms_as"));
    let b = h.block();
    assert!(b.contains("static kl_str kl_deep_s(kl_str v) { return kl_str_copy(v); }\n"));
    assert!(b.find("/* kl_marker_as */").unwrap() < b.find("/* kl_marker_ms_as */").unwrap());
}

#[test]
fn print_and_conversion_requests_are_kept_once() {
    let mut h = Helpers::new();
    h.ensure_print(&arr(Ty::Ch));
    h.ensure_print(&Ty::Ch);
    h.ensure_tostr(&arr(Ty::Num));
    h.ensure_tostr(&arr(Ty::Num));
    h.ensure_deep(&Ty::Num);
    let b = h.block();
    assert_eq!(b.matches("kl_print_c(uint32_t v)").count(), 1);
    assert_eq!(b.matches("kl_tostr_ai(kl_arr_ai v)").count(), 1);
    assert_eq!(b.matches("kl_tostr_i(int64_t v)").count(), 1);
    assert!(!b.contains("kl_deep_"));
}

#[test]
fn runtime_escapes_its_messages() {
    let r = runtime();
    assert!(r.starts_with("\nstatic void kl_panic(const char* msg) {\n    fprintf(stderr, \"\\340\\246\\260"));
    assert!(r.contains("    if (b > 0 && a > INT64_MAX - b) kl_panic(\"\\340\\246\\252\\340\\247\\202\\340\\246\\260\\340\\247\\215\\340\\246\\243\\340\\246\\270\\340\\246\\202\\340\\246\\226\\340\\247\\215\\340\\246\\257\\340\\246\\276 \\340\\246\\223\\340\\246\\255\\340\\246\\276\\340\\246\\260\\340\\246\\253\\340\\247\\215\\340\\246\\262\\340\\247\\213\");\n"));
    assert!(r.contains("static void kl_oob(int64_t i, int64_t n) {"));
}
