use kolom::cexpr::{binop, BinOp};
use kolom::ctypes::{cstr, esc_bytes, Ty};

#[test]
fn types_have_mangled_and_c_names() {
    let t = Ty::Table(Box::new(Ty::Txt), Box::new(Ty::Arr(Box::new(Ty::Num))));
    assert_eq!(t.mg(), "ms_ai");
    assert_eq!(t.c(), "kl_map_ms_ai*");
    assert_eq!(Ty::Arr(Box::new(Ty::Dec)).c(), "kl_arr_ad");
    assert_eq!(Ty::Shared(Box::new(Ty::Bool)).c(), "kl_sh_hb*");
    assert_eq!(Ty::Struct("বিন্দু".to_string()).mg(), "st_বিন্দু");
    assert_eq!(Ty::Ch.c(), "uint32_t");
}

#[test]
fn zero_values_and_reference_counts() {
    assert_eq!(Ty::Num.zero(), "0");
    assert_eq!(Ty::Dec.zero(), "0.0");
    assert_eq!(Ty::Arr(Box::new(Ty::Txt)).zero(), "kl_arr_as_zero()");
    assert_eq!(Ty::Shared(Box::new(Ty::Num)).zero(), "NULL");
    assert!(Ty::Txt.refcounted());
    assert!(!Ty::Num.refcounted());
    assert_eq!(Ty::Txt.up_call("v"), "kl_str_incref(v)");
    assert_eq!(Ty::Num.up_call("v"), "");
    assert_eq!(Ty::Arr(Box::new(Ty::Num)).down_call("x"), "kl_arr_ai_decref(&(x))");
    assert_eq!(Ty::Shared(Box::new(Ty::Num)).down_call("p"), "kl_sh_hi_decref(p)");
    assert_eq!(Ty::Shared(Box::new(Ty::Num)).copy_expr("p"), "(kl_sh_hi_incref(p), p)");
    assert_eq!(Ty::Arr(Box::new(Ty::Num)).copy_expr("a"), "kl_deep_ai(a)");
    assert_eq!(Ty::Num.copy_expr("n"), "n");
}

#[test]
fn c_literals_escape_bytes_in_octal() {
    assert_eq!(esc_bytes("a\"?\\z"), "a\\042\\077\\134z");
    assert_eq!(esc_bytes("ক"), "\\340\\246\\225");
    assert_eq!(cstr("hi\n"), "\"hi\\012\"");
}

#[test]
fn binary_operators_become_c_expressions() {
    let n = Ty::Num;
    let d = Ty::Dec;
    let t = Ty::Txt;
    assert_eq!(binop(BinOp::Add, &n, "a", &n, "b"), "kl_iadd(a, b)");
    assert_eq!(binop(BinOp::Add, &n, "a", &d, "b"), "((double)(a) + (double)(b))");
    assert_eq!(binop(BinOp::Add, &t, "a", &t, "b"), "kl_str_concat(a, b)");
    let ai = Ty::Arr(Box::new(Ty::Num));
    assert_eq!(binop(BinOp::Add, &ai, "a", &ai, "b"), "kl_arr_ai_concat(a, b)");
    assert_eq!(binop(BinOp::Add, &t, "a", &n, "b"), "(0)");
    assert_eq!(binop(BinOp::Mod, &n, "a", &n, "b"), "kl_imod(a, b)");
    assert_eq!(binop(BinOp::Div, &d, "a", &n, "b"), "kl_ddiv((double)(a), (double)(b))");
    assert_eq!(binop(BinOp::Sub, &t, "a", &t, "b"), "(0)");
    assert_eq!(binop(BinOp::Neq, &t, "a", &t, "b"), "(!(kl_str_eq(a, b)))");
    assert_eq!(binop(BinOp::Eq, &Ty::Null, "a", &Ty::Null, "b"), "true");
    assert_eq!(binop(BinOp::Eq, &ai, "a", &ai, "b"), "(a.data == b.data)");
    assert_eq!(binop(BinOp::Le, &n, "a", &n, "b"), "((a) <= (b))");
    assert_eq!(
        binop(BinOp::Gt, &t, "a", &t, "b"),
        "(strcmp((const char*)a.data, (const char*)b.data) > 0)"
    );
    assert_eq!(binop(BinOp::Lt, &d, "a", &n, "b"), "((double)(a) < (double)(b))");
    assert_eq!(binop(BinOp::Or, &Ty::Bool, "a", &Ty::Bool, "b"), "((a) || (b))");
}
