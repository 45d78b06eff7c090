//! The C expression the C back end writes for a binary operator, chosen by
//! the types of the two operands: checked integer arithmetic through the
//! runtime's `kl_i*` helpers, floating point once either side is a
//! decimal, text and array helpers for `+` and comparisons, and `(0)` for
//! combinations the checker has already refused.

use vstd::prelude::*;
use crate::text::push_str;
use crate::ctypes::{Ty, mangled};

verus! {

/// A binary operator of the language.
#[derive(Debug, Clone, Copy, PartialEq, Eq, Structural)]
pub enum BinOp {
    Add,
    Sub,
    Mul,
    Div,
    Mod,
    Eq,
    Neq,
    Lt,
    Gt,
    Le,
    Ge,
    And,
    Or,
}

pub open spec fn is_number(t: Ty) -> bool {
    t is Num || t is Dec
}

/// `f` applied to `a` and `b`, where `f` ends in its opening parenthesis.
pub open spec fn call2(f: Seq<char>, a: Seq<char>, b: Seq<char>) -> Seq<char> {
    f + a + ", "@ + b + ")"@
}

/// `a` and `b` as doubles joined by `op`, in parentheses.
pub open spec fn doubles(a: Seq<char>, op: Seq<char>, b: Seq<char>) -> Seq<char> {
    "((double)("@ + a + ") "@ + op + " (double)("@ + b + "))"@
}

pub open spec fn sym(op: BinOp) -> Seq<char> {
    match op {
        BinOp::Lt => "<"@,
        BinOp::Gt => ">"@,
        BinOp::Le => "<="@,
        _ => ">="@,
    }
}

pub open spec fn equality_text(lt: Ty, lv: Seq<char>, rt: Ty, rv: Seq<char>) -> Seq<char> {
    if lt is Txt && rt is Txt {
        call2("kl_str_eq("@, lv, rv)
    } else if lt is Arr && rt is Arr {
        "("@ + lv + ".data == "@ + rv + ".data)"@
    } else if lt is Shared && rt is Shared {
        "("@ + lv + " == "@ + rv + ")"@
    } else if lt is Null && rt is Null {
        "true"@
    } else {
        doubles(lv, "=="@, rv)
    }
}

/// The C expression for `lv op rv` with operands of types `lt` and `rt`.
pub open spec fn binop_text(op: BinOp, lt: Ty, lv: Seq<char>, rt: Ty, rv: Seq<char>) -> Seq<char> {
    let both_num = is_number(lt) && is_number(rt);
    let both_int = lt is Num && rt is Num;
    match op {
        BinOp::Add => if both_int {
            call2("kl_iadd("@, lv, rv)
        } else if both_num {
            doubles(lv, "+"@, rv)
        } else if lt is Txt && rt is Txt {
            call2("kl_str_concat("@, lv, rv)
        } else if lt is Arr && rt is Arr {
            call2("kl_arr_"@ + mangled(lt) + "_concat("@, lv, rv)
        } else {
            "(0)"@
        },
        BinOp::Sub | BinOp::Mul | BinOp::Div | BinOp::Mod => if !both_num {
            "(0)"@
        } else if both_int {
            match op {
                BinOp::Sub => call2("kl_isub("@, lv, rv),
                BinOp::Mul => call2("kl_imul("@, lv, rv),
                BinOp::Div => call2("kl_idiv("@, lv, rv),
                _ => call2("kl_imod("@, lv, rv),
            }
        } else {
            match op {
                BinOp::Sub => doubles(lv, "-"@, rv),
                BinOp::Mul => doubles(lv, "*"@, rv),
                BinOp::Div => "kl_ddiv((double)("@ + lv + "), (double)("@ + rv + "))"@,
                _ => "kl_dmod((double)("@ + lv + "), (double)("@ + rv + "))"@,
            }
        },
        BinOp::Eq => equality_text(lt, lv, rt, rv),
        BinOp::Neq => "(!("@ + equality_text(lt, lv, rt, rv) + "))"@,
        BinOp::Lt | BinOp::Gt | BinOp::Le | BinOp::Ge => if both_int {
            "(("@ + lv + ") "@ + sym(op) + " ("@ + rv + "))"@
        } else if lt is Txt && rt is Txt {
            "(strcmp((const char*)"@ + lv + ".data, (const char*)"@ + rv + ".data) "@ + sym(op) + " 0)"@
        } else {
            doubles(lv, sym(op), rv)
        },
        BinOp::And => "(("@ + lv + ") && ("@ + rv + "))"@,
        BinOp::Or => "(("@ + lv + ") || ("@ + rv + "))"@,
    }
}

fn push_call2(s: &mut String, f: &str, a: &str, b: &str)
    ensures
        final(s)@ == old(s)@ + call2(f@, a@, b@),
{
    push_str(s, f);
    push_str(s, a);
    push_str(s, ", ");
    push_str(s, b);
    push_str(s, ")");
}

fn push_doubles(s: &mut String, a: &str, op: &str, b: &str)
    ensures
        final(s)@ == old(s)@ + doubles(a@, op@, b@),
{
    push_str(s, "((double)(");
    push_str(s, a);
    push_str(s, ") ");
    push_str(s, op);
    push_str(s, " (double)(");
    push_str(s, b);
    push_str(s, "))");
}

fn equality(s: &mut String, lt: &Ty, lv: &str, rt: &Ty, rv: &str)
    ensures
        final(s)@ == old(s)@ + equality_text(*lt, lv@, *rt, rv@),
{
    if matches!(lt, Ty::Txt) && matches!(rt, Ty::Txt) {
        push_call2(s, "kl_str_eq(", lv, rv);
    } else if matches!(lt, Ty::Arr(_)) && matches!(rt, Ty::Arr(_)) {
        push_str(s, "(");
        push_str(s, lv);
        push_str(s, ".data == ");
        push_str(s, rv);
        push_str(s, ".data)");
    } else if matches!(lt, Ty::Shared(_)) && matches!(rt, Ty::Shared(_)) {
        push_str(s, "(");
        push_str(s, lv);
        push_str(s, " == ");
        push_str(s, rv);
        push_str(s, ")");
    } else if matches!(lt, Ty::Null) && matches!(rt, Ty::Null) {
        push_str(s, "true");
    } else {
        push_doubles(s, lv, "==", rv);
    }
}

/// The C expression for `lv op rv` with operands of types `lt` and `rt`.
pub fn binop(op: BinOp, lt: &Ty, lv: &str, rt: &Ty, rv: &str) -> (s: String)
    ensures
        s@ == binop_text(op, *lt, lv@, *rt, rv@),
{
    let both_num = (matches!(lt, Ty::Num) || matches!(lt, Ty::Dec)) && (matches!(rt, Ty::Num) || matches!(rt, Ty::Dec));
    let both_int = matches!(lt, Ty::Num) && matches!(rt, Ty::Num);
    let mut s = String::new();
    match op {
        BinOp::Add => {
            if both_int {
                push_call2(&mut s, "kl_iadd(", lv, rv);
            } else if both_num {
                push_doubles(&mut s, lv, "+", rv);
            } else if matches!(lt, Ty::Txt) && matches!(rt, Ty::Txt) {
                push_call2(&mut s, "kl_str_concat(", lv, rv);
            } else if matches!(lt, Ty::Arr(_)) && matches!(rt, Ty::Arr(_)) {
                let mut f = "kl_arr_".to_owned();
                push_str(&mut f, lt.mg().as_str());
                push_str(&mut f, "_concat(");
                push_call2(&mut s, f.as_str(), lv, rv);
            } else {
                push_str(&mut s, "(0)");
            }
        },
        BinOp::Sub | BinOp::Mul | BinOp::Div | BinOp::Mod => {
            if !both_num {
                push_str(&mut s, "(0)");
            } else if both_int {
                let f = match op {
                    BinOp::Sub => "kl_isub(",
                    BinOp::Mul => "kl_imul(",
                    BinOp::Div => "kl_idiv(",
                    _ => "kl_imod(",
                };
                push_call2(&mut s, f, lv, rv);
            } else {
                match op {
                    BinOp::Sub => push_doubles(&mut s, lv, "-", rv),
                    BinOp::Mul => push_doubles(&mut s, lv, "*", rv),
                    _ => {
                        let f = if op == BinOp::Div {
                            "kl_ddiv((double)("
                        } else {
                            "kl_dmod((double)("
                        };
                        push_str(&mut s, f);
                        push_str(&mut s, lv);
                        push_str(&mut s, "), (double)(");
                        push_str(&mut s, rv);
                        push_str(&mut s, "))");
                    },
                }
            }
        },
        BinOp::Eq => equality(&mut s, lt, lv, rt, rv),
        BinOp::Neq => {
            push_str(&mut s, "(!(");
            equality(&mut s, lt, lv, rt, rv);
            push_str(&mut s, "))");
        },
        BinOp::Lt | BinOp::Gt | BinOp::Le | BinOp::Ge => {
            let sy = match op {
                BinOp::Lt => "<",
                BinOp::Gt => ">",
                BinOp::Le => "<=",
                _ => ">=",
            };
            if both_int {
                push_str(&mut s, "((");
                push_str(&mut s, lv);
                push_str(&mut s, ") ");
                push_str(&mut s, sy);
                push_str(&mut s, " (");
                push_str(&mut s, rv);
                push_str(&mut s, "))");
            } else if matches!(lt, Ty::Txt) && matches!(rt, Ty::Txt) {
                push_str(&mut s, "(strcmp((const char*)");
                push_str(&mut s, lv);
                push_str(&mut s, ".data, (const char*)");
                push_str(&mut s, rv);
                push_str(&mut s, ".data) ");
                push_str(&mut s, sy);
                push_str(&mut s, " 0)");
            } else {
                push_doubles(&mut s, lv, sy, rv);
            }
        },
        BinOp::And => {
            push_str(&mut s, "((");
            push_str(&mut s, lv);
            push_str(&mut s, ") && (");
            push_str(&mut s, rv);
            push_str(&mut s, "))");
        },
        BinOp::Or => {
            push_str(&mut s, "((");
            push_str(&mut s, lv);
            push_str(&mut s, ") || (");
            push_str(&mut s, rv);
            push_str(&mut s, "))");
        },
    }
    assert(s@ =~= binop_text(op, *lt, lv@, *rt, rv@));
    s
}

} // verus!
