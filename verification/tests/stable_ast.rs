use kolom::lexer::Diagnostic;
use kolom::stable_ast::{dump_errors, esc};

#[test]
fn stable_errors_have_a_comparable_shape() {
    let errors = vec![Diagnostic { line: 2, col: 4, message: "ভুল\nবার্তা".to_string() }];
    assert_eq!(dump_errors("parse", &errors), "ERR\tparse\t2\t4\tভুল\\nবার্তা\n");
}

#[test]
fn control_characters_are_escaped_in_hex() {
    assert_eq!(esc("a\u{1}b\u{1f}\u{7f}\\\t\r"), "a\\u{1}b\\u{1f}\\u{7f}\\\\\\t\\r");
    assert_eq!(esc("কলম"), "কলম");
}

#[test]
fn no_errors_no_records() {
    assert_eq!(dump_errors("lex", &Vec::new()), "");
    let errors = vec![
        Diagnostic { line: 1, col: 1, message: "ক".to_string() },
        Diagnostic { line: 10, col: 200, message: "খ".to_string() },
    ];
    assert_eq!(dump_errors("sema", &errors), "ERR\tsema\t1\t1\tক\nERR\tsema\t10\t200\tখ\n");
}

#[test]
fn node_records_have_kind_position_and_payload() {
    let mut out = String::new();
    kolom::stable_ast::begin(&mut out, "program", None);
    kolom::stable_ast::record(&mut out, "ident", Some((3, 7)), "নাম\t");
    kolom::stable_ast::end(&mut out, "program");
    assert_eq!(out, "NODE\tbegin_program\t0\t0\t\nNODE\tident\t3\t7\tনাম\\t\nNODE\tend_program\t0\t0\t\n");
}
