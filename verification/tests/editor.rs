use std::path::PathBuf;

use kolom::editor::{apply_key, screen, Action, Buffer, Key};
use kolom::lexer::Diagnostic;

fn key(c: char) -> Key {
    Key::Char { c, control: false, alt: false }
}

#[test]
fn insert_and_navigate() {
    let mut buf = Buffer::from_text("ab", PathBuf::from("t.ক"));
    buf.col = 1;
    buf.insert_char('X');
    assert_eq!(buf.line(0), "aXb");
    buf.move_left();
    buf.move_left();
    assert_eq!(buf.col, 0);
    buf.move_right();
    assert_eq!(buf.col, 1);
}

#[test]
fn insert_handles_bengali_multibyte_correctly() {
    let mut buf = Buffer::from_text("কলম", PathBuf::from("t.ক"));
    buf.col = 2;
    buf.insert_char('X');
    assert_eq!(buf.line(0), "কলXম");
}

#[test]
fn newline_splits_line_at_cursor() {
    let mut buf = Buffer::from_text("হ্যালো", PathBuf::from("t.ক"));
    buf.col = 3;
    buf.insert_newline();
    assert_eq!(buf.line_count(), 2);
    assert_eq!(buf.row, 1);
    assert_eq!(buf.col, 0);
    assert_eq!(format!("{}\n{}", buf.line(0), buf.line(1)), buf.text());
}

#[test]
fn backspace_at_line_start_joins_with_previous_line() {
    let mut buf = Buffer::from_text("এক\nদুই", PathBuf::from("t.ক"));
    buf.row = 1;
    buf.col = 0;
    buf.backspace();
    assert_eq!(buf.line_count(), 1);
    assert_eq!(buf.line(0), "একদুই");
    assert_eq!(buf.col, 2);
}

#[test]
fn backspace_at_document_start_is_a_no_op() {
    let mut buf = Buffer::from_text("ক", PathBuf::from("t.ক"));
    buf.backspace();
    assert_eq!(buf.line(0), "ক");
    assert_eq!(buf.row, 0);
    assert_eq!(buf.col, 0);
}

#[test]
fn delete_forward_joins_next_line_at_end_of_line() {
    let mut buf = Buffer::from_text("এক\nদুই", PathBuf::from("t.ক"));
    buf.col = 3;
    buf.delete_forward();
    assert_eq!(buf.line_count(), 1);
    assert_eq!(buf.line(0), "একদুই");
}

#[test]
fn apply_key_plain_char_inserts() {
    let mut buf = Buffer::from_text("", PathBuf::from("t.ক"));
    let action = apply_key(&mut buf, key('ক'));
    assert_eq!(action, Action::Nothing);
    assert_eq!(buf.line(0), "ক");
}

#[test]
fn apply_key_ctrl_q_requests_quit() {
    let mut buf = Buffer::from_text("", PathBuf::from("t.ক"));
    let action = apply_key(&mut buf, Key::Char { c: 'q', control: true, alt: false });
    assert_eq!(action, Action::Quit);
}

#[test]
fn ctrl_s_saves_without_inserting_text() {
    let mut buf = Buffer::from_text("অ্যাপ { }", PathBuf::from("save.ক"));
    buf.dirty = true;
    let action = apply_key(&mut buf, Key::Char { c: 's', control: true, alt: false });
    assert_eq!(action, Action::Save);
    assert_eq!(buf.line(0), "অ্যাপ { }");
    assert!(buf.dirty);
}

#[test]
fn ctrl_r_runs_and_alt_keys_are_ignored() {
    let mut buf = Buffer::from_text("ক", PathBuf::from("t.ক"));
    assert_eq!(apply_key(&mut buf, Key::Char { c: 'r', control: true, alt: false }), Action::Run);
    assert_eq!(apply_key(&mut buf, Key::Char { c: 'x', control: false, alt: true }), Action::Nothing);
    assert_eq!(buf.text(), "ক");
    assert!(!buf.dirty);
}

#[test]
fn tab_inserts_four_spaces() {
    let mut buf = Buffer::from_text("ক", PathBuf::from("t.ক"));
    assert_eq!(apply_key(&mut buf, Key::Tab), Action::Nothing);
    assert_eq!(buf.line(0), "    ক");
    assert_eq!(buf.col, 4);
}

#[test]
fn arrow_and_edit_keys_move_and_edit() {
    let mut buf = Buffer::from_text("ab\ncd", PathBuf::from("t.ক"));
    apply_key(&mut buf, Key::End);
    assert_eq!(buf.col, 2);
    apply_key(&mut buf, Key::Down);
    assert_eq!((buf.row, buf.col), (1, 2));
    apply_key(&mut buf, Key::Home);
    assert_eq!(buf.col, 0);
    apply_key(&mut buf, Key::Up);
    assert_eq!((buf.row, buf.col), (0, 0));
    apply_key(&mut buf, Key::Delete);
    assert_eq!(buf.line(0), "b");
    apply_key(&mut buf, Key::Right);
    apply_key(&mut buf, Key::Enter);
    assert_eq!(buf.text(), "b\n\ncd");
    apply_key(&mut buf, Key::Backspace);
    assert_eq!(buf.text(), "b\ncd");
    apply_key(&mut buf, Key::Left);
    assert_eq!(buf.col, 0);
}

#[test]
fn move_up_clamps_the_column_to_a_shorter_line() {
    let mut buf = Buffer::from_text("ক\nখগঘঙ", PathBuf::from("t.ক"));
    buf.row = 1;
    buf.col = 4;
    buf.move_up();
    assert_eq!((buf.row, buf.col), (0, 1));
}

#[test]
fn backspace_undoes_an_insert() {
    let mut buf = Buffer::from_text("কলম\nপাতা", PathBuf::from("t.ক"));
    buf.row = 1;
    buf.col = 2;
    buf.insert_char('জ');
    buf.backspace();
    assert_eq!(buf.text(), "কলম\nপাতা");
    assert_eq!((buf.row, buf.col), (1, 2));
    assert!(buf.dirty);
}

#[test]
fn backspace_undoes_a_line_break() {
    let mut buf = Buffer::from_text("কলম\nপাতা", PathBuf::from("t.ক"));
    buf.col = 1;
    buf.insert_newline();
    buf.backspace();
    assert_eq!(buf.text(), "কলম\nপাতা");
    assert_eq!((buf.row, buf.col), (0, 1));
}

#[test]
fn left_then_right_returns_across_a_line_break() {
    let mut buf = Buffer::from_text("ab\ncd", PathBuf::from("t.ক"));
    buf.row = 1;
    buf.col = 0;
    buf.move_left();
    assert_eq!((buf.row, buf.col), (0, 2));
    buf.move_right();
    assert_eq!((buf.row, buf.col), (1, 0));
}

#[test]
fn text_round_trips_through_a_buffer() {
    for t in ["", "ক", "এক\nদুই\n\nতিন", "a\rb", "শেষে\r"] {
        let buf = Buffer::from_text(t, PathBuf::from("t.ক"));
        assert_eq!(buf.text(), t);
    }
    let buf = Buffer::from_text("এক\r\nদুই\n", PathBuf::from("t.ক"));
    assert_eq!(buf.text(), "এক\nদুই");
    assert_eq!(buf.line_count(), 2);
}

#[test]
fn empty_text_gives_one_empty_line() {
    let buf = Buffer::from_text("", PathBuf::from("t.ক"));
    assert_eq!(buf.line_count(), 1);
    assert_eq!(buf.line(0), "");
}

#[test]
fn screen_scrolls_marks_errors_and_clips() {
    let mut buf = Buffer::from_text("ক\nখগঘঙচ\nঘ", PathBuf::from("x.ক"));
    buf.row = 2;
    let diags = vec![Diagnostic { line: 2, col: 1, message: "ভুল".to_string() }];
    let s = screen(&buf, &diags, "x.ক", 8, 3);
    assert_eq!(s.rows.len(), 2);
    assert_eq!(s.rows[0].gutter, "  2✗ ");
    assert!(s.rows[0].error);
    assert_eq!(s.rows[0].text, "খগঘ");
    assert_eq!(s.rows[1].gutter, "  3  ");
    assert!(!s.rows[1].error);
    assert_eq!(s.rows[1].text, "ঘ");
    assert_eq!(s.status, " x.ক — 2");
    assert_eq!((s.cursor_col, s.cursor_row), (5, 1));
}

#[test]
fn screen_pads_a_short_status_line() {
    let buf = Buffer::from_text("", PathBuf::from("a"));
    let s = screen(&buf, &Vec::new(), "a", 200, 1);
    assert_eq!(s.rows.len(), 1);
    assert_eq!(s.rows[0].gutter, "  1  ");
    assert_eq!(s.status.chars().count(), 200);
    assert!(s.status.starts_with(" a — ত্রুটি নেই"));
    assert!(s.status.ends_with("  "));
    assert_eq!((s.cursor_col, s.cursor_row), (5, 0));
}

#[test]
fn line_count_is_one_more_than_the_line_feeds() {
    assert_eq!(Buffer::from_text("a\nb\nc", PathBuf::from("t")).line_count(), 3);
    assert_eq!(Buffer::from_text("", PathBuf::from("t")).line_count(), 1);
    assert_eq!(Buffer::from_text("\n\nx", PathBuf::from("t")).line_count(), 3);
}
