//! The text buffer behind `কলম পাতা`, the built-in terminal editor, and the
//! key handling that drives it. Positions are counted in characters, never
//! in bytes, so Bengali text (three UTF-8 bytes per letter) edits correctly.

use vstd::prelude::*;
use std::path::PathBuf;
use crate::text::{chars_of, string_from, push_char, push_str};
use crate::lexer::{Diagnostic, decimal, decimal_chars};
use crate::messages::{KEYS_HINT, NO_ERRORS};
use crate::calendar::digits_u64;

verus! {

#[verifier::external_type_specification]
#[verifier::external_body]
pub struct ExPathBuf(PathBuf);

/// Editing state: the lines (without their line breaks), the cursor, and
/// whether anything changed since the last save.
pub struct Buffer {
    pub lines: Vec<String>,
    pub row: usize,
    pub col: usize,
    pub dirty: bool,
    pub path: PathBuf,
}

/// The buffer as plain values.
pub struct BufferV {
    pub lines: Seq<Seq<char>>,
    pub row: int,
    pub col: int,
    pub dirty: bool,
    pub path: PathBuf,
}

impl View for Buffer {
    type V = BufferV;

    open spec fn view(&self) -> BufferV {
        BufferV {
            lines: self.lines@.map_values(|s: String| s@),
            row: self.row as int,
            col: self.col as int,
            dirty: self.dirty,
            path: self.path,
        }
    }
}

/// What a key press asks of the editor beyond editing the buffer.
#[derive(Debug, PartialEq, Eq, Structural)]
pub enum Action {
    Nothing,
    Save,
    Run,
    Quit,
}

/// A key press, as the editor reads it.
#[derive(Debug, Clone, Copy, PartialEq, Eq, Structural)]
pub enum Key {
    /// A character, with whether Control and Alt were held.
    Char { c: char, control: bool, alt: bool },
    Enter,
    Backspace,
    Delete,
    Tab,
    Left,
    Right,
    Up,
    Down,
    Home,
    End,
    Esc,
    /// Any other key.
    Other,
}

/// The lines of `s` as `str::lines` gives them, from index `j` on: split at
/// `\n`, a `\r` right before the `\n` dropped, and no empty line after a
/// final line break.
pub open spec fn lines_from(s: Seq<char>, j: int) -> Seq<Seq<char>>
    decreases s.len() - j,
{
    if j < 0 || j >= s.len() {
        seq![]
    } else {
        let e = line_break_at(s, j);
        if e >= s.len() || e < j {
            seq![s.subrange(j, s.len() as int)]
        } else {
            seq![strip_cr(s.subrange(j, e))] + lines_from(s, e + 1)
        }
    }
}

/// The index of the first `\n` at or after `j`, or the length.
pub open spec fn line_break_at(s: Seq<char>, j: int) -> int
    decreases s.len() - j,
{
    if 0 <= j < s.len() && s[j] != '\n' {
        line_break_at(s, j + 1)
    } else {
        j
    }
}

pub open spec fn strip_cr(l: Seq<char>) -> Seq<char> {
    if l.len() > 0 && l.last() == '\r' {
        l.drop_last()
    } else {
        l
    }
}

/// Lines joined with `\n` between them.
pub open spec fn join_lines(ls: Seq<Seq<char>>) -> Seq<char>
    decreases ls.len(),
{
    if ls.len() == 0 {
        seq![]
    } else if ls.len() == 1 {
        ls[0]
    } else {
        join_lines(ls.drop_last()) + seq!['\n'] + ls.last()
    }
}

/// The byte-free position in a line that a cursor column stands for: the
/// column itself, or the end of the line when the column is past it.
pub open spec fn at_col(l: Seq<char>, col: int) -> int {
    if col <= l.len() {
        col
    } else {
        l.len() as int
    }
}

pub open spec fn insert_at(l: Seq<char>, k: int, c: char) -> Seq<char> {
    l.subrange(0, k) + seq![c] + l.subrange(k, l.len() as int)
}

pub open spec fn remove_at(l: Seq<char>, k: int) -> Seq<char> {
    l.subrange(0, k) + l.subrange(k + 1, l.len() as int)
}

/// The lines of `text` as `str::lines` gives them.
pub fn split_lines(text: &str) -> (lines: Vec<String>)
    ensures
        lines@.map_values(|s: String| s@) == lines_from(text@, 0),
{
    let cs = chars_of(text);
    let mut lines: Vec<String> = Vec::new();
    let mut j: usize = 0;
    let ghost target = lines_from(cs@, 0);
    let mut cur: Vec<char> = Vec::new();
    let mut start: usize = 0;
    // Scan the text once, cutting a line at each `\n`.
    while j < cs.len()
        invariant
            start <= j <= cs@.len(),
            cs@ == text@,
            cur@ == cs@.subrange(start as int, j as int),
            forall|k: int| start <= k < j ==> cs@[k] != '\n',
            lines@.map_values(|s: String| s@) + lines_from(cs@, start as int) == target,
            start == 0 || (start > 0 && cs@[start - 1] == '\n'),
        decreases cs.len() - j,
    {
        let c = cs[j];
        if c == '\n' {
            proof {
                lemma_line_break(cs@, start as int, j as int);
            }
            let l = strip_cr_vec(&cur);
            let s = string_from(&l);
            proof {
                assert((lines@.push(s)).map_values(|s: String| s@) =~= lines@.map_values(
                    |s: String| s@,
                ).push(s@));
                assert(lines@.map_values(|s: String| s@).push(s@) + lines_from(cs@, j + 1)
                    =~= lines@.map_values(|s: String| s@) + (seq![s@] + lines_from(
                    cs@,
                    j + 1,
                )));
            }
            lines.push(s);
            cur = Vec::new();
            j += 1;
            start = j;
            assert(cur@ =~= cs@.subrange(start as int, j as int));
        } else {
            cur.push(c);
            j += 1;
            assert(cur@ =~= cs@.subrange(start as int, j as int));
        }
    }
    if start < cs.len() {
        proof {
            lemma_line_break(cs@, start as int, cs@.len() as int);
        }
        let s = string_from(&cur);
        proof {
            assert((lines@.push(s)).map_values(|s: String| s@) =~= lines@.map_values(
                |s: String| s@,
            ) + seq![s@]);
        }
        lines.push(s);
    } else {
        assert(lines_from(cs@, start as int) =~= Seq::<Seq<char>>::empty());
        assert(lines@.map_values(|s: String| s@) =~= target);
    }
    lines
}

/// The lines of a new buffer holding `text`: never none, so an empty text
/// gives one empty line.
pub open spec fn initial_lines(text: Seq<char>) -> Seq<Seq<char>> {
    let ls = lines_from(text, 0);
    if ls.len() == 0 {
        seq![seq![]]
    } else {
        ls
    }
}

// ---------------------------------------------------------------------------
// What each edit does, on the buffer's plain values
// ---------------------------------------------------------------------------

pub open spec fn ins_char(b: BufferV, c: char) -> BufferV {
    let l = b.lines[b.row];
    BufferV { lines: b.lines.update(b.row, insert_at(l, at_col(l, b.col), c)), col: b.col + 1, dirty: true, ..b }
}

pub open spec fn ins_newline(b: BufferV) -> BufferV {
    let l = b.lines[b.row];
    let k = at_col(l, b.col);
    BufferV {
        lines: b.lines.update(b.row, l.subrange(0, k)).insert(b.row + 1, l.subrange(k, l.len() as int)),
        row: b.row + 1,
        col: 0,
        dirty: true,
        ..b
    }
}

pub open spec fn back(b: BufferV) -> BufferV {
    if b.col > 0 {
        BufferV {
            lines: b.lines.update(b.row, remove_at(b.lines[b.row], b.col - 1)),
            col: b.col - 1,
            dirty: true,
            ..b
        }
    } else if b.row > 0 {
        let prev = b.lines[b.row - 1];
        BufferV {
            lines: b.lines.update(b.row - 1, prev + b.lines[b.row]).remove(b.row),
            row: b.row - 1,
            col: prev.len() as int,
            dirty: true,
            ..b
        }
    } else {
        b
    }
}

pub open spec fn del_forward(b: BufferV) -> BufferV {
    let l = b.lines[b.row];
    if b.col < l.len() {
        BufferV { lines: b.lines.update(b.row, remove_at(l, b.col)), dirty: true, ..b }
    } else if b.row + 1 < b.lines.len() {
        BufferV {
            lines: b.lines.update(b.row, l + b.lines[b.row + 1]).remove(b.row + 1),
            dirty: true,
            ..b
        }
    } else {
        b
    }
}

pub open spec fn left(b: BufferV) -> BufferV {
    if b.col > 0 {
        BufferV { col: b.col - 1, ..b }
    } else if b.row > 0 {
        BufferV { row: b.row - 1, col: b.lines[b.row - 1].len() as int, ..b }
    } else {
        b
    }
}

pub open spec fn right(b: BufferV) -> BufferV {
    if b.col < b.lines[b.row].len() {
        BufferV { col: b.col + 1, ..b }
    } else if b.row + 1 < b.lines.len() {
        BufferV { row: b.row + 1, col: 0, ..b }
    } else {
        b
    }
}

pub open spec fn up(b: BufferV) -> BufferV {
    if b.row > 0 {
        BufferV { row: b.row - 1, col: at_col(b.lines[b.row - 1], b.col), ..b }
    } else {
        b
    }
}

pub open spec fn down(b: BufferV) -> BufferV {
    if b.row + 1 < b.lines.len() {
        BufferV { row: b.row + 1, col: at_col(b.lines[b.row + 1], b.col), ..b }
    } else {
        b
    }
}

pub open spec fn home(b: BufferV) -> BufferV {
    BufferV { col: 0, ..b }
}

pub open spec fn end(b: BufferV) -> BufferV {
    BufferV { col: b.lines[b.row].len() as int, ..b }
}

impl Buffer {
    proof fn lemma_view(&self)
        ensures
            self@.lines.len() == self.lines@.len(),
            self@.row == self.row,
            self@.col == self.col,
            forall|i: int| 0 <= i < self.lines@.len() ==> #[trigger] self@.lines[i] == self.lines@[i]@,
    {
    }

    /// There is at least one line and the cursor's row is one of them. The
    /// column may stand past the end of its line (editing then happens at
    /// the end).
    pub open spec fn wf(&self) -> bool {
        &&& self@.lines.len() >= 1
        &&& 0 <= self@.row < self@.lines.len()
    }

    /// The cursor's line.
    pub open spec fn cur(&self) -> Seq<char> {
        self@.lines[self@.row]
    }

    /// A buffer holding `text`, cursor at the start, unchanged.
    pub fn from_text(text: &str, path: PathBuf) -> (b: Buffer)
        ensures
            b@.lines == initial_lines(text@),
            b@.row == 0,
            b@.col == 0,
            !b@.dirty,
            b@.path == path,
            b.wf(),
            cursor_in_text(b@),
    {
        let mut lines = split_lines(text);
        if lines.len() == 0 {
            lines.push(String::new());
            assert(lines@.map_values(|s: String| s@) =~= seq![Seq::<char>::empty()]);
        }
        Buffer { lines, row: 0, col: 0, dirty: false, path }
    }

    /// The whole text: the lines joined with `\n`.
    pub fn text(&self) -> (s: String)
        ensures
            s@ == join_lines(self@.lines),
    {
        proof {
            self.lemma_view();
        }
        let mut s = String::new();
        let mut i: usize = 0;
        while i < self.lines.len()
            invariant
                i <= self.lines@.len(),
                s@ == join_lines(self@.lines.take(i as int)),
            decreases self.lines.len() - i,
        {
            proof {
                let ls = self@.lines.take(i as int + 1);
                assert(ls.drop_last() =~= self@.lines.take(i as int));
                assert(ls.last() == self.lines@[i as int]@);
            }
            if i > 0 {
                push_char(&mut s, '\n');
            } else {
                assert(self@.lines.take(0) =~= Seq::<Seq<char>>::empty());
            }
            push_str(&mut s, self.lines[i].as_str());
            i += 1;
        }
        assert(self@.lines.take(self.lines@.len() as int) =~= self@.lines);
        s
    }

    pub fn line_count(&self) -> (n: usize)
        ensures
            n == self@.lines.len(),
    {
        proof {
            self.lemma_view();
        }
        self.lines.len()
    }

    pub fn line(&self, i: usize) -> (l: &str)
        requires
            i < self@.lines.len(),
        ensures
            l@ == self@.lines[i as int],
    {
        proof {
            self.lemma_view();
        }
        self.lines[i].as_str()
    }

    /// Replaces line `i`.
    fn set_line(&mut self, i: usize, l: &Vec<char>)
        requires
            i < old(self)@.lines.len(),
        ensures
            final(self)@.lines == old(self)@.lines.update(i as int, l@),
            final(self)@.row == old(self)@.row,
            final(self)@.col == old(self)@.col,
            final(self)@.dirty == old(self)@.dirty,
            final(self)@.path == old(self)@.path,
    {
        proof {
            self.lemma_view();
        }
        let s = string_from(l);
        self.lines.set(i, s);
        assert(self@.lines =~= old(self)@.lines.update(i as int, l@));
    }

    fn line_chars(&self, i: usize) -> (v: Vec<char>)
        requires
            i < self@.lines.len(),
        ensures
            v@ == self@.lines[i as int],
    {
        proof {
            self.lemma_view();
        }
        chars_of(self.lines[i].as_str())
    }

    fn clamp_col(&mut self)
        requires
            old(self).wf(),
        ensures
            final(self)@.lines == old(self)@.lines,
            final(self)@.row == old(self)@.row,
            final(self)@.col == at_col(old(self).cur(), old(self)@.col),
            final(self)@.dirty == old(self)@.dirty,
            final(self)@.path == old(self)@.path,
    {
        proof {
            self.lemma_view();
        }
        let len = self.line_chars(self.row).len();
        if self.col > len {
            self.col = len;
        }
    }

    /// Types `c` at the cursor, which then stands after it.
    pub fn insert_char(&mut self, c: char)
        requires
            old(self).wf(),
            old(self)@.col < usize::MAX,
        ensures
            final(self)@ == ins_char(old(self)@, c),
            final(self).wf(),
            cursor_in_text(old(self)@) ==> cursor_in_text(final(self)@),
    {
        proof {
            if cursor_in_text(self@) {
                law_edits_keep_cursor_in_text(self@, c);
            }
        }
        proof {
            self.lemma_view();
        }
        let l = self.line_chars(self.row);
        let k = if self.col <= l.len() {
            self.col
        } else {
            l.len()
        };
        let mut n: Vec<char> = Vec::new();
        let mut j: usize = 0;
        while j < l.len()
            invariant
                j <= l@.len(),
                k <= l@.len(),
                n@ == (if j <= k {
                    l@.subrange(0, j as int)
                } else {
                    l@.subrange(0, k as int) + seq![c] + l@.subrange(k as int, j as int)
                }),
            decreases l.len() - j,
        {
            if j == k {
                n.push(c);
            }
            n.push(l[j]);
            j += 1;
            assert(n@ =~= (if j <= k {
                l@.subrange(0, j as int)
            } else {
                l@.subrange(0, k as int) + seq![c] + l@.subrange(k as int, j as int)
            }));
        }
        if k == l.len() {
            n.push(c);
        }
        assert(n@ =~= insert_at(l@, k as int, c));
        self.set_line(self.row, &n);
        self.col = self.col + 1;
        self.dirty = true;
    }

    /// Breaks the line at the cursor; the cursor moves to the start of the
    /// new line.
    pub fn insert_newline(&mut self)
        requires
            old(self).wf(),
        ensures
            final(self)@ == ins_newline(old(self)@),
            final(self).wf(),
            cursor_in_text(old(self)@) ==> cursor_in_text(final(self)@),
    {
        proof {
            if cursor_in_text(self@) {
                law_edits_keep_cursor_in_text(self@, ' ');
            }
        }
        proof {
            self.lemma_view();
        }
        let l = self.line_chars(self.row);
        let k = if self.col <= l.len() {
            self.col
        } else {
            l.len()
        };
        let head = slice_chars(&l, 0, k);
        let tail = slice_chars(&l, k, l.len());
        self.set_line(self.row, &head);
        proof {
            self.lemma_view();
        }
        let t = string_from(&tail);
        let ghost before = self@.lines;
        let n = self.lines.len();
        assert(self.row < n);
        self.lines.insert(self.row + 1, t);
        assert(self@.lines =~= before.insert(self.row + 1, tail@));
        self.row = self.row + 1;
        self.col = 0;
        self.dirty = true;
    }

    /// Deletes the character before the cursor, or joins the line to the
    /// one above when the cursor is at its start; nothing at the very start.
    pub fn backspace(&mut self)
        requires
            old(self).wf(),
            old(self)@.col > 0 ==> old(self)@.col <= old(self).cur().len(),
        ensures
            final(self)@ == back(old(self)@),
            final(self).wf(),
            cursor_in_text(old(self)@) ==> cursor_in_text(final(self)@),
    {
        proof {
            if cursor_in_text(self@) {
                law_edits_keep_cursor_in_text(self@, ' ');
            }
        }
        proof {
            self.lemma_view();
        }
        if self.col > 0 {
            let l = self.line_chars(self.row);
            let n = remove_char(&l, self.col - 1);
            self.set_line(self.row, &n);
            self.col = self.col - 1;
            self.dirty = true;
        } else if self.row > 0 {
            let prev = self.line_chars(self.row - 1);
            let cur = self.line_chars(self.row);
            let joined = concat_chars(&prev, &cur);
            self.set_line(self.row - 1, &joined);
            proof {
                self.lemma_view();
            }
            let ghost before = self@.lines;
            self.lines.remove(self.row);
            assert(self@.lines =~= before.remove(self.row as int));
            self.row = self.row - 1;
            self.col = prev.len();
            self.dirty = true;
        }
    }

    /// Deletes the character under the cursor, or joins the next line to
    /// this one when the cursor is at (or past) the end; nothing at the very end.
    pub fn delete_forward(&mut self)
        requires
            old(self).wf(),
        ensures
            final(self)@ == del_forward(old(self)@),
            final(self).wf(),
            cursor_in_text(old(self)@) ==> cursor_in_text(final(self)@),
    {
        proof {
            if cursor_in_text(self@) {
                law_edits_keep_cursor_in_text(self@, ' ');
            }
        }
        proof {
            self.lemma_view();
        }
        let l = self.line_chars(self.row);
        if self.col < l.len() {
            let n = remove_char(&l, self.col);
            self.set_line(self.row, &n);
            self.dirty = true;
        } else if self.row < self.lines.len() - 1 {
            let next = self.line_chars(self.row + 1);
            let joined = concat_chars(&l, &next);
            self.set_line(self.row, &joined);
            proof {
                self.lemma_view();
            }
            let ghost before = self@.lines;
            self.lines.remove(self.row + 1);
            assert(self@.lines =~= before.remove(self.row + 1));
            self.dirty = true;
        }
    }

    /// One character left, or to the end of the line above.
    pub fn move_left(&mut self)
        requires
            old(self).wf(),
        ensures
            final(self)@ == left(old(self)@),
            final(self).wf(),
            cursor_in_text(old(self)@) ==> cursor_in_text(final(self)@),
    {
        proof {
            if cursor_in_text(self@) {
                law_edits_keep_cursor_in_text(self@, ' ');
            }
        }
        proof {
            self.lemma_view();
        }
        if self.col > 0 {
            self.col = self.col - 1;
        } else if self.row > 0 {
            self.row = self.row - 1;
            self.col = self.line_chars(self.row).len();
        }
    }

    /// One character right, or to the start of the line below.
    pub fn move_right(&mut self)
        requires
            old(self).wf(),
        ensures
            final(self)@ == right(old(self)@),
            final(self).wf(),
            cursor_in_text(old(self)@) ==> cursor_in_text(final(self)@),
    {
        proof {
            if cursor_in_text(self@) {
                law_edits_keep_cursor_in_text(self@, ' ');
            }
        }
        proof {
            self.lemma_view();
        }
        let len = self.line_chars(self.row).len();
        if self.col < len {
            self.col = self.col + 1;
        } else if self.row < self.lines.len() - 1 {
            self.row = self.row + 1;
            self.col = 0;
        }
    }

    /// One line up, the column kept within the new line.
    pub fn move_up(&mut self)
        requires
            old(self).wf(),
        ensures
            final(self)@ == up(old(self)@),
            final(self).wf(),
            cursor_in_text(old(self)@) ==> cursor_in_text(final(self)@),
    {
        proof {
            if cursor_in_text(self@) {
                law_edits_keep_cursor_in_text(self@, ' ');
            }
        }
        proof {
            self.lemma_view();
        }
        if self.row > 0 {
            self.row = self.row - 1;
            self.clamp_col();
        }
    }

    /// One line down, the column kept within the new line.
    pub fn move_down(&mut self)
        requires
            old(self).wf(),
        ensures
            final(self)@ == down(old(self)@),
            final(self).wf(),
            cursor_in_text(old(self)@) ==> cursor_in_text(final(self)@),
    {
        proof {
            if cursor_in_text(self@) {
                law_edits_keep_cursor_in_text(self@, ' ');
            }
        }
        proof {
            self.lemma_view();
        }
        if self.row < self.lines.len() - 1 {
            self.row = self.row + 1;
            self.clamp_col();
        }
    }

    /// To the start of the line.
    pub fn move_home(&mut self)
        ensures
            final(self)@ == home(old(self)@),
            cursor_in_text(old(self)@) ==> cursor_in_text(final(self)@),
    {
        proof {
            if cursor_in_text(self@) {
                law_edits_keep_cursor_in_text(self@, ' ');
            }
        }
        proof {
            self.lemma_view();
        }
        self.col = 0;
    }

    /// To the end of the line.
    pub fn move_end(&mut self)
        requires
            old(self).wf(),
        ensures
            final(self)@ == end(old(self)@),
            final(self).wf(),
            cursor_in_text(old(self)@) ==> cursor_in_text(final(self)@),
    {
        proof {
            if cursor_in_text(self@) {
                law_edits_keep_cursor_in_text(self@, ' ');
            }
        }
        proof {
            self.lemma_view();
        }
        self.col = self.line_chars(self.row).len();
    }
}

// ---------------------------------------------------------------------------
// Keys
// ---------------------------------------------------------------------------

/// What a key asks for beyond editing: Ctrl+S saves, Ctrl+R runs, Ctrl+Q quits.
pub open spec fn key_action(k: Key) -> Action {
    match k {
        Key::Char { c, control, alt } => {
            if control && c == 's' {
                Action::Save
            } else if control && c == 'r' {
                Action::Run
            } else if control && c == 'q' {
                Action::Quit
            } else {
                Action::Nothing
            }
        },
        _ => Action::Nothing,
    }
}

/// What a key does to the buffer. A character typed without Control or Alt
/// is inserted; Tab inserts four spaces; other keys with Control or Alt
/// leave the text alone.
pub open spec fn key_effect(b: BufferV, k: Key) -> BufferV {
    match k {
        Key::Char { c, control, alt } => {
            if !control && !alt {
                ins_char(b, c)
            } else {
                b
            }
        },
        Key::Enter => ins_newline(b),
        Key::Backspace => back(b),
        Key::Delete => del_forward(b),
        Key::Tab => ins_char(ins_char(ins_char(ins_char(b, ' '), ' '), ' '), ' '),
        Key::Left => left(b),
        Key::Right => right(b),
        Key::Up => up(b),
        Key::Down => down(b),
        Key::Home => home(b),
        Key::End => end(b),
        Key::Esc | Key::Other => b,
    }
}

/// The inputs on which a key can be applied: a well-formed buffer, room to
/// move the column on when typing, and a column inside its line when
/// deleting backwards from it.
pub open spec fn key_applies(buf: &Buffer, k: Key) -> bool {
    &&& buf.wf()
    &&& (k matches Key::Char { .. } ==> buf@.col < usize::MAX)
    &&& (k is Tab ==> buf@.col + 4 <= usize::MAX)
    &&& (k is Backspace && buf@.col > 0 ==> buf@.col <= buf.cur().len())
}

/// Applies one key press to the buffer and says what else it asks for.
pub fn apply_key(buf: &mut Buffer, key: Key) -> (a: Action)
    requires
        key_applies(old(buf), key),
    ensures
        final(buf).wf(),
        final(buf)@ == key_effect(old(buf)@, key),
        a == key_action(key),
{
    match key {
        Key::Char { c, control, alt } => {
            if control && c == 's' {
                Action::Save
            } else if control && c == 'r' {
                Action::Run
            } else if control && c == 'q' {
                Action::Quit
            } else if !control && !alt {
                buf.insert_char(c);
                Action::Nothing
            } else {
                Action::Nothing
            }
        },
        Key::Enter => {
            buf.insert_newline();
            Action::Nothing
        },
        Key::Backspace => {
            buf.backspace();
            Action::Nothing
        },
        Key::Delete => {
            buf.delete_forward();
            Action::Nothing
        },
        Key::Tab => {
            let mut i: usize = 0;
            let ghost b0 = buf@;
            while i < 4
                invariant
                    i <= 4,
                    buf.wf(),
                    buf@.col == b0.col + i,
                    b0.col + 4 <= usize::MAX,
                    buf@ == tab_partial(b0, i as int),
                decreases 4 - i,
            {
                buf.insert_char(' ');
                i += 1;
            }
            assert(tab_partial(b0, 4) == ins_char(ins_char(ins_char(ins_char(b0, ' '), ' '), ' '), ' '))
                by {
                reveal_with_fuel(tab_partial, 5);
            }
            Action::Nothing
        },
        Key::Left => {
            buf.move_left();
            Action::Nothing
        },
        Key::Right => {
            buf.move_right();
            Action::Nothing
        },
        Key::Up => {
            buf.move_up();
            Action::Nothing
        },
        Key::Down => {
            buf.move_down();
            Action::Nothing
        },
        Key::Home => {
            buf.move_home();
            Action::Nothing
        },
        Key::End => {
            buf.move_end();
            Action::Nothing
        },
        Key::Esc | Key::Other => Action::Nothing,
    }
}

/// `n` spaces typed one after another.
pub open spec fn tab_partial(b: BufferV, n: int) -> BufferV
    decreases n,
{
    if n <= 0 {
        b
    } else {
        ins_char(tab_partial(b, n - 1), ' ')
    }
}

/// `l[a..b]`.
fn slice_chars(l: &Vec<char>, a: usize, b: usize) -> (r: Vec<char>)
    requires
        a <= b <= l@.len(),
    ensures
        r@ == l@.subrange(a as int, b as int),
{
    let mut r: Vec<char> = Vec::new();
    let mut j = a;
    while j < b
        invariant
            a <= j <= b,
            b <= l@.len(),
            r@ == l@.subrange(a as int, j as int),
        decreases b - j,
    {
        r.push(l[j]);
        j += 1;
        assert(r@ =~= l@.subrange(a as int, j as int));
    }
    r
}

/// `l` without its character at `k`.
fn remove_char(l: &Vec<char>, k: usize) -> (r: Vec<char>)
    requires
        k < l@.len(),
    ensures
        r@ == remove_at(l@, k as int),
{
    let n = l.len();
    let mut r = slice_chars(l, 0, k);
    let tail = slice_chars(l, k + 1, l.len());
    let mut j: usize = 0;
    let ghost r0 = r@;
    while j < tail.len()
        invariant
            j <= tail@.len(),
            r@ == r0 + tail@.subrange(0, j as int),
        decreases tail.len() - j,
    {
        r.push(tail[j]);
        j += 1;
        assert(r@ =~= r0 + tail@.subrange(0, j as int));
    }
    assert(tail@.subrange(0, tail@.len() as int) =~= tail@);
    r
}

/// `a` followed by `b`.
fn concat_chars(a: &Vec<char>, b: &Vec<char>) -> (r: Vec<char>)
    ensures
        r@ == a@ + b@,
{
    let mut r = slice_chars(a, 0, a.len());
    let mut j: usize = 0;
    assert(r@ =~= a@);
    while j < b.len()
        invariant
            j <= b@.len(),
            r@ == a@ + b@.subrange(0, j as int),
        decreases b.len() - j,
    {
        r.push(b[j]);
        j += 1;
        assert(r@ =~= a@ + b@.subrange(0, j as int));
    }
    assert(b@.subrange(0, b@.len() as int) =~= b@);
    r
}

/// `l` without a final `\r`.
fn strip_cr_vec(l: &Vec<char>) -> (r: Vec<char>)
    ensures
        r@ == strip_cr(l@),
{
    if l.len() > 0 && l[l.len() - 1] == '\r' {
        slice_chars(l, 0, l.len() - 1)
    } else {
        slice_chars(l, 0, l.len())
    }
}

/// A line cut at a `\n` (or at the end) found by scanning from `start`.
proof fn lemma_line_break(s: Seq<char>, start: int, j: int)
    requires
        0 <= start <= j <= s.len(),
        forall|k: int| start <= k < j ==> s[k] != '\n',
        j == s.len() || s[j] == '\n',
    ensures
        line_break_at(s, start) == j,
    decreases j - start,
{
    if start < j {
        lemma_line_break(s, start + 1, j);
    }
}

// ---------------------------------------------------------------------------
// Laws of editing
// ---------------------------------------------------------------------------

/// A cursor on an existing line, no further right than the line's end.
pub open spec fn cursor_in_text(b: BufferV) -> bool {
    0 <= b.row < b.lines.len() && 0 <= b.col <= b.lines[b.row].len()
}

/// Typing a character and then pressing backspace gives back the text and
/// the cursor as they were; the buffer stays marked as changed.
pub proof fn law_backspace_undoes_insert(b: BufferV, c: char)
    requires
        cursor_in_text(b),
    ensures
        back(ins_char(b, c)) == (BufferV { dirty: true, ..b }),
{
    let l = b.lines[b.row];
    let k = at_col(l, b.col);
    assert(k == b.col);
    let l2 = insert_at(l, k, c);
    assert(remove_at(l2, k) =~= l);
    assert(b.lines.update(b.row, l2).update(b.row, remove_at(l2, k)) =~= b.lines);
}

/// Breaking a line and then pressing backspace joins it again and puts the
/// cursor back where it was; the buffer stays marked as changed.
pub proof fn law_backspace_undoes_newline(b: BufferV)
    requires
        cursor_in_text(b),
    ensures
        back(ins_newline(b)) == (BufferV { dirty: true, ..b }),
{
    let l = b.lines[b.row];
    let k = at_col(l, b.col);
    let ls = b.lines.update(b.row, l.subrange(0, k)).insert(b.row + 1, l.subrange(k, l.len() as int));
    assert(ls[b.row] == l.subrange(0, k));
    assert(ls[b.row + 1] == l.subrange(k, l.len() as int));
    assert(l.subrange(0, k) + l.subrange(k, l.len() as int) =~= l);
    assert(ls.update(b.row, l).remove(b.row + 1) =~= b.lines);
}

/// With the cursor inside a line, deleting forward removes the character
/// under the cursor: the characters before it stay where they were, those
/// after it move one place left, and the cursor, the other lines and the
/// number of lines stay as they were.
pub proof fn law_delete_forward_removes_char_under_cursor(b: BufferV)
    requires
        cursor_in_text(b),
        b.col < b.lines[b.row].len(),
    ensures
        ({
            let l = b.lines[b.row];
            let r = del_forward(b);
            &&& r.row == b.row && r.col == b.col && r.dirty
            &&& r.lines.len() == b.lines.len()
            &&& forall|i: int| 0 <= i < b.lines.len() && i != b.row ==> r.lines[i] == b.lines[i]
            &&& r.lines[b.row].len() == l.len() - 1
            &&& forall|k: int| 0 <= k < b.col ==> r.lines[b.row][k] == l[k]
            &&& forall|k: int| b.col <= k < l.len() - 1 ==> r.lines[b.row][k] == l[k + 1]
        }),
{
}

/// Typing a character, moving back over it and deleting forward gives back
/// the text and the cursor as they were; the buffer stays marked as
/// changed.
pub proof fn law_delete_forward_undoes_insert(b: BufferV, c: char)
    requires
        cursor_in_text(b),
    ensures
        del_forward(left(ins_char(b, c))) == (BufferV { dirty: true, ..b }),
{
    let l = b.lines[b.row];
    let k = at_col(l, b.col);
    let l2 = insert_at(l, k, c);
    assert(l2.len() == l.len() + 1);
    assert(remove_at(l2, k) =~= l);
    assert(b.lines.update(b.row, l2).update(b.row, remove_at(l2, k)) =~= b.lines);
}

/// Moving left and then right comes back to the same place, wherever a
/// move left is possible.
pub proof fn law_right_undoes_left(b: BufferV)
    requires
        cursor_in_text(b),
        b.row > 0 || b.col > 0,
    ensures
        right(left(b)) == b,
{
}

/// Moving right and then left comes back to the same place, wherever a
/// move right is possible.
pub proof fn law_left_undoes_right(b: BufferV)
    requires
        cursor_in_text(b),
        b.row + 1 < b.lines.len() || b.col < b.lines[b.row].len(),
    ensures
        left(right(b)) == b,
{
}

/// Joining lines after the first is joining the rest after the first line
/// and a line break.
proof fn lemma_join_front(x: Seq<char>, rest: Seq<Seq<char>>)
    requires
        rest.len() > 0,
    ensures
        join_lines(seq![x] + rest) == x + seq!['\n'] + join_lines(rest),
    decreases rest.len(),
{
    let all = seq![x] + rest;
    if rest.len() == 1 {
        assert(all.drop_last() =~= seq![x]);
        assert(all.last() == rest[0]);
        assert(join_lines(rest) == rest[0]);
        assert(seq![x][0] == x);
        assert(join_lines(seq![x]) == x);
        assert(join_lines(all) == join_lines(all.drop_last()) + seq!['\n'] + all.last());
    } else {
        assert(all.drop_last() =~= seq![x] + rest.drop_last());
        lemma_join_front(x, rest.drop_last());
        assert(all.last() == rest.last());
        assert(join_lines(all) == join_lines(all.drop_last()) + seq!['\n'] + all.last());
        assert(join_lines(rest) == join_lines(rest.drop_last()) + seq!['\n'] + rest.last());
        assert(x + seq!['\n'] + join_lines(rest.drop_last()) + seq!['\n'] + rest.last() =~= x + seq!['\n'] + (
        join_lines(rest.drop_last()) + seq!['\n'] + rest.last()));
    }
}

/// A text that `str::lines` and a join with `\n` give back unchanged: it
/// does not end with a line break and holds no `\r\n`.
pub open spec fn lines_keep_text(t: Seq<char>) -> bool {
    &&& (t.len() == 0 || t.last() != '\n')
    &&& forall|i: int| 1 <= i < t.len() && #[trigger] t[i] == '\n' ==> t[i - 1] != '\r'
}

proof fn lemma_join_lines_from(t: Seq<char>, j: int)
    requires
        0 <= j < t.len(),
        lines_keep_text(t),
    ensures
        join_lines(lines_from(t, j)) == t.subrange(j, t.len() as int),
    decreases t.len() - j,
{
    let e = line_break_at(t, j);
    lemma_break_facts(t, j);
    if e >= t.len() {
        assert(lines_from(t, j) == seq![t.subrange(j, t.len() as int)]);
    } else {
        assert(t[e] == '\n');
        assert(e + 1 < t.len());
        lemma_join_lines_from(t, e + 1);
        let line = t.subrange(j, e);
        if e > j {
            assert(t[e - 1] != '\r');
            assert(line.last() == t[e - 1]);
        }
        assert(strip_cr(line) == line);
        let rest = lines_from(t, e + 1);
        assert(lines_from(t, j) == seq![line] + rest);
        assert(rest.len() > 0);
        lemma_join_front(line, rest);
        assert(line + seq!['\n'] + t.subrange(e + 1, t.len() as int) =~= t.subrange(j, t.len() as int));
    }
}

proof fn lemma_break_facts(t: Seq<char>, j: int)
    requires
        0 <= j <= t.len(),
    ensures
        j <= line_break_at(t, j) <= t.len(),
        line_break_at(t, j) < t.len() ==> t[line_break_at(t, j)] == '\n',
    decreases t.len() - j,
{
    if j < t.len() && t[j] != '\n' {
        lemma_break_facts(t, j + 1);
    }
}

/// The number of line feeds in `t` from index `j` on.
pub open spec fn newlines_from(t: Seq<char>, j: int) -> int
    decreases t.len() - j,
{
    if j < 0 || j >= t.len() {
        0
    } else {
        (if t[j] == '\n' { 1int } else { 0int }) + newlines_from(t, j + 1)
    }
}

proof fn lemma_count_to_break(t: Seq<char>, j: int)
    requires
        0 <= j <= t.len(),
    ensures
        newlines_from(t, j) == newlines_from(t, line_break_at(t, j)),
    decreases t.len() - j,
{
    if j < t.len() && t[j] != '\n' {
        lemma_count_to_break(t, j + 1);
    }
}

proof fn lemma_lines_from_count(t: Seq<char>, j: int)
    requires
        0 <= j < t.len(),
        lines_keep_text(t),
    ensures
        lines_from(t, j).len() == newlines_from(t, j) + 1,
    decreases t.len() - j,
{
    let e = line_break_at(t, j);
    lemma_break_facts(t, j);
    lemma_count_to_break(t, j);
    if e < t.len() {
        assert(t[e] == '\n');
        assert(e + 1 < t.len());
        lemma_lines_from_count(t, e + 1);
    }
}

/// A buffer made from a text that does not end with a line break and
/// holds no `\r\n` has one line more than the text has line feeds.
pub proof fn law_line_count(t: Seq<char>)
    requires
        lines_keep_text(t),
    ensures
        initial_lines(t).len() == newlines_from(t, 0) + 1,
{
    if t.len() > 0 {
        lemma_lines_from_count(t, 0);
        lemma_break_facts(t, 0);
    }
}

/// A buffer made from a text gives the same text back, for every text
/// that does not end with a line break and holds no `\r\n`.
pub proof fn law_text_round_trip(t: Seq<char>)
    requires
        lines_keep_text(t),
    ensures
        join_lines(initial_lines(t)) == t,
{
    if t.len() == 0 {
        assert(lines_from(t, 0) =~= Seq::<Seq<char>>::empty());
        assert(initial_lines(t) =~= seq![Seq::<char>::empty()]);
        assert(join_lines(seq![Seq::<char>::empty()]) =~= t);
    } else {
        lemma_join_lines_from(t, 0);
        assert(t.subrange(0, t.len() as int) =~= t);
        lemma_break_facts(t, 0);
        assert(lines_from(t, 0).len() > 0);
    }
}

/// Every edit and every move keeps the cursor on an existing line and no
/// further right than its end.
pub proof fn law_edits_keep_cursor_in_text(b: BufferV, c: char)
    requires
        cursor_in_text(b),
    ensures
        cursor_in_text(ins_char(b, c)),
        cursor_in_text(ins_newline(b)),
        cursor_in_text(back(b)),
        cursor_in_text(del_forward(b)),
        cursor_in_text(left(b)),
        cursor_in_text(right(b)),
        cursor_in_text(up(b)),
        cursor_in_text(down(b)),
        cursor_in_text(home(b)),
        cursor_in_text(end(b)),
{
    let l = b.lines[b.row];
    assert(insert_at(l, at_col(l, b.col), c).len() == l.len() + 1);
    if b.col > 0 {
        assert(remove_at(l, b.col - 1).len() == l.len() - 1);
    } else if b.row > 0 {
        let prev = b.lines[b.row - 1];
        let ls = b.lines.update(b.row - 1, prev + l).remove(b.row);
        assert(ls[b.row - 1] == prev + l);
    }
    if b.col < l.len() {
        assert(remove_at(l, b.col).len() == l.len() - 1);
    } else if b.row + 1 < b.lines.len() {
        let ls = b.lines.update(b.row, l + b.lines[b.row + 1]).remove(b.row + 1);
        assert(ls[b.row] == l + b.lines[b.row + 1]);
    }
}

// ---------------------------------------------------------------------------
// The editor's loop and screen
// ---------------------------------------------------------------------------

/// What the editor does once a key has been applied.
#[derive(Debug, Clone, Copy, PartialEq, Eq, Structural)]
pub enum Step {
    /// Leave the editor.
    Quit,
    /// Ask whether to leave with unsaved changes.
    ConfirmQuit,
    /// Write the buffer to its file.
    Save,
    /// Run the buffer's program.
    Run,
    /// Show the buffer again.
    Redraw,
}

/// The step that follows an action: quitting asks first when there are
/// unsaved changes.
pub fn next_step(action: Action, dirty: bool) -> (s: Step)
    ensures
        s == (match action {
            Action::Quit => if dirty {
                Step::ConfirmQuit
            } else {
                Step::Quit
            },
            Action::Save => Step::Save,
            Action::Run => Step::Run,
            Action::Nothing => Step::Redraw,
        }),
{
    match action {
        Action::Quit => {
            if dirty {
                Step::ConfirmQuit
            } else {
                Step::Quit
            }
        },
        Action::Save => Step::Save,
        Action::Run => Step::Run,
        Action::Nothing => Step::Redraw,
    }
}

/// The answer a key gives to "leave without saving?": `y` leaves, `n` or
/// Esc goes back to editing, any other key is no answer.
pub fn quit_answer(key: Key) -> (r: Option<bool>)
    ensures
        r == (match key {
            Key::Char { c, .. } => if c == 'y' || c == 'Y' {
                Some(true)
            } else if c == 'n' || c == 'N' {
                Some(false)
            } else {
                None
            },
            Key::Esc => Some(false),
            _ => None,
        }),
{
    match key {
        Key::Char { c, .. } => {
            if c == 'y' || c == 'Y' {
                Some(true)
            } else if c == 'n' || c == 'N' {
                Some(false)
            } else {
                None
            }
        },
        Key::Esc => Some(false),
        _ => None,
    }
}

/// The first buffer line shown when `text_rows` lines fit on the screen:
/// far enough down that the cursor's line is on it.
pub fn first_shown_row(row: usize, text_rows: usize) -> (r: usize)
    ensures
        r == (if text_rows == 0 { row as int } else if row < text_rows { 0 } else { row - (text_rows - 1) }),
{
    let keep: usize = if text_rows == 0 {
        0
    } else {
        text_rows - 1
    };
    if row > keep {
        row - keep
    } else {
        0
    }
}

/// The status line: the file, a `*` when there are unsaved changes, then
/// the first diagnostic or that there is none, then the keys.
pub open spec fn status_spec(path: Seq<char>, dirty: bool, first: Option<Diagnostic>) -> Seq<char> {
    let head = seq![' '] + path + if dirty {
        seq!['*']
    } else {
        seq![]
    };
    match first {
        Some(d) => head + seq![' ', '—', ' '] + decimal(d.line as nat) + seq![':'] + decimal(d.col as nat) + seq![':', ' ']
            + d.message@ + KEYS_HINT@,
        None => head + NO_ERRORS@ + KEYS_HINT@,
    }
}

pub fn status_text(path: &str, dirty: bool, first: Option<&Diagnostic>) -> (s: String)
    ensures
        s@ == status_spec(path@, dirty, match first {
            Some(d) => Some(*d),
            None => None,
        }),
{
    let mut s = String::new();
    push_char(&mut s, ' ');
    push_str(&mut s, path);
    if dirty {
        push_char(&mut s, '*');
    }
    match first {
        Some(d) => {
            push_char(&mut s, ' ');
            push_char(&mut s, '—');
            push_char(&mut s, ' ');
            let l = string_from(decimal_chars(d.line).as_slice());
            push_str(&mut s, l.as_str());
            push_char(&mut s, ':');
            let c = string_from(decimal_chars(d.col).as_slice());
            push_str(&mut s, c.as_str());
            push_char(&mut s, ':');
            push_char(&mut s, ' ');
            push_str(&mut s, d.message.as_str());
        },
        None => {
            push_str(&mut s, NO_ERRORS);
        },
    }
    push_str(&mut s, KEYS_HINT);
    s
}

/// Columns taken at the left of each text row by its line number.
pub const GUTTER: usize = 5;

/// One text row of the editor's screen: the line number with its error
/// mark, whether the line has a diagnostic, and the part of the line that
/// fits.
pub struct ScreenRow {
    pub gutter: String,
    pub error: bool,
    pub text: String,
}

/// What the editor shows: the text rows from the top of the screen, the
/// status line, and the cursor's screen column and row.
pub struct Screen {
    pub rows: Vec<ScreenRow>,
    pub status: String,
    pub cursor_col: usize,
    pub cursor_row: usize,
}

/// The rows left for text above the status line.
pub open spec fn text_rows_for(rows: int) -> int {
    if rows <= 1 {
        1
    } else {
        rows - 1
    }
}

/// The line index a diagnostic marks (its line numbers count from 1).
pub open spec fn marked_line(line: u32) -> int {
    if line == 0 {
        0
    } else {
        line - 1
    }
}

/// Whether some diagnostic marks line `i`.
pub open spec fn marked(diags: Seq<Diagnostic>, i: int) -> bool {
    exists|k: int| 0 <= k < diags.len() && marked_line(#[trigger] diags[k].line) == i
}

pub open spec fn spaces(n: int) -> Seq<char> {
    Seq::new(if n < 0 { 0 } else { n as nat }, |i: int| ' ')
}

/// `s` right-aligned in `w` columns; a longer `s` is kept whole.
pub open spec fn right_aligned(s: Seq<char>, w: int) -> Seq<char> {
    if s.len() >= w {
        s
    } else {
        spaces(w - s.len()) + s
    }
}

/// The gutter of line `i`: its number from 1 in three columns, `✗` when a
/// diagnostic marks it, and a space.
pub open spec fn gutter_text(i: int, err: bool) -> Seq<char> {
    right_aligned(decimal((i + 1) as nat), 3) + (if err {
        seq!['✗']
    } else {
        seq![' ']
    }) + seq![' ']
}

/// The first `w` characters of `s`, or all of it.
pub open spec fn clipped(s: Seq<char>, w: int) -> Seq<char> {
    if s.len() <= w {
        s
    } else {
        s.take(w)
    }
}

/// The number of text rows shown from line `start` on.
pub open spec fn rows_shown(line_count: int, start: int, text_rows: int) -> int {
    if start >= line_count {
        0
    } else if line_count - start < text_rows {
        line_count - start
    } else {
        text_rows
    }
}

/// The first `n` characters of `s`, or all of it.
fn first_chars(s: &str, n: usize) -> (r: String)
    ensures
        r@ == clipped(s@, n as int),
{
    let cs = chars_of(s);
    let k = if cs.len() < n {
        cs.len()
    } else {
        n
    };
    let mut out = String::new();
    let mut i: usize = 0;
    while i < k
        invariant
            i <= k <= cs.len(),
            cs@ == s@,
            out@ == cs@.take(i as int),
        decreases k - i,
    {
        push_char(&mut out, cs[i]);
        assert(cs@.take(i as int + 1) =~= cs@.take(i as int).push(cs@[i as int]));
        i += 1;
    }
    assert(cs@.take(k as int) =~= clipped(s@, n as int));
    out
}

fn push_spaces(out: &mut String, n: usize)
    ensures
        final(out)@ == old(out)@ + spaces(n as int),
{
    let mut i: usize = 0;
    while i < n
        invariant
            i <= n,
            out@ == old(out)@ + spaces(i as int),
        decreases n - i,
    {
        push_char(out, ' ');
        assert(spaces(i as int + 1) =~= spaces(i as int).push(' '));
        i += 1;
    }
}

/// Whether some diagnostic marks line `i`.
fn is_marked(diags: &Vec<Diagnostic>, i: usize) -> (b: bool)
    ensures
        b == marked(diags@, i as int),
{
    let mut k: usize = 0;
    while k < diags.len()
        invariant
            k <= diags.len(),
            forall|j: int| 0 <= j < k ==> marked_line(#[trigger] diags@[j].line) != i,
        decreases diags.len() - k,
    {
        let l = diags[k].line;
        let at: usize = if l == 0 {
            0
        } else {
            (l - 1) as usize
        };
        if at == i {
            assert(marked_line(diags@[k as int].line) == i);
            return true;
        }
        k += 1;
    }
    false
}

fn gutter_of(i: usize, err: bool) -> (g: String)
    requires
        i < usize::MAX,
    ensures
        g@ == gutter_text(i as int, err),
{
    let ds = digits_u64((i + 1) as u64);
    let mut g = String::new();
    if ds.len() < 3 {
        push_spaces(&mut g, 3 - ds.len());
    }
    let n = string_from(ds.as_slice());
    push_str(&mut g, n.as_str());
    if err {
        push_char(&mut g, '✗');
    } else {
        push_char(&mut g, ' ');
    }
    push_char(&mut g, ' ');
    g
}

/// What the editor shows for `buf` on a screen of `cols` columns and
/// `rows` rows: the lines from the one that keeps the cursor's line on the
/// screen, each with its gutter and cut to the width left, and the status
/// line cut or padded to the width.
pub fn screen(buf: &Buffer, diags: &Vec<Diagnostic>, path: &str, cols: usize, rows: usize) -> (s: Screen)
    requires
        buf@.col + GUTTER <= usize::MAX,
    ensures
        ({
            let tr = text_rows_for(rows as int);
            let start = if buf@.row < tr { 0 } else { buf@.row - (tr - 1) };
            &&& s.rows@.len() == rows_shown(buf@.lines.len() as int, start, tr)
            &&& forall|i: int|
                0 <= i < s.rows@.len() ==> {
                    &&& (#[trigger] s.rows@[i]).error == marked(diags@, start + i)
                    &&& s.rows@[i].gutter@ == gutter_text(start + i, marked(diags@, start + i))
                    &&& s.rows@[i].text@ == clipped(buf@.lines[start + i], if cols < GUTTER { 0 } else { cols - GUTTER })
                }
            &&& s.status@ == clipped(status_spec(path@, buf@.dirty, if diags@.len() > 0 { Some(diags@[0]) } else { None }), cols as int)
                + spaces(cols - clipped(status_spec(path@, buf@.dirty, if diags@.len() > 0 { Some(diags@[0]) } else { None }), cols as int).len())
            &&& s.cursor_col == GUTTER + buf@.col
            &&& s.cursor_row == buf@.row - start
        }),
{
    let text_rows: usize = if rows <= 1 {
        1
    } else {
        rows - 1
    };
    let start = first_shown_row(buf.row, text_rows);
    let count = buf.line_count();
    let max_w: usize = if cols < GUTTER {
        0
    } else {
        cols - GUTTER
    };
    let ghost b = buf@;
    let avail: usize = if start < count {
        count - start
    } else {
        0
    };
    let mut shown: Vec<ScreenRow> = Vec::new();
    let mut i: usize = 0;
    while i < text_rows && i < avail
        invariant
            i <= text_rows,
            i <= avail,
            b == buf@,
            count == b.lines.len(),
            avail == (if start < count { count - start } else { 0 }),
            shown@.len() == i,
            forall|j: int|
                0 <= j < i ==> {
                    &&& (#[trigger] shown@[j]).error == marked(diags@, start + j)
                    &&& shown@[j].gutter@ == gutter_text(start + j, marked(diags@, start + j))
                    &&& shown@[j].text@ == clipped(b.lines[start + j], max_w as int)
                },
        decreases text_rows - i,
    {
        let idx = start + i;
        let err = is_marked(diags, idx);
        let gutter = gutter_of(idx, err);
        let text = first_chars(buf.line(idx), max_w);
        shown.push(ScreenRow { gutter, error: err, text });
        i += 1;
    }
    let first = if diags.len() > 0 {
        Some(&diags[0])
    } else {
        None
    };
    let st = status_text(path, buf.dirty, first);
    let mut status = first_chars(st.as_str(), cols);
    let n = chars_of(status.as_str()).len();
    push_spaces(&mut status, cols - n);
    Screen { rows: shown, status, cursor_col: GUTTER + buf.col, cursor_row: buf.row - start }
}

} // verus!
