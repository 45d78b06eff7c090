//! The text functions of the standard library's `লেখা` module.
//!
//! Matching is on characters. For the patterns used here that is the same
//! as `str`'s matching on UTF-8 bytes: an encoded character never starts
//! inside another one, so a byte-level match of a pattern always lies on
//! character boundaries.

use vstd::prelude::*;
use crate::text::{white_space, is_whitespace, push_char, push_str, chars_of, string_from};
use crate::json::{first_match, end_of};
use crate::calendar::{padded, push_padded};
use crate::lexer::{bn_digits, bn_num};
use crate::messages::{INDEX_OPEN, INDEX_OUT};

verus! {

// ---------------------------------------------------------------------------
// Case and white space
// ---------------------------------------------------------------------------

pub open spec fn ascii_upper(c: char) -> char {
    if 0x61 <= (c as u32) <= 0x7A {
        (((c as u32) - 32) as u8) as char
    } else {
        c
    }
}

pub open spec fn ascii_lower(c: char) -> char {
    if 0x41 <= (c as u32) <= 0x5A {
        (((c as u32) + 32) as u8) as char
    } else {
        c
    }
}

fn upper_char(c: char) -> (r: char)
    ensures
        r == ascii_upper(c),
{
    let u = c as u32;
    if 0x61 <= u && u <= 0x7A {
        ((u - 32) as u8) as char
    } else {
        c
    }
}

fn lower_char(c: char) -> (r: char)
    ensures
        r == ascii_lower(c),
{
    let u = c as u32;
    if 0x41 <= u && u <= 0x5A {
        ((u + 32) as u8) as char
    } else {
        c
    }
}

/// `বড়হাতের`: ASCII letters to upper case, every other character kept.
pub fn to_upper(s: &str) -> (r: String)
    ensures
        r@ == s@.map_values(|c: char| ascii_upper(c)),
{
    let cs = chars_of(s);
    let mut out = String::new();
    let mut i: usize = 0;
    while i < cs.len()
        invariant
            i <= cs.len(),
            out@ == cs@.take(i as int).map_values(|c: char| ascii_upper(c)),
        decreases cs.len() - i,
    {
        push_char(&mut out, upper_char(cs[i]));
        assert(cs@.take(i as int + 1).map_values(|c: char| ascii_upper(c))
            =~= cs@.take(i as int).map_values(|c: char| ascii_upper(c)).push(ascii_upper(cs@[i as int])));
        i += 1;
    }
    assert(cs@.take(cs.len() as int) =~= cs@);
    out
}

/// `ছোটহাতের`: ASCII letters to lower case, every other character kept.
pub fn to_lower(s: &str) -> (r: String)
    ensures
        r@ == s@.map_values(|c: char| ascii_lower(c)),
{
    let cs = chars_of(s);
    let mut out = String::new();
    let mut i: usize = 0;
    while i < cs.len()
        invariant
            i <= cs.len(),
            out@ == cs@.take(i as int).map_values(|c: char| ascii_lower(c)),
        decreases cs.len() - i,
    {
        push_char(&mut out, lower_char(cs[i]));
        assert(cs@.take(i as int + 1).map_values(|c: char| ascii_lower(c))
            =~= cs@.take(i as int).map_values(|c: char| ascii_lower(c)).push(ascii_lower(cs@[i as int])));
        i += 1;
    }
    assert(cs@.take(cs.len() as int) =~= cs@);
    out
}

/// The number of leading white-space characters of `cs[..k]` counted from
/// the back: the end of `cs[..k]` once trailing white space is dropped.
pub open spec fn trim_end_at(cs: Seq<char>, k: int) -> int
    decreases k,
{
    if 0 < k <= cs.len() && white_space(cs[k - 1]) {
        trim_end_at(cs, k - 1)
    } else {
        k
    }
}

/// `cs` without leading and trailing white space.
pub open spec fn trimmed(cs: Seq<char>) -> Seq<char> {
    let a = crate::json::ws_end(cs, 0);
    if a >= cs.len() {
        seq![]
    } else {
        cs.subrange(a, trim_end_at(cs, cs.len() as int))
    }
}

proof fn lemma_trim_end(cs: Seq<char>, k: int, a: int)
    requires
        0 <= a < k <= cs.len(),
        !white_space(cs[a]),
    ensures
        a < trim_end_at(cs, k) <= k,
    decreases k,
{
    if white_space(cs[k - 1]) {
        lemma_trim_end(cs, k - 1, a);
    }
}

/// `ছাঁটো`: the text without leading and trailing white space.
pub fn trim(s: &str) -> (r: String)
    ensures
        r@ == trimmed(s@),
{
    let cs = chars_of(s);
    let mut a: usize = 0;
    while a < cs.len() && is_whitespace(cs[a])
        invariant
            a <= cs.len(),
            crate::json::ws_end(cs@, a as int) == crate::json::ws_end(cs@, 0),
        decreases cs.len() - a,
    {
        a += 1;
    }
    if a >= cs.len() {
        return String::new();
    }
    let mut b: usize = cs.len();
    while b > 0 && is_whitespace(cs[b - 1])
        invariant
            b <= cs.len(),
            a < cs.len(),
            !white_space(cs@[a as int]),
            trim_end_at(cs@, b as int) == trim_end_at(cs@, cs.len() as int),
        decreases b,
    {
        b -= 1;
    }
    proof {
        lemma_trim_end(cs@, cs.len() as int, a as int);
    }
    let piece = slice_of(&cs, a, b);
    string_from(piece.as_slice())
}

fn slice_of(cs: &Vec<char>, a: usize, b: usize) -> (v: Vec<char>)
    requires
        a <= b <= cs.len(),
    ensures
        v@ == cs@.subrange(a as int, b as int),
{
    let mut v: Vec<char> = Vec::new();
    let mut i = a;
    while i < b
        invariant
            a <= i <= b <= cs.len(),
            v@ == cs@.subrange(a as int, i as int),
        decreases b - i,
    {
        v.push(cs[i]);
        assert(cs@.subrange(a as int, i as int + 1) =~= cs@.subrange(a as int, i as int).push(cs@[i as int]));
        i += 1;
    }
    v
}

// ---------------------------------------------------------------------------
// Searching
// ---------------------------------------------------------------------------

/// Why a text function refused its arguments.
#[derive(Debug, Clone, Copy, PartialEq, Eq, Structural)]
pub enum TextError {
    /// `স্প্লিট` was given an empty separator.
    EmptySeparator,
    /// `বদলাও` was given an empty text to search for.
    EmptyPattern,
}

impl TextError {
    pub open spec fn message_v(self) -> Seq<char> {
        match self {
            TextError::EmptySeparator => crate::messages::EMPTY_SEPARATOR@,
            TextError::EmptyPattern => crate::messages::EMPTY_PATTERN@,
        }
    }

    /// The message shown to the programmer.
    pub fn message(&self) -> (s: &'static str)
        ensures
            s@ == self.message_v(),
    {
        match self {
            TextError::EmptySeparator => crate::messages::EMPTY_SEPARATOR,
            TextError::EmptyPattern => crate::messages::EMPTY_PATTERN,
        }
    }
}

/// The pieces of `s` between the occurrences of `sep` (not empty), found
/// from the left without overlap.
pub open spec fn split_pieces(s: Seq<char>, sep: Seq<char>) -> Seq<Seq<char>>
    decreases s.len(),
{
    if sep.len() == 0 {
        seq![s]
    } else {
        match first_match(s, sep, 0) {
            None => seq![s],
            Some(k) => {
                proof {
                    lemma_first_match_bound(s, sep, 0);
                }
                if k + sep.len() <= s.len() {
                    seq![s.take(k)] + split_pieces(s.skip(k + sep.len()), sep)
                } else {
                    seq![s]
                }
            },
        }
    }
}

/// `s` with each occurrence of `from` (not empty), found from the left
/// without overlap, replaced by `to`.
pub open spec fn replace_all(s: Seq<char>, from: Seq<char>, to: Seq<char>) -> Seq<char>
    decreases s.len(),
{
    if from.len() == 0 {
        s
    } else {
        match first_match(s, from, 0) {
            None => s,
            Some(k) => {
                proof {
                    lemma_first_match_bound(s, from, 0);
                }
                if k + from.len() <= s.len() {
                    s.take(k) + to + replace_all(s.skip(k + from.len()), from, to)
                } else {
                    s
                }
            },
        }
    }
}

pub proof fn lemma_first_match_bound(h: Seq<char>, n: Seq<char>, k: int)
    ensures
        first_match(h, n, k) matches Some(m) ==> k <= m && m + n.len() <= h.len() && h.subrange(m, m + n.len()) == n,
    decreases h.len() + 1 - k,
{
    if !(k < 0 || k + n.len() > h.len()) && h.subrange(k, k + n.len()) != n {
        lemma_first_match_bound(h, n, k + 1);
    }
}

/// Searching the suffix from `j` finds what searching the whole from `j` finds,
/// shifted.
proof fn lemma_first_match_shift(h: Seq<char>, n: Seq<char>, j: int, k: int)
    requires
        0 <= j <= k,
        j <= h.len(),
    ensures
        first_match(h.skip(j), n, k - j) == (match first_match(h, n, k) {
            Some(m) => Some(m - j),
            None => None,
        }),
    decreases h.len() + 1 - k,
{
    let t = h.skip(j);
    if k + n.len() > h.len() {
    } else {
        assert(t.subrange(k - j, k - j + n.len()) =~= h.subrange(k, k + n.len()));
        if h.subrange(k, k + n.len()) != n {
            lemma_first_match_shift(h, n, j, k + 1);
        }
    }
}

fn vec_of(s: &str) -> (v: Vec<char>)
    ensures
        v@ == s@,
{
    chars_of(s)
}

fn find_in(h: &Vec<char>, n: &Vec<char>, from: usize) -> (r: Option<usize>)
    requires
        from <= h.len(),
    ensures
        end_of(r) == first_match(h@, n@, from as int),
        r matches Some(k) ==> k + n.len() <= h.len(),
{
    let mut k = from;
    loop
        invariant
            from <= k <= h.len(),
            first_match(h@, n@, k as int) == first_match(h@, n@, from as int),
        decreases h.len() - k,
    {
        if n.len() > h.len() - k {
            return None;
        }
        let mut m: usize = 0;
        let mut same = true;
        while m < n.len()
            invariant
                m <= n.len(),
                k + n.len() <= h.len(),
                same == (forall|q: int| 0 <= q < m ==> h@[k + q] == n@[q]),
            decreases n.len() - m,
        {
            if h[k + m] != n[m] {
                same = false;
            }
            m += 1;
        }
        if same {
            assert(h@.subrange(k as int, k + n.len()) =~= n@);
            return Some(k);
        } else {
            assert(h@.subrange(k as int, k + n.len()) != n@) by {
                let q = choose|q: int| 0 <= q < n.len() && h@[k + q] != n@[q];
                assert(h@.subrange(k as int, k + n.len())[q] == h@[k + q]);
            }
        }
        if k == h.len() {
            return None;
        }
        k += 1;
    }
}

/// `স্প্লিট`: the pieces of `s` between the occurrences of `sep`.
pub fn split(s: &str, sep: &str) -> (r: Result<Vec<String>, TextError>)
    ensures
        sep@.len() == 0 ==> r == Err::<Vec<String>, TextError>(TextError::EmptySeparator),
        sep@.len() > 0 ==> (r matches Ok(v) && v@.map_values(|p: String| p@) == split_pieces(s@, sep@)),
{
    let n = vec_of(sep);
    if n.len() == 0 {
        return Err(TextError::EmptySeparator);
    }
    let h = vec_of(s);
    let mut out: Vec<String> = Vec::new();
    let mut start: usize = 0;
    assert(h@.skip(0) =~= h@);
    assert(out@.map_values(|p: String| p@) + split_pieces(h@, n@) =~= split_pieces(h@, n@));
    loop
        invariant
            start <= h.len(),
            n@ == sep@,
            h@ == s@,
            n.len() > 0,
            out@.map_values(|p: String| p@) + split_pieces(h@.skip(start as int), n@) == split_pieces(h@, n@),
        decreases h.len() - start,
    {
        let ghost rest = h@.skip(start as int);
        proof {
            lemma_first_match_shift(h@, n@, start as int, start as int);
            lemma_first_match_bound(h@, n@, start as int);
        }
        match find_in(&h, &n, start) {
            None => {
                let piece = slice_of(&h, start, h.len());
                assert(piece@ =~= rest);
                let ghost before = out@.map_values(|p: String| p@);
                out.push(string_from(piece.as_slice()));
                assert(out@.map_values(|p: String| p@) =~= before.push(rest));
                assert(split_pieces(rest, n@) == seq![rest]);
                assert(before + seq![rest] =~= before.push(rest));
                return Ok(out);
            },
            Some(k) => {
                let piece = slice_of(&h, start, k);
                assert(piece@ =~= rest.take(k - start));
                assert(rest.skip(k - start + n.len()) =~= h@.skip(k + n.len()));
                let ghost before = out@.map_values(|p: String| p@);
                out.push(string_from(piece.as_slice()));
                assert(out@.map_values(|p: String| p@) =~= before.push(rest.take(k - start)));
                assert(split_pieces(rest, n@) == seq![rest.take(k - start)] + split_pieces(rest.skip(k - start + n.len()), n@));
                assert(before.push(rest.take(k - start)) + split_pieces(h@.skip(k + n.len()), n@)
                    =~= before + (seq![rest.take(k - start)] + split_pieces(h@.skip(k + n.len()), n@)));
                start = k + n.len();
            },
        }
    }
}

/// The pieces joined with `sep` between each two.
pub open spec fn joined(parts: Seq<Seq<char>>, sep: Seq<char>) -> Seq<char>
    decreases parts.len(),
{
    if parts.len() == 0 {
        seq![]
    } else if parts.len() == 1 {
        parts[0]
    } else {
        joined(parts.drop_last(), sep) + sep + parts.last()
    }
}

/// `জুড়াও`: the texts joined with `sep` between each two.
pub fn join(parts: &Vec<String>, sep: &str) -> (r: String)
    ensures
        r@ == joined(parts@.map_values(|p: String| p@), sep@),
{
    let ghost ps = parts@.map_values(|p: String| p@);
    let mut out = String::new();
    let mut i: usize = 0;
    while i < parts.len()
        invariant
            i <= parts.len(),
            ps == parts@.map_values(|p: String| p@),
            out@ == joined(ps.take(i as int), sep@),
        decreases parts.len() - i,
    {
        if i > 0 {
            push_str(&mut out, sep);
        }
        push_str(&mut out, parts[i].as_str());
        proof {
            let t = ps.take(i as int + 1);
            assert(t.drop_last() =~= ps.take(i as int));
            assert(t.last() == parts@[i as int]@);
            if i == 0 {
                assert(t.len() == 1);
                assert(joined(ps.take(0), sep@) =~= Seq::<char>::empty());
            }
        }
        i += 1;
    }
    assert(ps.take(parts.len() as int) =~= ps);
    out
}

/// `বদলাও`: `s` with every occurrence of `from` replaced by `to`.
pub fn replace(s: &str, from: &str, to: &str) -> (r: Result<String, TextError>)
    ensures
        from@.len() == 0 ==> r == Err::<String, TextError>(TextError::EmptyPattern),
        from@.len() > 0 ==> (r matches Ok(t) && t@ == replace_all(s@, from@, to@)),
{
    let n = vec_of(from);
    if n.len() == 0 {
        return Err(TextError::EmptyPattern);
    }
    let h = vec_of(s);
    let mut out = String::new();
    let mut start: usize = 0;
    assert(h@.skip(0) =~= h@);
    assert(out@ + replace_all(h@, n@, to@) =~= replace_all(h@, n@, to@));
    loop
        invariant
            start <= h.len(),
            n@ == from@,
            h@ == s@,
            n.len() > 0,
            out@ + replace_all(h@.skip(start as int), n@, to@) == replace_all(h@, n@, to@),
        decreases h.len() - start,
    {
        let ghost rest = h@.skip(start as int);
        proof {
            lemma_first_match_shift(h@, n@, start as int, start as int);
            lemma_first_match_bound(h@, n@, start as int);
        }
        match find_in(&h, &n, start) {
            None => {
                let piece = slice_of(&h, start, h.len());
                assert(piece@ =~= rest);
                let t = string_from(piece.as_slice());
                push_str(&mut out, t.as_str());
                assert(replace_all(rest, n@, to@) == rest);
                return Ok(out);
            },
            Some(k) => {
                let piece = slice_of(&h, start, k);
                assert(piece@ =~= rest.take(k - start));
                assert(rest.skip(k - start + n.len()) =~= h@.skip(k + n.len()));
                let ghost before = out@;
                let t = string_from(piece.as_slice());
                push_str(&mut out, t.as_str());
                push_str(&mut out, to);
                assert(before + (rest.take(k - start) + to@ + replace_all(h@.skip(k + n.len()), n@, to@))
                    =~= out@ + replace_all(h@.skip(k + n.len()), n@, to@));
                start = k + n.len();
            },
        }
    }
}

/// `খুঁজো`: the character position of the first occurrence of `sub` in
/// `s`, if there is one (the interpreter shows a missing one as -1).
pub fn find(s: &str, sub: &str) -> (r: Option<usize>)
    ensures
        end_of(r) == first_match(s@, sub@, 0),
{
    let h = vec_of(s);
    let n = vec_of(sub);
    find_in(&h, &n, 0)
}

/// `স্লাইস`: up to `len` characters of `s` from position `start`, both
/// clamped to the text.
pub open spec fn slice_spec(s: Seq<char>, start: int, len: int) -> Seq<char> {
    let a = if start < 0 {
        0
    } else if start > s.len() {
        s.len() as int
    } else {
        start
    };
    let want = if len < 0 {
        0
    } else {
        len
    };
    let b = if a + want > s.len() {
        s.len() as int
    } else {
        a + want
    };
    s.subrange(a, b)
}

pub fn slice(s: &str, start: i64, len: i64) -> (r: String)
    ensures
        r@ == slice_spec(s@, start as int, len as int),
{
    let cs = vec_of(s);
    let n = cs.len();
    let a: usize = if start < 0 {
        0
    } else if start as u64 > n as u64 {
        n
    } else {
        start as usize
    };
    let want: u64 = if len < 0 {
        0
    } else {
        len as u64
    };
    let b: usize = if want > (n - a) as u64 {
        n
    } else {
        a + want as usize
    };
    let piece = slice_of(&cs, a, b);
    string_from(piece.as_slice())
}

/// `শুরুতে_আছে`.
pub fn starts_with(s: &str, p: &str) -> (b: bool)
    ensures
        b == (p@.len() <= s@.len() && s@.take(p@.len() as int) == p@),
{
    let h = vec_of(s);
    let n = vec_of(p);
    if n.len() > h.len() {
        return false;
    }
    let mut m: usize = 0;
    while m < n.len()
        invariant
            m <= n.len() <= h.len(),
            h@ == s@,
            n@ == p@,
            forall|q: int| 0 <= q < m ==> h@[q] == n@[q],
        decreases n.len() - m,
    {
        if h[m] != n[m] {
            assert(h@.take(n.len() as int)[m as int] == h@[m as int]);
            assert(h@.take(n.len() as int) != n@);
            return false;
        }
        m += 1;
    }
    assert(h@.take(n.len() as int) =~= n@);
    true
}

/// `শেষে_আছে`.
pub fn ends_with(s: &str, p: &str) -> (b: bool)
    ensures
        b == (p@.len() <= s@.len() && s@.skip(s@.len() - p@.len()) == p@),
{
    let h = vec_of(s);
    let n = vec_of(p);
    if n.len() > h.len() {
        return false;
    }
    let off = h.len() - n.len();
    let mut m: usize = 0;
    while m < n.len()
        invariant
            m <= n.len() <= h.len(),
            h@ == s@,
            n@ == p@,
            off == h.len() - n.len(),
            forall|q: int| 0 <= q < m ==> h@[off + q] == n@[q],
        decreases n.len() - m,
    {
        if h[off + m] != n[m] {
            assert(h@.skip(off as int)[m as int] == h@[off + m]);
            assert(h@.skip(off as int) != n@);
            return false;
        }
        m += 1;
    }
    assert(h@.skip(off as int) =~= n@);
    true
}

// ---------------------------------------------------------------------------
// Laws
// ---------------------------------------------------------------------------

proof fn lemma_split_nonempty(s: Seq<char>, sep: Seq<char>)
    ensures
        split_pieces(s, sep).len() > 0,
    decreases s.len(),
{
    if sep.len() > 0 {
        if let Some(k) = first_match(s, sep, 0) {
            lemma_first_match_bound(s, sep, 0);
            if k + sep.len() <= s.len() {
                lemma_split_nonempty(s.skip(k + sep.len()), sep);
            }
        }
    }
}

proof fn lemma_joined_front(x: Seq<char>, rest: Seq<Seq<char>>, sep: Seq<char>)
    requires
        rest.len() > 0,
    ensures
        joined(seq![x] + rest, sep) == x + sep + joined(rest, sep),
    decreases rest.len(),
{
    let all = seq![x] + rest;
    assert(joined(all, sep) == joined(all.drop_last(), sep) + sep + all.last());
    assert(all.last() == rest.last());
    if rest.len() == 1 {
        assert(all.drop_last() =~= seq![x]);
        assert(seq![x][0] == x);
        assert(joined(seq![x], sep) == x);
        assert(joined(rest, sep) == rest[0]);
    } else {
        assert(all.drop_last() =~= seq![x] + rest.drop_last());
        lemma_joined_front(x, rest.drop_last(), sep);
        assert(joined(rest, sep) == joined(rest.drop_last(), sep) + sep + rest.last());
        assert(x + sep + joined(rest.drop_last(), sep) + sep + rest.last() =~= x + sep + (joined(
            rest.drop_last(),
            sep,
        ) + sep + rest.last()));
    }
}

/// Joining the pieces of a split with the same separator gives back the
/// text, for every text and every separator that is not empty.
pub proof fn law_join_undoes_split(s: Seq<char>, sep: Seq<char>)
    requires
        sep.len() > 0,
    ensures
        joined(split_pieces(s, sep), sep) == s,
    decreases s.len(),
{
    match first_match(s, sep, 0) {
        None => {
            assert(joined(seq![s], sep) == seq![s][0]);
        },
        Some(k) => {
            lemma_first_match_bound(s, sep, 0);
            let rest = s.skip(k + sep.len());
            law_join_undoes_split(rest, sep);
            lemma_split_nonempty(rest, sep);
            lemma_joined_front(s.take(k), split_pieces(rest, sep), sep);
            assert(s.take(k) + sep + rest =~= s) by {
                assert(s.subrange(k, k + sep.len()) == sep);
                assert forall|i: int| 0 <= i < s.len() implies (s.take(k) + sep + rest)[i] == s[i] by {
                    if k <= i < k + sep.len() {
                        assert(s.subrange(k, k + sep.len())[i - k] == s[i]);
                    }
                }
            }
        },
    }
}

/// Replacing a text by itself changes nothing.
pub proof fn law_replace_with_itself(s: Seq<char>, from: Seq<char>)
    requires
        from.len() > 0,
    ensures
        replace_all(s, from, from) == s,
    decreases s.len(),
{
    match first_match(s, from, 0) {
        None => {},
        Some(k) => {
            lemma_first_match_bound(s, from, 0);
            let rest = s.skip(k + from.len());
            law_replace_with_itself(rest, from);
            assert(s.take(k) + from + rest =~= s) by {
                assert(s.subrange(k, k + from.len()) == from);
                assert forall|i: int| 0 <= i < s.len() implies (s.take(k) + from + rest)[i] == s[i] by {
                    if k <= i < k + from.len() {
                        assert(s.subrange(k, k + from.len())[i - k] == s[i]);
                    }
                }
            }
        },
    }
}

/// Trimming twice is trimming once.
pub proof fn law_trim_idempotent(s: Seq<char>)
    ensures
        trimmed(trimmed(s)) == trimmed(s),
{
    let a = crate::json::ws_end(s, 0);
    crate::json::lemma_ws_end(s, 0);
    if a < s.len() {
        let b = trim_end_at(s, s.len() as int);
        lemma_trim_end(s, s.len() as int, a);
        lemma_trim_end_stop(s, s.len() as int);
        let t = s.subrange(a, b);
        assert(t[0] == s[a]);
        assert(!white_space(t[0]));
        assert(crate::json::ws_end(t, 0) == 0);
        assert(t[t.len() - 1] == s[b - 1]);
        assert(trim_end_at(t, t.len() as int) == t.len());
        assert(t.subrange(0, t.len() as int) =~= t);
    }
}

proof fn lemma_trim_end_stop(s: Seq<char>, k: int)
    requires
        0 <= k <= s.len(),
    ensures
        trim_end_at(s, k) <= k,
        trim_end_at(s, k) > 0 ==> !white_space(s[trim_end_at(s, k) - 1]),
    decreases k,
{
    if 0 < k && white_space(s[k - 1]) {
        lemma_trim_end_stop(s, k - 1);
    }
}

// ---------------------------------------------------------------------------
// Characters by position, numbers as text
// ---------------------------------------------------------------------------

/// The report for an index outside a text or array of `len` elements. The
/// index and the length are shown in Bengali digits, each taken modulo
/// 2^32 as the interpreter converts them.
pub open spec fn index_message(i: i64, len: int) -> Seq<char> {
    INDEX_OPEN@ + bn_digits((i as u32) as nat) + INDEX_OUT@ + bn_digits((len as u32) as nat) + seq![')']
}

/// `লেখা[i]`: the character at position `i`, or the report of an index
/// outside the text.
pub fn char_at(s: &str, i: i64) -> (r: Result<char, String>)
    ensures
        0 <= i < s@.len() ==> r == Ok::<char, String>(s@[i as int]),
        !(0 <= i < s@.len()) ==> (r matches Err(m) && m@ == index_message(i, s@.len() as int)),
{
    let cs = vec_of(s);
    if i >= 0 && (i as u64) < (cs.len() as u64) {
        return Ok(cs[i as usize]);
    }
    let mut m = INDEX_OPEN.to_owned();
    push_str(&mut m, bn_num(i as u32).as_str());
    push_str(&mut m, INDEX_OUT);
    push_str(&mut m, bn_num(cs.len() as u32).as_str());
    crate::text::push_char(&mut m, ')');
    Err(m)
}

/// `অ্যারে[i]`: the element at position `i`, or the report of an index
/// outside the array.
pub fn element_at<T>(items: &Vec<T>, i: i64) -> (r: Result<&T, String>)
    ensures
        0 <= i < items@.len() ==> (r matches Ok(x) && *x == items@[i as int]),
        !(0 <= i < items@.len()) ==> (r matches Err(m) && m@ == index_message(i, items@.len() as int)),
{
    if i >= 0 && (i as u64) < (items.len() as u64) {
        return Ok(&items[i as usize]);
    }
    let mut m = INDEX_OPEN.to_owned();
    push_str(&mut m, bn_num(i as u32).as_str());
    push_str(&mut m, INDEX_OUT);
    push_str(&mut m, bn_num(items.len() as u32).as_str());
    crate::text::push_char(&mut m, ')');
    Err(m)
}

/// An integer as Rust's `Display` writes it: decimal digits after a `-`
/// for a negative number.
pub fn int_to_text(n: i64) -> (s: String)
    ensures
        s@ == padded(n as int, 1),
{
    let mut s = String::new();
    push_padded(&mut s, n, 1);
    s
}

} // verus!
