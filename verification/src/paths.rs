//! The standard library's `পাথ` module: joining paths and taking a path's
//! file name, directory and extension. The work is the platform's own
//! path handling; what is stated of it covers the paths that every
//! platform reads alike (see [`plain_path`]).

use vstd::prelude::*;
use crate::cli::{plain_path, names_an_entry, final_component, part_of, path_file_name};

verus! {

/// The index of the last `.` in `n`, or -1 when there is none.
pub open spec fn last_dot(n: Seq<char>) -> int
    decreases n.len(),
{
    if n.len() == 0 {
        -1
    } else if n.last() == '.' {
        n.len() - 1
    } else {
        last_dot(n.drop_last())
    }
}

/// The extension of a file name: what follows its last `.`, unless that
/// `.` is its first character or there is none.
pub open spec fn extension_of(n: Seq<char>) -> Option<Seq<char>> {
    if last_dot(n) > 0 {
        Some(n.subrange(last_dot(n) + 1, n.len() as int))
    } else {
        None
    }
}

/// The extension of the last component of a plain path, if it has one.
pub open spec fn path_extension_of(p: Seq<char>) -> Option<Seq<char>> {
    if names_an_entry(p) {
        extension_of(final_component(p))
    } else {
        None
    }
}

/// What `Path::parent` gives for a plain path, as text.
pub uninterp spec fn parent_of(p: Seq<char>) -> Option<Seq<char>>;

/// `Path::extension`, as text: of a plain path, the extension of its last
/// component when that names an entry. Other paths are left unsaid.
#[verifier::external_body]
fn path_extension(p: &str) -> (r: Option<String>)
    ensures
        plain_path(p@) ==> (match r {
            Some(e) => path_extension_of(p@) == Some(e@),
            None => path_extension_of(p@) is None,
        }),
{
    std::path::Path::new(p).extension().map(|e| e.to_string_lossy().into_owned())
}

/// `Path::parent`, as text: the path without its final component, which
/// is a beginning of the path's own text. For a plain path it is named
/// [`parent_of`]; other paths are left unsaid.
#[verifier::external_body]
fn path_parent(p: &str) -> (r: Option<String>)
    ensures
        r matches Some(s) ==> s@.len() <= p@.len() && p@.take(s@.len() as int) == s@,
        plain_path(p@) ==> (match r {
            Some(s) => parent_of(p@) == Some(s@),
            None => parent_of(p@) is None,
        }),
{
    std::path::Path::new(p).parent().map(|s| s.to_string_lossy().into_owned())
}

/// `Path::join`, as text. For plain paths: a `b` that starts with `/`
/// replaces `a`; otherwise `b` follows `a`, after a separator when `a` is
/// not empty and does not end in `/`. The separator is the platform's own,
/// `/` or `\`. Other paths are left unsaid.
#[verifier::external_body]
fn path_join(a: &str, b: &str) -> (r: String)
    ensures
        plain_path(a@) && plain_path(b@) ==> joined_paths(a@, b@, r@),
{
    std::path::Path::new(a).join(b).to_string_lossy().into_owned()
}

/// Whether `r` is `a` joined with `b`, as [`path_join`] states it.
pub open spec fn joined_paths(a: Seq<char>, b: Seq<char>, r: Seq<char>) -> bool {
    if b.len() > 0 && b[0] == '/' {
        r == b
    } else if a.len() == 0 || a.last() == '/' {
        r == a + b
    } else {
        &&& r.len() == a.len() + 1 + b.len()
        &&& r[a.len() as int] == '/' || r[a.len() as int] == '\\'
        &&& r == a + seq![r[a.len() as int]] + b
    }
}

/// `পাথ.জোড়ো`: `b` joined onto `a`.
pub fn join(a: &str, b: &str) -> (r: String)
    ensures
        plain_path(a@) && plain_path(b@) ==> joined_paths(a@, b@, r@),
{
    path_join(a, b)
}

/// `পাথ.ফাইলনাম`: the last component of `p`, or nothing when it has none.
pub fn file_name(p: &str) -> (r: String)
    ensures
        plain_path(p@) ==> r@ == (if names_an_entry(p@) { final_component(p@) } else { seq![] }),
        r@.len() == 0 || part_of(r@, p@),
{
    match path_file_name(p) {
        Some(n) => n,
        None => String::new(),
    }
}

/// `পাথ.ডিরেক্টরিনাম`: `p` without its last component, or nothing when
/// there is no such path.
pub fn dir_name(p: &str) -> (r: String)
    ensures
        plain_path(p@) ==> r@ == (match parent_of(p@) {
            Some(s) => s,
            None => seq![],
        }),
        r@.len() <= p@.len() && p@.take(r@.len() as int) == r@,
{
    match path_parent(p) {
        Some(s) => s,
        None => {
            let r = String::new();
            assert(p@.take(0) =~= r@);
            r
        },
    }
}

/// `পাথ.এক্সটেনশন`: the extension of the last component of `p`, or
/// nothing when it has none.
pub fn extension(p: &str) -> (r: String)
    ensures
        plain_path(p@) ==> r@ == (match path_extension_of(p@) {
            Some(e) => e,
            None => seq![],
        }),
{
    match path_extension(p) {
        Some(e) => e,
        None => String::new(),
    }
}

} // verus!
