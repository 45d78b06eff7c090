//! `সাজাও`: sorting an array of integers or of texts into ascending order.
//! Texts are ordered as Rust orders `String`s: by their UTF-8 bytes, which
//! is the order of their characters' code points, a shorter text before a
//! longer one it begins.

use vstd::prelude::*;
use crate::text::chars_of;

verus! {

broadcast use vstd::seq_lib::group_to_multiset_ensures;

pub open spec fn sorted_ints(s: Seq<i64>) -> bool {
    forall|i: int, j: int| 0 <= i <= j < s.len() ==> s[i] <= s[j]
}

/// The position at which `x` goes into the sorted `out`: after every
/// element not above it.
fn insertion_point(out: &Vec<i64>, x: i64) -> (k: usize)
    requires
        sorted_ints(out@),
    ensures
        k <= out.len(),
        forall|i: int| 0 <= i < k ==> out@[i] <= x,
        forall|i: int| k <= i < out.len() ==> out@[i] > x,
{
    let mut k: usize = 0;
    while k < out.len() && out[k] <= x
        invariant
            k <= out.len(),
            sorted_ints(out@),
            forall|i: int| 0 <= i < k ==> out@[i] <= x,
        decreases out.len() - k,
    {
        k += 1;
    }
    k
}

/// The integers of `v` in ascending order.
pub fn sort_ints(v: &Vec<i64>) -> (r: Vec<i64>)
    ensures
        sorted_ints(r@),
        r@.to_multiset() == v@.to_multiset(),
{
    let mut out: Vec<i64> = Vec::new();
    let mut i: usize = 0;
    while i < v.len()
        invariant
            i <= v.len(),
            sorted_ints(out@),
            out@.to_multiset() == v@.take(i as int).to_multiset(),
        decreases v.len() - i,
    {
        let x = v[i];
        let k = insertion_point(&out, x);
        let ghost before = out@;
        out.insert(k, x);
        proof {
            assert(out@ == before.insert(k as int, x));
            assert(v@.take(i as int + 1) =~= v@.take(i as int).push(x));
            assert forall|a: int, b: int| 0 <= a <= b < out@.len() implies out@[a] <= out@[b] by {
                if b < k {
                } else if b == k {
                    if a < k {
                        assert(before[a] <= x);
                    }
                } else if a < k {
                    assert(before[a] <= x);
                    assert(before[b - 1] > x);
                } else if a == k {
                    assert(before[b - 1] > x);
                } else {
                    assert(before[a - 1] <= before[b - 1]);
                }
            }
        }
        i += 1;
    }
    assert(v@.take(v.len() as int) =~= v@);
    out
}

/// Whether `a` comes no later than `b`: at their first difference `a` has
/// the smaller character, or `a` is a beginning of `b`.
pub open spec fn text_le(a: Seq<char>, b: Seq<char>) -> bool
    decreases a.len(),
{
    if a.len() == 0 {
        true
    } else if b.len() == 0 {
        false
    } else if a[0] != b[0] {
        (a[0] as u32) < (b[0] as u32)
    } else {
        text_le(a.skip(1), b.skip(1))
    }
}

pub proof fn lemma_text_le_total(a: Seq<char>, b: Seq<char>)
    ensures
        text_le(a, b) || text_le(b, a),
    decreases a.len(),
{
    if a.len() > 0 && b.len() > 0 {
        if a[0] == b[0] {
            lemma_text_le_total(a.skip(1), b.skip(1));
        } else {
            vstd::utf8::char_u32_cast(a[0], a[0] as u32);
            vstd::utf8::char_u32_cast(b[0], b[0] as u32);
        }
    }
}

pub proof fn lemma_text_le_trans(a: Seq<char>, b: Seq<char>, c: Seq<char>)
    requires
        text_le(a, b),
        text_le(b, c),
    ensures
        text_le(a, c),
    decreases a.len(),
{
    if a.len() > 0 && b.len() > 0 && c.len() > 0 {
        if a[0] == b[0] && b[0] == c[0] {
            lemma_text_le_trans(a.skip(1), b.skip(1), c.skip(1));
        }
    }
}

pub proof fn lemma_text_le_antisym(a: Seq<char>, b: Seq<char>)
    requires
        text_le(a, b),
        text_le(b, a),
    ensures
        a == b,
    decreases a.len(),
{
    if a.len() > 0 && b.len() > 0 {
        lemma_text_le_antisym(a.skip(1), b.skip(1));
        assert(a =~= seq![a[0]] + a.skip(1));
        assert(b =~= seq![b[0]] + b.skip(1));
    } else {
        assert(a =~= b);
    }
}

/// Compares two texts by their characters.
pub fn text_le_exec(a: &str, b: &str) -> (r: bool)
    ensures
        r == text_le(a@, b@),
{
    let x = chars_of(a);
    let y = chars_of(b);
    let mut i: usize = 0;
    assert(x@.skip(0) =~= x@);
    assert(y@.skip(0) =~= y@);
    while i < x.len() && i < y.len() && x[i] == y[i]
        invariant
            i <= x.len(),
            i <= y.len(),
            text_le(x@.skip(i as int), y@.skip(i as int)) == text_le(x@, y@),
        decreases x.len() - i,
    {
        proof {
            assert(x@.skip(i as int).skip(1) =~= x@.skip(i as int + 1));
            assert(y@.skip(i as int).skip(1) =~= y@.skip(i as int + 1));
        }
        i += 1;
    }
    if i == x.len() {
        true
    } else if i == y.len() {
        false
    } else {
        (x[i] as u32) < (y[i] as u32)
    }
}

pub open spec fn sorted_texts(s: Seq<Seq<char>>) -> bool {
    forall|i: int, j: int| 0 <= i <= j < s.len() ==> text_le(s[i], s[j])
}

pub open spec fn texts(v: Seq<String>) -> Seq<Seq<char>> {
    v.map_values(|s: String| s@)
}

/// The texts of `v` in ascending order.
pub fn sort_texts(v: &Vec<String>) -> (r: Vec<String>)
    ensures
        sorted_texts(texts(r@)),
        texts(r@).to_multiset() == texts(v@).to_multiset(),
{
    let mut out: Vec<String> = Vec::new();
    let mut i: usize = 0;
    assert(texts(out@) =~= seq![]);
    while i < v.len()
        invariant
            i <= v.len(),
            sorted_texts(texts(out@)),
            texts(out@).to_multiset() == texts(v@).take(i as int).to_multiset(),
        decreases v.len() - i,
    {
        let x = &v[i];
        let mut k: usize = 0;
        while k < out.len() && text_le_exec(out[k].as_str(), x.as_str())
            invariant
                k <= out.len(),
                forall|j: int| 0 <= j < k ==> text_le(#[trigger] texts(out@)[j], x@),
            decreases out.len() - k,
        {
            k += 1;
        }
        let ghost before = texts(out@);
        proof {
            if k < out.len() {
                assert(!text_le(before[k as int], x@));
                lemma_text_le_total(before[k as int], x@);
            }
        }
        out.insert(k, x.clone());
        proof {
            assert(texts(out@) =~= before.insert(k as int, x@));
            assert(texts(v@).take(i as int + 1) =~= texts(v@).take(i as int).push(x@));
            let now = texts(out@);
            assert forall|a: int, b: int| 0 <= a <= b < now.len() implies text_le(now[a], now[b]) by {
                if a == b {
                    lemma_text_le_total(now[a], now[a]);
                } else if b < k {
                } else if b == k {
                    assert(text_le(before[a], x@));
                } else if a < k {
                    assert(text_le(before[a], x@));
                    assert(text_le(before[k as int], before[b - 1]));
                    assert(text_le(x@, before[k as int]));
                    lemma_text_le_trans(x@, before[k as int], before[b - 1]);
                    lemma_text_le_trans(before[a], x@, before[b - 1]);
                } else if a == k {
                    assert(text_le(before[k as int], before[b - 1]));
                    lemma_text_le_trans(x@, before[k as int], before[b - 1]);
                } else {
                    assert(text_le(before[a - 1], before[b - 1]));
                }
            }
        }
        i += 1;
    }
    assert(texts(v@).take(v.len() as int) =~= texts(v@));
    out
}

/// There is one ascending arrangement of a collection of integers: two
/// ascending sequences with the same elements are equal. So what
/// [`sort_ints`] returns depends on the elements alone, and sorting a sorted
/// array leaves it as it is.
pub proof fn law_sorted_ints_unique(x: Seq<i64>, y: Seq<i64>)
    requires
        sorted_ints(x),
        sorted_ints(y),
        x.to_multiset() == y.to_multiset(),
    ensures
        x == y,
{
    let leq = |a: i64, b: i64| a <= b;
    assert(vstd::relations::total_ordering(leq));
    assert(vstd::relations::sorted_by(x, leq));
    assert(vstd::relations::sorted_by(y, leq));
    vstd::seq_lib::lemma_sorted_unique(x, y, leq);
}

/// The same for texts: two sequences of texts in ascending order with the
/// same elements are equal.
pub proof fn law_sorted_texts_unique(x: Seq<Seq<char>>, y: Seq<Seq<char>>)
    requires
        sorted_texts(x),
        sorted_texts(y),
        x.to_multiset() == y.to_multiset(),
    ensures
        x == y,
{
    let leq = |a: Seq<char>, b: Seq<char>| text_le(a, b);
    assert forall|a: Seq<char>| #[trigger] leq(a, a) by {
        lemma_text_le_total(a, a);
    }
    assert forall|a: Seq<char>, b: Seq<char>| #[trigger] leq(a, b) && #[trigger] leq(b, a) implies a == b by {
        lemma_text_le_antisym(a, b);
    }
    assert forall|a: Seq<char>, b: Seq<char>, c: Seq<char>| #[trigger] leq(a, b) && #[trigger] leq(b, c) implies leq(
        a,
        c,
    ) by {
        lemma_text_le_trans(a, b, c);
    }
    assert forall|a: Seq<char>, b: Seq<char>| #[trigger] leq(a, b) || #[trigger] leq(b, a) by {
        lemma_text_le_total(a, b);
    }
    assert(vstd::relations::total_ordering(leq));
    assert(vstd::relations::sorted_by(x, leq));
    assert(vstd::relations::sorted_by(y, leq));
    vstd::seq_lib::lemma_sorted_unique(x, y, leq);
}

} // verus!
