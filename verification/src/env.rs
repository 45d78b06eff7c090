//! The interpreter's variables: nested scopes, innermost last, in which a
//! name is defined once per scope, found in the innermost scope that has
//! it, and assigned where it was found unless it is a constant.
//!
//! The bindings of all scopes stand in one list, each with the depth of
//! its scope; a scope's bindings come after those of the scopes around it,
//! so the last binding of a name is the one in force.

use vstd::prelude::*;
use crate::text::{push_str, str_is};

verus! {

/// One binding, as plain values: its scope's depth, the name, the value
/// and whether it is a constant.
pub struct BindingV<V> {
    pub depth: nat,
    pub name: Seq<char>,
    pub value: V,
    pub constant: bool,
}

struct Binding<V> {
    depth: usize,
    name: String,
    value: V,
    constant: bool,
}

/// The variables of a running program.
pub struct Env<V> {
    depth: usize,
    bindings: Vec<Binding<V>>,
}

/// The environment as plain values: the number of open scopes and the
/// bindings, outermost first.
pub struct EnvV<V> {
    pub depth: nat,
    pub bindings: Seq<BindingV<V>>,
}

impl<V> View for Env<V> {
    type V = EnvV<V>;

    closed spec fn view(&self) -> EnvV<V> {
        EnvV {
            depth: self.depth as nat,
            bindings: self.bindings@.map_values(
                |b: Binding<V>| BindingV { depth: b.depth as nat, name: b.name@, value: b.value, constant: b.constant },
            ),
        }
    }
}

/// Every binding belongs to an open scope, inner scopes' bindings come
/// last, and a scope binds a name at most once.
pub open spec fn env_wf<V>(e: EnvV<V>) -> bool {
    &&& forall|k: int| 0 <= k < e.bindings.len() ==> 1 <= #[trigger] e.bindings[k].depth <= e.depth
    &&& forall|j: int, k: int| 0 <= j < k < e.bindings.len() ==> e.bindings[j].depth <= e.bindings[k].depth
    &&& forall|j: int, k: int|
        0 <= j < k < e.bindings.len() && e.bindings[j].depth == e.bindings[k].depth ==> e.bindings[j].name
            != e.bindings[k].name
}

/// The position of the binding of `name` in force: the last one.
pub open spec fn in_force<V>(bs: Seq<BindingV<V>>, name: Seq<char>) -> Option<int>
    decreases bs.len(),
{
    if bs.len() == 0 {
        None
    } else if bs.last().name == name {
        Some(bs.len() - 1)
    } else {
        in_force(bs.drop_last(), name)
    }
}

/// The value of `name`, if some open scope binds it.
pub open spec fn lookup_spec<V>(e: EnvV<V>, name: Seq<char>) -> Option<V> {
    match in_force(e.bindings, name) {
        Some(k) => Some(e.bindings[k].value),
        None => None,
    }
}

/// Whether the innermost scope binds `name`.
pub open spec fn bound_here<V>(e: EnvV<V>, name: Seq<char>) -> bool {
    exists|k: int| 0 <= k < e.bindings.len() && e.bindings[k].depth == e.depth && #[trigger] e.bindings[k].name == name
}

pub open spec fn define_spec<V>(e: EnvV<V>, name: Seq<char>, value: V, constant: bool) -> EnvV<V> {
    EnvV { bindings: e.bindings.push(BindingV { depth: e.depth, name, value, constant }), ..e }
}

pub open spec fn assign_spec<V>(e: EnvV<V>, k: int, value: V) -> EnvV<V> {
    EnvV { bindings: e.bindings.update(k, BindingV { value, ..e.bindings[k] }), ..e }
}

/// Whether a binding belongs to a scope outside depth `d`.
pub open spec fn outside<V>(d: nat) -> spec_fn(BindingV<V>) -> bool {
    |b: BindingV<V>| b.depth < d
}

/// The environment without its innermost scope.
pub open spec fn pop_spec<V>(e: EnvV<V>) -> EnvV<V> {
    if e.depth == 0 {
        e
    } else {
        EnvV { depth: (e.depth - 1) as nat, bindings: e.bindings.filter(outside(e.depth)) }
    }
}

/// Why a definition or an assignment was refused.
#[derive(Debug, Clone, PartialEq, Eq)]
pub enum EnvError {
    /// The innermost scope already binds the name.
    AlreadyDefined(String),
    /// The name in force is a constant.
    Constant(String),
    /// No open scope binds the name.
    Undeclared(String),
}

impl EnvError {
    /// The message shown to the programmer.
    pub fn message(&self) -> (s: String)
        ensures
            s@ == (match self {
                EnvError::AlreadyDefined(n) => "'"@ + n@ + "' এই স্কোপে আগেই ঘোষিত"@,
                EnvError::Constant(n) => "ধ্রুবক '"@ + n@ + "'-এ মান নির্ধারণ করা যাবে না"@,
                EnvError::Undeclared(n) => "অঘোষিত ভ্যারিয়েবল '"@ + n@ + "'"@,
            }),
    {
        let mut s = String::new();
        match self {
            EnvError::AlreadyDefined(n) => {
                push_str(&mut s, "'");
                push_str(&mut s, n.as_str());
                push_str(&mut s, "' এই স্কোপে আগেই ঘোষিত");
            },
            EnvError::Constant(n) => {
                push_str(&mut s, "ধ্রুবক '");
                push_str(&mut s, n.as_str());
                push_str(&mut s, "'-এ মান নির্ধারণ করা যাবে না");
            },
            EnvError::Undeclared(n) => {
                push_str(&mut s, "অঘোষিত ভ্যারিয়েবল '");
                push_str(&mut s, n.as_str());
                push_str(&mut s, "'");
            },
        }
        s
    }
}

proof fn lemma_in_force<V>(bs: Seq<BindingV<V>>, name: Seq<char>)
    ensures
        match in_force(bs, name) {
            Some(k) => 0 <= k < bs.len() && bs[k].name == name && forall|j: int| k < j < bs.len() ==> bs[j].name
                != name,
            None => forall|j: int| 0 <= j < bs.len() ==> bs[j].name != name,
        },
    decreases bs.len(),
{
    if bs.len() > 0 && bs.last().name != name {
        let d = bs.drop_last();
        lemma_in_force(d, name);
        assert forall|j: int| 0 <= j < d.len() implies d[j] == bs[j] by {}
    }
}

/// Keeping the bindings of scopes outside depth `d` keeps a prefix, when
/// the prefix is exactly those bindings.
proof fn lemma_filter_prefix<V>(bs: Seq<BindingV<V>>, d: nat, n: int)
    requires
        0 <= n <= bs.len(),
        forall|k: int| 0 <= k < n ==> #[trigger] bs[k].depth < d,
        forall|k: int| n <= k < bs.len() ==> #[trigger] bs[k].depth >= d,
    ensures
        bs.filter(outside(d)) == bs.take(n),
    decreases bs.len(),
{
    if bs.len() == 0 {
        assert(bs.take(n) =~= bs);
    } else {
        let dl = bs.drop_last();
        assert forall|k: int| 0 <= k < dl.len() implies dl[k] == bs[k] by {}
        let p = outside::<V>(d);
        reveal(Seq::filter);
        assert(bs.filter(p) == (if p(bs.last()) { dl.filter(p).push(bs.last()) } else { dl.filter(p) }));
        if bs.len() > n {
            lemma_filter_prefix(dl, d, n);
            assert(bs[bs.len() - 1].depth >= d);
            assert(!p(bs.last()));
            assert(dl.take(n) =~= bs.take(n));
        } else {
            lemma_filter_prefix(dl, d, n - 1);
            assert(bs[n - 1].depth < d);
            assert(p(bs.last()));
            assert(dl.take(n - 1) =~= dl);
            assert(bs.take(n) =~= bs);
            assert(dl.push(bs.last()) =~= bs);
        }
    }
}

/// The environment with one more scope opened inside it.
pub open spec fn push_spec<V>(e: EnvV<V>) -> EnvV<V> {
    EnvV { depth: e.depth + 1, ..e }
}

/// Which binding is in force depends on the names alone.
proof fn lemma_in_force_names<V>(a: Seq<BindingV<V>>, b: Seq<BindingV<V>>, name: Seq<char>)
    requires
        a.len() == b.len(),
        forall|k: int| 0 <= k < a.len() ==> #[trigger] a[k].name == b[k].name,
    ensures
        in_force(a, name) == in_force(b, name),
    decreases a.len(),
{
    if a.len() > 0 {
        let (da, db) = (a.drop_last(), b.drop_last());
        assert forall|k: int| 0 <= k < da.len() implies #[trigger] da[k].name == db[k].name by {
            assert(a[k].name == b[k].name);
        }
        lemma_in_force_names(da, db, name);
    }
}

/// After a definition the name is found with the value it was given, and
/// every other name is found as before.
pub proof fn law_lookup_after_define<V>(e: EnvV<V>, name: Seq<char>, value: V, constant: bool, other: Seq<char>)
    requires
        other != name,
    ensures
        lookup_spec(define_spec(e, name, value, constant), name) == Some(value),
        lookup_spec(define_spec(e, name, value, constant), other) == lookup_spec(e, other),
{
    let bs = define_spec(e, name, value, constant).bindings;
    assert(bs.drop_last() =~= e.bindings);
    lemma_in_force(e.bindings, other);
}

/// After an assignment to a variable the name is found with the new value.
pub proof fn law_lookup_after_assign<V>(e: EnvV<V>, name: Seq<char>, value: V)
    requires
        in_force(e.bindings, name) is Some,
        !e.bindings[in_force(e.bindings, name)->0].constant,
    ensures
        lookup_spec(assign_spec(e, in_force(e.bindings, name)->0, value), name) == Some(value),
{
    lemma_in_force(e.bindings, name);
    let k = in_force(e.bindings, name)->0;
    let after = assign_spec(e, k, value).bindings;
    assert forall|j: int| 0 <= j < after.len() implies #[trigger] after[j].name == e.bindings[j].name by {}
    lemma_in_force_names(after, e.bindings, name);
}

/// A definition made in an inner scope is gone once that scope is closed:
/// opening a scope, defining a name and closing the scope again gives back
/// the environment as it was, whatever the inner definition shadowed.
pub proof fn law_scope_undoes_define<V>(e: EnvV<V>, name: Seq<char>, value: V, constant: bool)
    requires
        env_wf(e),
    ensures
        pop_spec(define_spec(push_spec(e), name, value, constant)) == e,
{
    let inner = define_spec(push_spec(e), name, value, constant);
    let n = e.bindings.len() as int;
    assert forall|k: int| 0 <= k < n implies #[trigger] inner.bindings[k].depth < inner.depth by {
        assert(inner.bindings[k] == e.bindings[k]);
    }
    lemma_filter_prefix(inner.bindings, inner.depth, n);
    assert(inner.bindings.take(n) =~= e.bindings);
}

impl<V> Env<V> {
    pub closed spec fn wf(&self) -> bool {
        env_wf(self@)
    }

    /// The environment a program starts with: one empty scope.
    pub fn new() -> (e: Env<V>)
        ensures
            e.wf(),
            e@.depth == 1,
            e@.bindings.len() == 0,
    {
        let e = Env { depth: 1, bindings: Vec::new() };
        assert(e@.bindings =~= Seq::<BindingV<V>>::empty());
        e
    }

    /// Opens a scope inside the current one.
    pub fn push_scope(&mut self)
        requires
            old(self).wf(),
            old(self)@.depth < usize::MAX,
        ensures
            final(self).wf(),
            final(self)@ == (EnvV { depth: old(self)@.depth + 1, ..old(self)@ }),
    {
        let ghost e = self@;
        self.depth = self.depth + 1;
        assert(self@.bindings =~= e.bindings);
    }

    /// Closes the innermost scope, dropping its bindings.
    pub fn pop_scope(&mut self)
        requires
            old(self).wf(),
        ensures
            final(self).wf(),
            final(self)@ == pop_spec(old(self)@),
    {
        if self.depth == 0 {
            return;
        }
        let ghost e = self@;
        while self.bindings.len() > 0 && self.bindings[self.bindings.len() - 1].depth == self.depth
            invariant
                self.depth == e.depth,
                self.depth > 0,
                env_wf(e),
                self.bindings.len() <= e.bindings.len(),
                self@.bindings == e.bindings.take(self.bindings.len() as int),
                forall|k: int| self.bindings.len() <= k < e.bindings.len() ==> #[trigger] e.bindings[k].depth == e.depth,
            decreases self.bindings.len(),
        {
            let ghost before = self@.bindings;
            let ghost m = self.bindings.len() as int;
            assert(before[m - 1].depth == self.bindings@[m - 1].depth);
            self.bindings.pop();
            assert(self@.bindings =~= before.drop_last());
            assert(self@.bindings =~= e.bindings.take(self.bindings.len() as int));
            assert(e.bindings[m - 1] == before[m - 1]);
        }
        let ghost n = self.bindings.len() as int;
        proof {
            if n > 0 {
                assert(self@.bindings[n - 1].depth == self.bindings@[n - 1].depth);
                assert(e.bindings[n - 1] == self@.bindings[n - 1]);
                assert(e.bindings[n - 1].depth != e.depth);
            }
            assert forall|k: int| 0 <= k < n implies #[trigger] e.bindings[k].depth < e.depth by {
                assert(e.bindings[k].depth <= e.bindings[n - 1].depth);
            }
            lemma_filter_prefix(e.bindings, e.depth, n);
        }
        let ghost kept = self@.bindings;
        self.depth = self.depth - 1;
        assert(self@.bindings =~= kept);
    }

    /// `ধরি`/`ধ্রুবক`: binds `name` in the innermost scope, unless that
    /// scope binds it already.
    pub fn define(&mut self, name: &str, value: V, constant: bool) -> (r: Result<(), EnvError>)
        requires
            old(self).wf(),
            old(self)@.depth >= 1,
        ensures
            final(self).wf(),
            bound_here(old(self)@, name@) ==> (r matches Err(EnvError::AlreadyDefined(n)) && n@ == name@)
                && final(self)@ == old(self)@,
            !bound_here(old(self)@, name@) ==> r is Ok && final(self)@ == define_spec(old(self)@, name@, value, constant),
    {
        let mut k = self.bindings.len();
        while k > 0 && self.bindings[k - 1].depth == self.depth
            invariant
                k <= self.bindings.len(),
                env_wf(self@),
                forall|j: int| k <= j < self.bindings.len() ==> #[trigger] self@.bindings[j].depth == self@.depth
                    && self@.bindings[j].name != name@,
            decreases k,
        {
            if str_is(self.bindings[k - 1].name.as_str(), name) {
                assert(self@.bindings[k - 1].depth == self@.depth);
                assert(self@.bindings[k - 1].name == name@);
                assert(bound_here(self@, name@));
                return Err(EnvError::AlreadyDefined(name.to_owned()));
            }
            k -= 1;
        }
        proof {
            if bound_here(self@, name@) {
                let j = choose|j: int|
                    0 <= j < self@.bindings.len() && self@.bindings[j].depth == self@.depth
                        && #[trigger] self@.bindings[j].name == name@;
                if j < k {
                    assert(self@.bindings[k - 1].depth != self@.depth);
                    assert(self@.bindings[j].depth <= self@.bindings[k - 1].depth);
                }
            }
        }
        let ghost before = self@;
        self.bindings.push(Binding { depth: self.depth, name: name.to_owned(), value, constant });
        assert(self@.bindings =~= before.bindings.push(
            BindingV { depth: before.depth, name: name@, value, constant },
        ));
        Ok(())
    }

    /// The value in force for `name`, if any.
    pub fn lookup(&self, name: &str) -> (r: Option<&V>)
        ensures
            match lookup_spec(self@, name@) {
                Some(v) => r == Some(&v),
                None => r is None,
            },
    {
        let mut k = self.bindings.len();
        assert(self@.bindings.take(k as int) =~= self@.bindings);
        while k > 0
            invariant
                k <= self.bindings.len(),
                in_force(self@.bindings.take(k as int), name@) == in_force(self@.bindings, name@),
            decreases k,
        {
            proof {
                assert(self@.bindings.take(k as int).drop_last() =~= self@.bindings.take(k - 1));
                assert(self@.bindings.take(k as int).last() == self@.bindings[k - 1]);
            }
            if str_is(self.bindings[k - 1].name.as_str(), name) {
                return Some(&self.bindings[k - 1].value);
            }
            k -= 1;
        }
        assert(self@.bindings.take(0) =~= Seq::<BindingV<V>>::empty());
        None
    }

    /// Assigns `value` to the binding of `name` in force, unless it is a
    /// constant or there is none.
    pub fn assign(&mut self, name: &str, value: V) -> (r: Result<(), EnvError>)
        requires
            old(self).wf(),
        ensures
            final(self).wf(),
            match in_force(old(self)@.bindings, name@) {
                None => (r matches Err(EnvError::Undeclared(n)) && n@ == name@) && final(self)@ == old(self)@,
                Some(k) => if old(self)@.bindings[k].constant {
                    (r matches Err(EnvError::Constant(n)) && n@ == name@) && final(self)@ == old(self)@
                } else {
                    r is Ok && final(self)@ == assign_spec(old(self)@, k, value)
                },
            },
    {
        let mut k = self.bindings.len();
        assert(self@.bindings.take(k as int) =~= self@.bindings);
        while k > 0
            invariant
                k <= self.bindings.len(),
                self@ == old(self)@,
                env_wf(self@),
                in_force(self@.bindings.take(k as int), name@) == in_force(self@.bindings, name@),
            decreases k,
        {
            proof {
                assert(self@.bindings.take(k as int).drop_last() =~= self@.bindings.take(k - 1));
                assert(self@.bindings.take(k as int).last() == self@.bindings[k - 1]);
            }
            if str_is(self.bindings[k - 1].name.as_str(), name) {
                if self.bindings[k - 1].constant {
                    return Err(EnvError::Constant(name.to_owned()));
                }
                let ghost before = self@;
                let old_b = self.bindings.remove(k - 1);
                let b = Binding { depth: old_b.depth, name: old_b.name, value, constant: old_b.constant };
                self.bindings.insert(k - 1, b);
                assert(self@.bindings =~= before.bindings.update(
                    k - 1,
                    BindingV { value, ..before.bindings[k - 1] },
                ));
                return Ok(());
            }
            k -= 1;
        }
        assert(self@.bindings.take(0) =~= Seq::<BindingV<V>>::empty());
        Err(EnvError::Undeclared(name.to_owned()))
    }
}

} // verus!
