//! The scopes of a running program: a stack of name-to-value maps, the
//! global scope at the bottom and the innermost scope on top.
use vstd::prelude::*;
use crate::diagnostics::AmystError;
use crate::interpreter::errors::{token_message, undefined_variable};
use crate::lexer::token::{SpecToken, Token};
use crate::text::str_eq;

verus! {

/// The value that `name` is bound to, looking from the innermost scope
/// outwards; `None` where no scope binds it.
pub open spec fn lookup<V>(scopes: Seq<Map<Seq<char>, V>>, name: Seq<char>) -> Option<V>
    decreases scopes.len(),
{
    if scopes.len() == 0 {
        None
    } else if scopes.last().contains_key(name) {
        Some(scopes.last()[name])
    } else {
        lookup(scopes.drop_last(), name)
    }
}

/// The scopes after `name` is given the value `v` in the innermost scope
/// that binds it; unchanged where no scope binds it.
pub open spec fn assign_in<V>(scopes: Seq<Map<Seq<char>, V>>, name: Seq<char>, v: V) -> Seq<Map<Seq<char>, V>>
    decreases scopes.len(),
{
    if scopes.len() == 0 {
        scopes
    } else if scopes.last().contains_key(name) {
        scopes.update(scopes.len() - 1, scopes.last().insert(name, v))
    } else {
        assign_in(scopes.drop_last(), name, v).push(scopes.last())
    }
}

/// The message of the error for a name that no scope binds.
pub open spec fn undefined_message(name: SpecToken) -> Seq<char> {
    token_message(name, "Undefined variable '"@ + name.lexeme + "'."@)
}

/// Whether no two entries of an association list share a name.
pub open spec fn distinct_names<'a, V>(s: Seq<(&'a str, V)>) -> bool {
    forall|i: int, j: int| 0 <= i < j < s.len() ==> s[i].0@ != s[j].0@
}

/// Whether some entry of `s` has the name `k`.
pub open spec fn has_name<'a, V>(s: Seq<(&'a str, V)>, k: Seq<char>) -> bool {
    exists|i: int| 0 <= i < s.len() && #[trigger] s[i].0@ == k
}

/// The map that an association list stands for.
pub open spec fn entries_map<'a, V>(s: Seq<(&'a str, V)>) -> Map<Seq<char>, V> {
    Map::new(
        |k: Seq<char>| has_name(s, k),
        |k: Seq<char>| s[choose|i: int| 0 <= i < s.len() && #[trigger] s[i].0@ == k].1,
    )
}

proof fn lemma_entries_map_at<'a, V>(s: Seq<(&'a str, V)>, i: int)
    requires
        distinct_names(s),
        0 <= i < s.len(),
    ensures
        entries_map(s).contains_key(s[i].0@),
        entries_map(s)[s[i].0@] == s[i].1,
{
    let k = s[i].0@;
    assert(has_name(s, k));
    let c = choose|c: int| 0 <= c < s.len() && #[trigger] s[c].0@ == k;
    assert(c == i);
}

proof fn lemma_entries_map_update<'a, V>(s: Seq<(&'a str, V)>, j: int, e: (&'a str, V))
    requires
        distinct_names(s),
        0 <= j < s.len(),
        s[j].0@ == e.0@,
    ensures
        distinct_names(s.update(j, e)),
        entries_map(s.update(j, e)) =~= entries_map(s).insert(e.0@, e.1),
{
    let t = s.update(j, e);
    assert(distinct_names(t));
    assert forall|k: Seq<char>| #[trigger] entries_map(t).contains_key(k) <==> entries_map(s).insert(e.0@, e.1).contains_key(k) by {
        if has_name(t, k) {
            let i = choose|i: int| 0 <= i < t.len() && #[trigger] t[i].0@ == k;
            assert(s[i].0@ == k);
        }
        if has_name(s, k) {
            let i = choose|i: int| 0 <= i < s.len() && #[trigger] s[i].0@ == k;
            assert(t[i].0@ == k);
        }
        if k == e.0@ {
            assert(t[j].0@ == k);
        }
    }
    assert forall|k: Seq<char>| #[trigger] entries_map(t).contains_key(k)
        implies entries_map(t)[k] == entries_map(s).insert(e.0@, e.1)[k] by {
        let i = choose|i: int| 0 <= i < t.len() && #[trigger] t[i].0@ == k;
        lemma_entries_map_at(t, i);
        if i != j {
            lemma_entries_map_at(s, i);
        }
    }
}

proof fn lemma_entries_map_push<'a, V>(s: Seq<(&'a str, V)>, e: (&'a str, V))
    requires
        distinct_names(s),
        !has_name(s, e.0@),
    ensures
        distinct_names(s.push(e)),
        entries_map(s.push(e)) =~= entries_map(s).insert(e.0@, e.1),
{
    let t = s.push(e);
    assert forall|i: int, j: int| 0 <= i < j < t.len() implies t[i].0@ != t[j].0@ by {
        if j == s.len() {
            assert(s[i].0@ == t[i].0@);
        }
    }
    assert forall|k: Seq<char>| #[trigger] entries_map(t).contains_key(k) <==> entries_map(s).insert(e.0@, e.1).contains_key(k) by {
        if has_name(t, k) {
            let i = choose|i: int| 0 <= i < t.len() && #[trigger] t[i].0@ == k;
            if i < s.len() {
                assert(s[i].0@ == k);
            }
        }
        if has_name(s, k) {
            let i = choose|i: int| 0 <= i < s.len() && #[trigger] s[i].0@ == k;
            assert(t[i].0@ == k);
        }
        if k == e.0@ {
            assert(t[s.len() as int].0@ == k);
        }
    }
    assert forall|k: Seq<char>| #[trigger] entries_map(t).contains_key(k)
        implies entries_map(t)[k] == entries_map(s).insert(e.0@, e.1)[k] by {
        let i = choose|i: int| 0 <= i < t.len() && #[trigger] t[i].0@ == k;
        lemma_entries_map_at(t, i);
        if i < s.len() {
            lemma_entries_map_at(s, i);
        }
    }
}

proof fn lemma_lookup_found<V>(scopes: Seq<Map<Seq<char>, V>>, name: Seq<char>, i: int)
    requires
        0 <= i < scopes.len(),
        scopes[i].contains_key(name),
        forall|k: int| i < k < scopes.len() ==> !(#[trigger] scopes[k]).contains_key(name),
    ensures
        lookup(scopes, name) == Some(scopes[i][name]),
    decreases scopes.len(),
{
    if i < scopes.len() - 1 {
        lemma_lookup_found(scopes.drop_last(), name, i);
    }
}

proof fn lemma_assign_found<V>(scopes: Seq<Map<Seq<char>, V>>, name: Seq<char>, v: V, i: int)
    requires
        0 <= i < scopes.len(),
        scopes[i].contains_key(name),
        forall|k: int| i < k < scopes.len() ==> !(#[trigger] scopes[k]).contains_key(name),
    ensures
        assign_in(scopes, name, v) =~= scopes.update(i, scopes[i].insert(name, v)),
    decreases scopes.len(),
{
    if i < scopes.len() - 1 {
        lemma_assign_found(scopes.drop_last(), name, v, i);
        assert(scopes.drop_last().update(i, scopes[i].insert(name, v)).push(scopes.last())
            =~= scopes.update(i, scopes[i].insert(name, v)));
    }
}

proof fn lemma_lookup_absent<V>(scopes: Seq<Map<Seq<char>, V>>, name: Seq<char>)
    requires
        forall|k: int| 0 <= k < scopes.len() ==> !(#[trigger] scopes[k]).contains_key(name),
    ensures
        lookup(scopes, name) is None,
    decreases scopes.len(),
{
    if scopes.len() > 0 {
        lemma_lookup_absent(scopes.drop_last(), name);
    }
}

proof fn lemma_assign_absent<V>(scopes: Seq<Map<Seq<char>, V>>, name: Seq<char>, v: V)
    requires
        forall|k: int| 0 <= k < scopes.len() ==> !(#[trigger] scopes[k]).contains_key(name),
    ensures
        assign_in(scopes, name, v) == scopes,
    decreases scopes.len(),
{
    if scopes.len() > 0 {
        lemma_assign_absent(scopes.drop_last(), name, v);
        assert(scopes.drop_last().push(scopes.last()) =~= scopes);
    }
}

/// Where an entry of `scope` has the name `name`, if one does.
fn position<'a, V>(scope: &Vec<(&'a str, V)>, name: &str) -> (r: Option<usize>)
    ensures
        match r {
            Some(j) => j < scope@.len() && scope@[j as int].0@ == name@,
            None => !has_name(scope@, name@),
        },
{
    let mut j: usize = 0;
    while j < scope.len()
        invariant
            0 <= j <= scope.len(),
            forall|k: int| 0 <= k < j ==> (#[trigger] scope@[k]).0@ != name@,
        decreases scope.len() - j,
    {
        if str_eq(scope[j].0, name) {
            return Some(j);
        }
        j = j + 1;
    }
    None
}

/// A stack of scopes, each binding names to values of type `V`.
pub struct ScopeStack<'a, V> {
    scopes: Vec<Vec<(&'a str, V)>>,
}

impl<'a, V> View for ScopeStack<'a, V> {
    type V = Seq<Map<Seq<char>, V>>;

    /// The scopes, outermost first.
    closed spec fn view(&self) -> Seq<Map<Seq<char>, V>> {
        self.scopes@.map_values(|s: Vec<(&'a str, V)>| entries_map(s@))
    }
}

impl<'a, V> ScopeStack<'a, V> {
    /// Well-formedness: there is always a global scope, and no scope binds
    /// a name twice.
    pub closed spec fn wf(&self) -> bool {
        &&& self.scopes@.len() >= 1
        &&& forall|i: int| 0 <= i < self.scopes@.len() ==> distinct_names(#[trigger] self.scopes@[i]@)
    }

    /// A well-formed stack always holds the global scope.
    pub proof fn lemma_wf_nonempty(&self)
        requires
            self.wf(),
        ensures
            self@.len() >= 1,
    {
    }

    /// A stack holding only an empty global scope.
    pub fn new() -> (s: Self)
        ensures
            s.wf(),
            s@ == seq![Map::<Seq<char>, V>::empty()],
    {
        let s = ScopeStack { scopes: vec![Vec::new()] };
        proof {
            assert(entries_map(s.scopes@[0]@) =~= Map::<Seq<char>, V>::empty());
            assert(s@ =~= seq![Map::<Seq<char>, V>::empty()]);
        }
        s
    }

    /// Opens a new, empty innermost scope.
    pub fn push_scope(&mut self)
        requires
            old(self).wf(),
        ensures
            final(self).wf(),
            final(self)@ == old(self)@.push(Map::empty()),
    {
        self.scopes.push(Vec::new());
        proof {
            assert(entries_map(Seq::<(&'a str, V)>::empty()) =~= Map::<Seq<char>, V>::empty());
            assert(self@ =~= old(self)@.push(Map::empty()));
        }
    }

    /// Closes the innermost scope; the global scope is never closed.
    pub fn pop_scope(&mut self)
        requires
            old(self).wf(),
        ensures
            final(self).wf(),
            final(self)@ == if old(self)@.len() > 1 { old(self)@.drop_last() } else { old(self)@ },
    {
        if self.scopes.len() > 1 {
            self.scopes.pop();
            proof {
                assert(self@ =~= old(self)@.drop_last());
            }
        }
    }

    /// Binds `name` to `val` in scope `i`, replacing any binding of it there.
    fn define_at(&mut self, i: usize, name: &'a str, val: V)
        requires
            old(self).wf(),
            i < old(self)@.len(),
        ensures
            final(self).wf(),
            final(self)@ == old(self)@.update(i as int, old(self)@[i as int].insert(name@, val)),
    {
        proof {
            assert(self@.len() == self.scopes@.len());
        }
        let ghost scope = self.scopes@[i as int]@;
        match position(&self.scopes[i], name) {
            Some(j) => {
                proof {
                    lemma_entries_map_update(scope, j as int, (name, val));
                }
                self.scopes[i].set(j, (name, val));
            },
            None => {
                proof {
                    lemma_entries_map_push(scope, (name, val));
                }
                self.scopes[i].push((name, val));
            },
        }
        proof {
            assert(self@ =~= old(self)@.update(i as int, old(self)@[i as int].insert(name@, val)));
        }
    }

    /// Binds `name` to `val` in the global scope.
    pub fn define_global(&mut self, name: &'a str, val: V)
        requires
            old(self).wf(),
        ensures
            final(self).wf(),
            final(self)@ == old(self)@.update(0, old(self)@[0].insert(name@, val)),
    {
        proof {
            assert(self@.len() == self.scopes@.len());
        }
        self.define_at(0, name, val);
    }

    /// Binds `name` to `val` in the innermost scope.
    pub fn define(&mut self, name: &'a str, val: V)
        requires
            old(self).wf(),
        ensures
            final(self).wf(),
            final(self)@ == old(self)@.update(old(self)@.len() - 1, old(self)@.last().insert(name@, val)),
    {
        proof {
            assert(self@.len() == self.scopes@.len());
        }
        let last = self.scopes.len() - 1;
        self.define_at(last, name, val);
    }

    /// Where `name` is bound: the innermost scope that binds it and the
    /// entry that does, or `None`.
    fn find(&self, name: &str) -> (r: Option<(usize, usize)>)
        requires
            self.wf(),
        ensures
            match r {
                Some((i, j)) => {
                    &&& i < self.scopes@.len()
                    &&& j < self.scopes@[i as int]@.len()
                    &&& self.scopes@[i as int]@[j as int].0@ == name@
                    &&& self@[i as int].contains_key(name@)
                    &&& forall|k: int| i < k < self@.len() ==> !(#[trigger] self@[k]).contains_key(name@)
                },
                None => forall|k: int| 0 <= k < self@.len() ==> !(#[trigger] self@[k]).contains_key(name@),
            },
    {
        let mut i: usize = self.scopes.len();
        while i > 0
            invariant
                self.wf(),
                i <= self.scopes@.len(),
                forall|k: int| i <= k < self@.len() ==> !(#[trigger] self@[k]).contains_key(name@),
            decreases i,
        {
            i = i - 1;
            match position(&self.scopes[i], name) {
                Some(j) => {
                    proof {
                        lemma_entries_map_at(self.scopes@[i as int]@, j as int);
                    }
                    return Some((i, j));
                },
                None => {},
            }
        }
        None
    }

    /// The value bound to the token's name in the innermost scope that
    /// binds it, or an error naming the token where none does.
    pub fn get(&self, name: &Token<'a>) -> (r: Result<&V, AmystError>)
        requires
            self.wf(),
        ensures
            match lookup(self@, name.lexeme@) {
                Some(v) => r == Ok::<&V, AmystError>(&v),
                None => r is Err && r->Err_0 is Runtime && r->Err_0->message@ == undefined_message(name@),
            },
    {
        match self.find(name.lexeme) {
            Some((i, j)) => {
                proof {
                    lemma_lookup_found(self@, name.lexeme@, i as int);
                    lemma_entries_map_at(self.scopes@[i as int]@, j as int);
                }
                Ok(&self.scopes[i][j].1)
            },
            None => {
                proof {
                    lemma_lookup_absent(self@, name.lexeme@);
                }
                Err(undefined_variable(name))
            },
        }
    }

    /// Gives the token's name the value `val` in the innermost scope that
    /// binds it, or returns an error naming the token, changing nothing,
    /// where none does.
    pub fn assign(&mut self, name: &Token<'a>, val: V) -> (r: Result<(), AmystError>)
        requires
            old(self).wf(),
        ensures
            final(self).wf(),
            final(self)@ == assign_in(old(self)@, name.lexeme@, val),
            lookup(old(self)@, name.lexeme@) is Some <==> r is Ok,
            r is Err ==> r->Err_0 is Runtime && r->Err_0->message@ == undefined_message(name@),
    {
        match self.find(name.lexeme) {
            Some((i, j)) => {
                proof {
                    lemma_lookup_found(self@, name.lexeme@, i as int);
                    lemma_assign_found(self@, name.lexeme@, val, i as int);
                }
                self.define_at(i, name.lexeme, val);
                Ok(())
            },
            None => {
                proof {
                    lemma_lookup_absent(self@, name.lexeme@);
                    lemma_assign_absent(self@, name.lexeme@, val);
                }
                Err(undefined_variable(name))
            },
        }
    }
}

/// A name just bound in the innermost scope reads back as the value it
/// was bound to.
pub proof fn law_get_after_define<V>(scopes: Seq<Map<Seq<char>, V>>, name: Seq<char>, v: V)
    requires
        scopes.len() >= 1,
    ensures
        lookup(scopes.update(scopes.len() - 1, scopes.last().insert(name, v)), name) == Some(v),
{
    let t = scopes.update(scopes.len() - 1, scopes.last().insert(name, v));
    assert(t.last() == scopes.last().insert(name, v));
}

/// Binding a name in the innermost scope leaves what every other name
/// reads as unchanged.
pub proof fn law_define_keeps_other_names<V>(scopes: Seq<Map<Seq<char>, V>>, name: Seq<char>, v: V, other: Seq<char>)
    requires
        scopes.len() >= 1,
        other != name,
    ensures
        lookup(scopes.update(scopes.len() - 1, scopes.last().insert(name, v)), other) == lookup(scopes, other),
{
    let t = scopes.update(scopes.len() - 1, scopes.last().insert(name, v));
    assert(t.drop_last() =~= scopes.drop_last());
}

/// Closing a scope just opened gives back the scopes as they were.
pub proof fn law_pop_after_push<V>(scopes: Seq<Map<Seq<char>, V>>)
    requires
        scopes.len() >= 1,
    ensures
        ({
            let pushed = scopes.push(Map::empty());
            (if pushed.len() > 1 { pushed.drop_last() } else { pushed }) == scopes
        }),
{
    assert(scopes.push(Map::empty()).drop_last() =~= scopes);
}

/// A binding made in an inner scope shadows outer ones while the scope is
/// open and is gone once it is closed: every name then reads as before.
pub proof fn law_inner_binding_ends_with_scope<V>(scopes: Seq<Map<Seq<char>, V>>, name: Seq<char>, v: V, any: Seq<char>)
    requires
        scopes.len() >= 1,
    ensures
        ({
            let inner = scopes.push(Map::empty());
            let defined = inner.update(inner.len() - 1, inner.last().insert(name, v));
            &&& lookup(defined, name) == Some(v)
            &&& defined.drop_last() == scopes
            &&& lookup(defined.drop_last(), any) == lookup(scopes, any)
        }),
{
    let inner = scopes.push(Map::empty());
    let defined = inner.update(inner.len() - 1, inner.last().insert(name, v));
    law_get_after_define(inner, name, v);
    assert(defined.drop_last() =~= scopes);
}

/// After an assignment to a bound name, the name reads as the value
/// assigned; an assignment to a name that nothing binds changes nothing.
pub proof fn law_get_after_assign<V>(scopes: Seq<Map<Seq<char>, V>>, name: Seq<char>, v: V)
    ensures
        lookup(scopes, name) is Some ==> lookup(assign_in(scopes, name, v), name) == Some(v),
        lookup(scopes, name) is None ==> assign_in(scopes, name, v) == scopes,
    decreases scopes.len(),
{
    if scopes.len() > 0 {
        law_get_after_assign(scopes.drop_last(), name, v);
        if !scopes.last().contains_key(name) {
            let rest = assign_in(scopes.drop_last(), name, v);
            assert(rest.push(scopes.last()).drop_last() =~= rest);
            if lookup(scopes, name) is None {
                assert(scopes.drop_last().push(scopes.last()) =~= scopes);
            }
        }
    }
}

/// An assignment keeps the number of scopes and what every other name
/// reads as.
pub proof fn law_assign_keeps_other_names<V>(scopes: Seq<Map<Seq<char>, V>>, name: Seq<char>, v: V, other: Seq<char>)
    requires
        other != name,
    ensures
        assign_in(scopes, name, v).len() == scopes.len(),
        lookup(assign_in(scopes, name, v), other) == lookup(scopes, other),
    decreases scopes.len(),
{
    if scopes.len() > 0 {
        law_assign_keeps_other_names(scopes.drop_last(), name, v, other);
        let t = assign_in(scopes, name, v);
        if scopes.last().contains_key(name) {
            assert(t.drop_last() =~= scopes.drop_last());
        } else {
            let rest = assign_in(scopes.drop_last(), name, v);
            assert(t.drop_last() =~= rest);
        }
    }
}

/// A global binding is seen from every depth where no inner scope binds
/// the same name.
pub proof fn law_global_visible<V>(scopes: Seq<Map<Seq<char>, V>>, name: Seq<char>, v: V)
    requires
        scopes.len() >= 1,
        forall|k: int| 1 <= k < scopes.len() ==> !(#[trigger] scopes[k]).contains_key(name),
    ensures
        lookup(scopes.update(0, scopes[0].insert(name, v)), name) == Some(v),
    decreases scopes.len(),
{
    let t = scopes.update(0, scopes[0].insert(name, v));
    if scopes.len() > 1 {
        law_global_visible(scopes.drop_last(), name, v);
        assert(t.drop_last() =~= scopes.drop_last().update(0, scopes[0].insert(name, v)));
        assert(!t.last().contains_key(name));
    }
}

} // verus!
