//! The evaluation environment: lexical scopes of variable bindings.
//!
//! An `Env` is a local value threaded by `&mut` through evaluation; there is
//! no global mutable state. Bindings live in one list, innermost scope last;
//! each scope starts at a recorded mark. Lookup takes the latest binding of a
//! name, so an inner scope shadows an outer one.

use vstd::prelude::*;
use crate::text::{cat, owned, string_is};
use crate::value::{copy_value, lemma_same_value_view, same_value, vview, Val, Value};

verus! {

/// A single variable binding: its name, value and whether it may be rebound.
pub struct EnvBinding {
    pub name: String,
    pub value: Value,
    pub mutable: bool,
}

/// A stack of lexical scopes.
pub struct Env {
    bindings: Vec<EnvBinding>,
    marks: Vec<usize>,
}

/// The value of the latest binding of `name`, if any.
pub open spec fn lookup_in(bs: Seq<EnvBinding>, name: Seq<char>) -> Option<Value>
    decreases bs.len(),
{
    if bs.len() == 0 {
        None
    } else if bs.last().name@ == name {
        Some(bs.last().value)
    } else {
        lookup_in(bs.drop_last(), name)
    }
}

/// The position of the latest binding of `name` at or after `start`.
pub open spec fn find_from(bs: Seq<EnvBinding>, start: int, name: Seq<char>) -> Option<int>
    decreases bs.len(),
{
    if bs.len() <= start || bs.len() == 0 {
        None
    } else if bs.last().name@ == name {
        Some(bs.len() - 1)
    } else {
        find_from(bs.drop_last(), start, name)
    }
}

impl Env {
    /// The bindings in scope, outermost first.
    pub closed spec fn bindings(&self) -> Seq<EnvBinding> {
        self.bindings@
    }

    /// Where each open scope starts in the binding list, outermost first.
    pub closed spec fn marks(&self) -> Seq<usize> {
        self.marks@
    }

    /// The scopes are well nested: the global scope starts at 0 and every
    /// scope starts at or after its enclosing one, within the bindings.
    pub open spec fn wf(&self) -> bool {
        &&& self.marks().len() >= 1
        &&& self.marks()[0] == 0
        &&& forall|i: int, j: int|
            0 <= i <= j < self.marks().len() ==> self.marks()[i] <= self.marks()[j]
        &&& forall|i: int| 0 <= i < self.marks().len() ==> self.marks()[i] <= self.bindings().len()
    }

    /// Where the innermost scope starts.
    pub open spec fn scope_start(&self) -> int {
        self.marks().last() as int
    }

    /// The value `name` resolves to.
    pub open spec fn lookup_spec(&self, name: Seq<char>) -> Option<Value> {
        lookup_in(self.bindings(), name)
    }

    /// The bindings in scope as plain data, outermost first.
    pub open spec fn binds(&self) -> Seq<Bind> {
        binds_view(self.bindings())
    }

    /// A fresh environment with a single (global) scope.
    pub fn new() -> (e: Env)
        ensures
            e.wf(),
            e.bindings().len() == 0,
            e.marks().len() == 1,
    {
        let mut marks: Vec<usize> = Vec::new();
        marks.push(0);
        Env { bindings: Vec::new(), marks }
    }

    /// Enter a new innermost scope.
    pub fn push_scope(&mut self)
        requires
            old(self).wf(),
        ensures
            final(self).wf(),
            final(self).bindings() == old(self).bindings(),
            final(self).marks() == old(self).marks().push(old(self).bindings().len() as usize),
            final(self).scope_start() == old(self).bindings().len(),
    {
        let n = self.bindings.len();
        self.marks.push(n);
    }

    /// Leave the innermost scope, discarding its bindings. The global scope is
    /// never left.
    pub fn pop_scope(&mut self)
        requires
            old(self).wf(),
            old(self).marks().len() > 1,
        ensures
            final(self).wf(),
            final(self).bindings() == old(self).bindings().subrange(0, old(self).scope_start()),
            final(self).marks() == old(self).marks().drop_last(),
    {
        let m = self.marks.pop().unwrap();
        self.bindings.truncate(m);
    }

    /// Resolve a name through lexical scope, innermost first.
    pub fn lookup(&self, name: &str) -> (r: Option<Value>)
        ensures
            match (r, self.lookup_spec(name@)) {
                (Some(v), Some(w)) => same_value(v, w),
                (None, None) => true,
                _ => false,
            },
            match r {
                Some(v) => lookup_v(self.binds(), name@) == Some(vview(v)),
                None => lookup_v(self.binds(), name@) is None,
            },
    {
        proof {
            lemma_lookup_view(self.bindings@, name@);
        }
        let mut i = self.bindings.len();
        assert(self.bindings@.subrange(0, i as int) =~= self.bindings@);
        while i > 0
            invariant
                i <= self.bindings@.len(),
                lookup_in(self.bindings@, name@) == lookup_in(self.bindings@.subrange(0, i as int), name@),
            decreases i,
        {
            i = i - 1;
            assert(self.bindings@.subrange(0, i + 1).drop_last() =~= self.bindings@.subrange(0, i as int));
            if string_is(&self.bindings[i].name, name) {
                let v = copy_value(&self.bindings[i].value);
                proof {
                    lemma_same_value_view(v, self.bindings@[i as int].value);
                    lemma_lookup_view(self.bindings@, name@);
                }
                return Some(v);
            }
        }
        proof {
            lemma_lookup_view(self.bindings@, name@);
        }
        None
    }

    /// Introduce a binding in the innermost scope.
    ///
    /// Binding a name already present in the innermost scope is refused
    /// unless that binding is mutable, in which case its value is replaced
    /// (and it stays mutable). A binding of the same name in an outer scope is
    /// no conflict: the new one shadows it.
    pub fn define(&mut self, name: &str, value: Value, mutable: bool) -> (r: Result<(), String>)
        requires
            old(self).wf(),
        ensures
            final(self).wf(),
            final(self).marks() == old(self).marks(),
            match find_from(old(self).bindings(), old(self).scope_start(), name@) {
                Some(i) => if old(self).bindings()[i].mutable {
                    &&& r is Ok
                    &&& final(self).bindings().len() == old(self).bindings().len()
                    &&& forall|j: int|
                        0 <= j < old(self).bindings().len() && j != i ==> final(self).bindings()[j]
                            == old(self).bindings()[j]
                    &&& final(self).bindings()[i].name@ == name@
                    &&& final(self).bindings()[i].value == value
                    &&& final(self).bindings()[i].mutable
                } else {
                    &&& r is Err
                    &&& final(self).bindings() == old(self).bindings()
                    &&& r->Err_0@ == "cannot rebind `"@ + name@
                        + "`: it is immutable (declare it with `let mut` to allow rebinding)"@
                },
                None => {
                    &&& r is Ok
                    &&& final(self).bindings().len() == old(self).bindings().len() + 1
                    &&& final(self).bindings().subrange(0, old(self).bindings().len() as int)
                        == old(self).bindings()
                    &&& final(self).bindings().last().name@ == name@
                    &&& final(self).bindings().last().value == value
                    &&& final(self).bindings().last().mutable == mutable
                },
            },
            match define_v(old(self).binds(), old(self).scope_start(), name@, vview(value), mutable) {
                Ok(b) => r is Ok && final(self).binds() == b,
                Err(m) => r is Err && r->Err_0@ == m && final(self).binds() == old(self).binds(),
            },
    {
        proof {
            lemma_find_view(old(self).bindings(), old(self).scope_start(), name@);
        }
        let start = self.marks[self.marks.len() - 1];
        let mut i = self.bindings.len();
        assert(self.bindings@.subrange(0, i as int) =~= self.bindings@);
        while i > start
            invariant
                start <= i <= self.bindings@.len(),
                start == self.marks@.last(),
                self.bindings@ == old(self).bindings@,
                self.marks@ == old(self).marks@,
                old(self).wf(),
                find_from(self.bindings@, start as int, name@) == find_from(self.bindings@.subrange(0, i as int), start as int, name@),
            decreases i,
        {
            i = i - 1;
            assert(self.bindings@.subrange(0, i + 1).drop_last() =~= self.bindings@.subrange(0, i as int));
            if string_is(&self.bindings[i].name, name) {
                if !self.bindings[i].mutable {
                    let msg = cat(&["cannot rebind `", name, "`: it is immutable (declare it with `let mut` to allow rebinding)"]);
                    proof {
                        reveal_with_fuel(crate::text::joined, 4);
                        lemma_find_view(old(self).bindings(), old(self).scope_start(), name@);
                    }
                    return Err(msg);
                }
                let ghost vv = vview(value);
                self.bindings.set(i, EnvBinding { name: owned(name), value, mutable: true });
                proof {
                    lemma_find_view(old(self).bindings(), old(self).scope_start(), name@);
                    assert(self.binds() =~= old(self).binds().update(i as int, (name@, vv, true)));
                }
                return Ok(());
            }
        }
        let ghost vv = vview(value);
        self.bindings.push(EnvBinding { name: owned(name), value, mutable });
        proof {
            lemma_find_view(old(self).bindings(), old(self).scope_start(), name@);
            assert(self.binds() =~= old(self).binds().push((name@, vv, mutable)));
        }
        Ok(())
    }
}

/// Lookup after a successful definition gives the defined value.
pub proof fn law_lookup_after_define(before: Env, after: Env, name: Seq<char>, value: Value)
    requires
        before.wf(),
        after.bindings().len() > 0,
        ({
            ||| {
                &&& find_from(before.bindings(), before.scope_start(), name) is None
                &&& after.bindings().last().name@ == name
                &&& after.bindings().last().value == value
            }
            ||| exists|i: int| {
                &&& find_from(before.bindings(), before.scope_start(), name) == Some(i)
                &&& after.bindings().len() == before.bindings().len()
                &&& #[trigger] after.bindings()[i].name@ == name
                &&& after.bindings()[i].value == value
                &&& forall|j: int| i < j < after.bindings().len() ==> after.bindings()[j] == before.bindings()[j]
            }
        }),
    ensures
        after.lookup_spec(name) == Some(value),
{
    if find_from(before.bindings(), before.scope_start(), name) is None
        && after.bindings().last().name@ == name && after.bindings().last().value == value {
    } else {
        let i = choose|i: int| {
            &&& find_from(before.bindings(), before.scope_start(), name) == Some(i)
            &&& after.bindings().len() == before.bindings().len()
            &&& #[trigger] after.bindings()[i].name@ == name
            &&& after.bindings()[i].value == value
            &&& forall|j: int| i < j < after.bindings().len() ==> after.bindings()[j] == before.bindings()[j]
        };
        lemma_find_from_latest(before.bindings(), before.scope_start(), name, i);
        lemma_lookup_at(after.bindings(), name, i);
    }
}

/// The binding `find_from` reports is the latest of its name.
proof fn lemma_find_from_latest(bs: Seq<EnvBinding>, start: int, name: Seq<char>, i: int)
    requires
        find_from(bs, start, name) == Some(i),
    ensures
        start <= i < bs.len(),
        0 <= i,
        bs[i].name@ == name,
        forall|j: int| i < j < bs.len() ==> bs[j].name@ != name,
    decreases bs.len(),
{
    if bs.last().name@ != name {
        lemma_find_from_latest(bs.drop_last(), start, name, i);
        assert(bs[i] == bs.drop_last()[i]);
        assert forall|j: int| i < j < bs.len() implies bs[j].name@ != name by {
            if j < bs.len() - 1 {
                assert(bs[j] == bs.drop_last()[j]);
            }
        }
    }
}

/// Lookup finds the binding at `i` when no later binding has its name.
proof fn lemma_lookup_at(bs: Seq<EnvBinding>, name: Seq<char>, i: int)
    requires
        0 <= i < bs.len(),
        bs[i].name@ == name,
        forall|j: int| i < j < bs.len() ==> bs[j].name@ != name,
    ensures
        lookup_in(bs, name) == Some(bs[i].value),
    decreases bs.len(),
{
    if i < bs.len() - 1 {
        lemma_lookup_at(bs.drop_last(), name, i);
    }
}

/// Leaving a scope restores what every name resolved to before it was
/// entered: bindings made inside are discarded.
pub proof fn law_scope_restores(before: Env, inside: Env, after: Env, name: Seq<char>)
    requires
        before.wf(),
        inside.marks().drop_last() == before.marks(),
        inside.marks().len() == before.marks().len() + 1,
        inside.scope_start() == before.bindings().len(),
        inside.bindings().len() >= before.bindings().len(),
        inside.bindings().subrange(0, before.bindings().len() as int) == before.bindings(),
        after.bindings() == inside.bindings().subrange(0, inside.scope_start()),
    ensures
        after.lookup_spec(name) == before.lookup_spec(name),
{
    assert(after.bindings() =~= before.bindings());
}

/// A binding as plain data: name, value, and whether it may be rebound.
pub type Bind = (Seq<char>, Val, bool);

/// The plain data of a list of bindings.
pub open spec fn binds_view(bs: Seq<EnvBinding>) -> Seq<Bind> {
    bs.map_values(|b: EnvBinding| (b.name@, vview(b.value), b.mutable))
}

/// The value of the latest binding of `name`.
pub open spec fn lookup_v(bs: Seq<Bind>, name: Seq<char>) -> Option<Val>
    decreases bs.len(),
{
    if bs.len() == 0 {
        None
    } else if bs.last().0 == name {
        Some(bs.last().1)
    } else {
        lookup_v(bs.drop_last(), name)
    }
}

/// The position of the latest binding of `name` at or after `start`.
pub open spec fn find_v(bs: Seq<Bind>, start: int, name: Seq<char>) -> Option<int>
    decreases bs.len(),
{
    if bs.len() <= start || bs.len() == 0 {
        None
    } else if bs.last().0 == name {
        Some(bs.len() - 1)
    } else {
        find_v(bs.drop_last(), start, name)
    }
}

/// Binding `name` in the scope starting at `start`: a fresh binding, the
/// replacement of a mutable one of that scope (which stays mutable), or the
/// refusal to rebind an immutable one.
pub open spec fn define_v(bs: Seq<Bind>, start: int, name: Seq<char>, v: Val, mutable: bool) -> Result<Seq<Bind>, Seq<char>> {
    match find_v(bs, start, name) {
        Some(i) => if bs[i].2 {
            Ok(bs.update(i, (name, v, true)))
        } else {
            Err("cannot rebind `"@ + name + "`: it is immutable (declare it with `let mut` to allow rebinding)"@)
        },
        None => Ok(bs.push((name, v, mutable))),
    }
}

proof fn lemma_lookup_view(bs: Seq<EnvBinding>, name: Seq<char>)
    ensures
        match lookup_in(bs, name) {
            Some(w) => lookup_v(binds_view(bs), name) == Some(vview(w)),
            None => lookup_v(binds_view(bs), name) is None,
        },
    decreases bs.len(),
{
    if bs.len() > 0 {
        assert(binds_view(bs).drop_last() =~= binds_view(bs.drop_last()));
        lemma_lookup_view(bs.drop_last(), name);
    }
}

proof fn lemma_find_view(bs: Seq<EnvBinding>, start: int, name: Seq<char>)
    ensures
        find_from(bs, start, name) == find_v(binds_view(bs), start, name),
    decreases bs.len(),
{
    if bs.len() > 0 {
        assert(binds_view(bs).drop_last() =~= binds_view(bs.drop_last()));
        lemma_find_view(bs.drop_last(), start, name);
    }
}

/// A definition changes nothing before the scope it is made in.
pub proof fn lemma_define_keeps_outer(bs: Seq<Bind>, start: int, name: Seq<char>, v: Val, mutable: bool)
    requires
        0 <= start <= bs.len(),
    ensures
        define_v(bs, start, name, v, mutable) matches Ok(b) ==> b.len() >= bs.len() && b.subrange(0, start) == bs.subrange(0, start),
    decreases bs.len(),
{
    lemma_find_v_bound(bs, start, name);
    match define_v(bs, start, name, v, mutable) {
        Ok(b) => {
            assert(b.subrange(0, start) =~= bs.subrange(0, start));
        },
        Err(_) => {},
    }
}

proof fn lemma_find_v_bound(bs: Seq<Bind>, start: int, name: Seq<char>)
    ensures
        find_v(bs, start, name) matches Some(i) ==> start <= i < bs.len() && 0 <= i,
    decreases bs.len(),
{
    if bs.len() > start && bs.len() > 0 && bs.last().0 != name {
        lemma_find_v_bound(bs.drop_last(), start, name);
    }
}

/// The bindings after a sequence of definitions `ds` (name, value,
/// mutability) in the scope starting at `start`; a refused one changes
/// nothing.
pub open spec fn define_all(bs: Seq<Bind>, start: int, ds: Seq<(Seq<char>, Val, bool)>) -> Seq<Bind>
    decreases ds.len(),
{
    if ds.len() == 0 {
        bs
    } else {
        let b = define_all(bs, start, ds.drop_last());
        let d = ds.last();
        match define_v(b, start, d.0, d.1, d.2) {
            Ok(b2) => b2,
            Err(_) => b,
        }
    }
}

proof fn lemma_define_all_keeps_outer(bs: Seq<Bind>, start: int, ds: Seq<(Seq<char>, Val, bool)>)
    requires
        0 <= start <= bs.len(),
    ensures
        define_all(bs, start, ds).len() >= start,
        define_all(bs, start, ds).subrange(0, start) == bs.subrange(0, start),
    decreases ds.len(),
{
    if ds.len() > 0 {
        lemma_define_all_keeps_outer(bs, start, ds.drop_last());
        let b = define_all(bs, start, ds.drop_last());
        let d = ds.last();
        lemma_define_keeps_outer(b, start, d.0, d.1, d.2);
        match define_v(b, start, d.0, d.1, d.2) {
            Ok(b2) => {
                assert(b2.subrange(0, start) =~= b.subrange(0, start));
            },
            Err(_) => {},
        }
    }
}

/// Scopes do not leak: enter a scope (it starts after the bindings `outer`),
/// make any sequence of definitions in it, and leave it; the bindings are
/// `outer` again, so every name resolves as it did before the scope was
/// entered, however the definitions inside shadowed or rebound it.
pub proof fn law_scope_restores_after_defines(outer: Seq<Bind>, ds: Seq<(Seq<char>, Val, bool)>, name: Seq<char>)
    ensures
        define_all(outer, outer.len() as int, ds).subrange(0, outer.len() as int) == outer,
        lookup_v(define_all(outer, outer.len() as int, ds).subrange(0, outer.len() as int), name) == lookup_v(outer, name),
{
    lemma_define_all_keeps_outer(outer, outer.len() as int, ds);
    assert(outer.subrange(0, outer.len() as int) =~= outer);
}

} // verus!
