//! The type representation used by the type checker.
//!
//! This is the checker's internal view of types, resolved from the syntactic
//! `TypeExpr` of the tree. It is computed transiently and never stored back.

use vstd::prelude::*;
use crate::ast::TypeExpr;
use crate::text::{copy_string, push_str, string_is};

verus! {

/// A resolved type.
#[derive(Debug, PartialEq, Eq)]
pub enum Type {
    Int,
    Bool,
    Text,
    /// The type of a statement or a function with no return value.
    Unit,
    /// Any nominal type without built-in rules, e.g. `Cap<Write>` or
    /// `Option<Int>`.
    Named { name: String, args: Vec<Type> },
    /// A placeholder for an already-reported error; it matches anything so
    /// one mistake does not cascade.
    Error,
    /// An undetermined generic argument (the `T` of a bare `None`); it matches
    /// anything.
    Infer,
    /// A function value's type, `fn(P, ...) -> R`.
    Fn { params: Vec<Type>, ret: Box<Type> },
}

/// Whether a type is one of the two wildcards.
pub open spec fn is_wild(t: Type) -> bool {
    t is Error || t is Infer
}

/// Type compatibility: structural equality, with `Error` and `Infer` matching
/// anything. Named types match by head, arity and arguments; function types by
/// parameters and result.
pub open spec fn compat(a: Type, b: Type) -> bool
    decreases a, 1int,
{
    if is_wild(a) || is_wild(b) {
        true
    } else {
        match a {
            Type::Named { name: n1, args: a1 } => match b {
                Type::Named { name: n2, args: a2 } => n1@ == n2@ && compat_all(a1@, a2@),
                _ => false,
            },
            Type::Fn { params: p1, ret: r1 } => match b {
                Type::Fn { params: p2, ret: r2 } => compat_all(p1@, p2@) && compat(*r1, *r2),
                _ => false,
            },
            Type::Int => b is Int,
            Type::Bool => b is Bool,
            Type::Text => b is Text,
            Type::Unit => b is Unit,
            _ => false,
        }
    }
}

/// Pairwise compatibility of two type lists of equal length.
pub open spec fn compat_all(xs: Seq<Type>, ys: Seq<Type>) -> bool
    decreases xs, 0int,
{
    if xs.len() != ys.len() {
        false
    } else if xs.len() == 0 {
        true
    } else {
        compat_all(xs.subrange(0, xs.len() - 1), ys.subrange(0, ys.len() - 1))
            && compat(xs[xs.len() - 1], ys[ys.len() - 1])
    }
}

/// How a type is written in a message, e.g. `Option<Int>` or `fn(Int) -> Bool`.
pub open spec fn type_text(t: Type) -> Seq<char>
    decreases t, 1int,
{
    match t {
        Type::Int => "Int"@,
        Type::Bool => "Bool"@,
        Type::Text => "Text"@,
        Type::Unit => "Unit"@,
        Type::Error => "<error>"@,
        Type::Infer => "_"@,
        Type::Named { name, args } => if args@.len() == 0 {
            name@
        } else {
            name@ + "<"@ + join_types(args@) + ">"@
        },
        Type::Fn { params, ret } => "fn("@ + join_types(params@) + ") -> "@ + type_text(*ret),
    }
}

/// A comma-separated list of types.
pub open spec fn join_types(ts: Seq<Type>) -> Seq<char>
    decreases ts, 0int,
{
    if ts.len() == 0 {
        Seq::empty()
    } else if ts.len() == 1 {
        type_text(ts[0])
    } else {
        join_types(ts.subrange(0, ts.len() - 1)) + ", "@ + type_text(ts[ts.len() - 1])
    }
}

/// `r` is the resolution of the written type `t`: the four primitive names
/// map to their types, `fn` with arguments `P.., R` to a function type (with
/// no arguments to `Error`), and any other name to a named type whose
/// arguments are resolved in turn.
pub open spec fn resolves_to(t: TypeExpr, r: Type) -> bool
    decreases t, 1int,
{
    if t.name@ == "Int"@ {
        r is Int
    } else if t.name@ == "Bool"@ {
        r is Bool
    } else if t.name@ == "Text"@ {
        r is Text
    } else if t.name@ == "Unit"@ {
        r is Unit
    } else if t.name@ == "fn"@ {
        if t.args@.len() == 0 {
            r is Error
        } else {
            match r {
                Type::Fn { params, ret } => resolves_all(
                    t.args@.subrange(0, t.args@.len() - 1),
                    params@,
                ) && resolves_to(t.args@[t.args@.len() - 1], *ret),
                _ => false,
            }
        }
    } else {
        match r {
            Type::Named { name, args } => name@ == t.name@ && resolves_all(t.args@, args@),
            _ => false,
        }
    }
}

/// Pairwise resolution of a list of written types.
pub open spec fn resolves_all(ts: Seq<TypeExpr>, rs: Seq<Type>) -> bool
    decreases ts, 0int,
{
    if ts.len() != rs.len() {
        false
    } else if ts.len() == 0 {
        true
    } else {
        resolves_all(ts.subrange(0, ts.len() - 1), rs.subrange(0, rs.len() - 1))
            && resolves_to(ts[ts.len() - 1], rs[rs.len() - 1])
    }
}

impl Type {
    /// Resolve a syntactic type into a checker type.
    pub fn resolve(t: &TypeExpr) -> (r: Type)
        ensures
            resolves_to(*t, r),
            tview(r) == resolve_t(*t),
        decreases t, 2int,
    {
        let r = Self::resolve_to(t);
        proof {
            lemma_resolve_view(*t, r);
        }
        r
    }

    fn resolve_to(t: &TypeExpr) -> (r: Type)
        ensures
            resolves_to(*t, r),
        decreases t, 1int,
    {
        if string_is(&t.name, "Int") {
            Type::Int
        } else if string_is(&t.name, "Bool") {
            Type::Bool
        } else if string_is(&t.name, "Text") {
            Type::Text
        } else if string_is(&t.name, "Unit") {
            Type::Unit
        } else if string_is(&t.name, "fn") {
            let n = t.args.len();
            if n == 0 {
                Type::Error
            } else {
                let params = resolve_range(&t.args, n - 1);
                proof {
                    assert(decreases_to!(t => t.args));
                }
                let ret = resolve_last(&t.args);
                Type::Fn { params, ret: Box::new(ret) }
            }
        } else {
            let n = t.args.len();
            let args = resolve_range(&t.args, n);
            assert(t.args@.subrange(0, n as int) =~= t.args@);
            Type::Named { name: copy_string(&t.name), args }
        }
    }

    /// Whether two types are compatible: structural equality, with `Error`
    /// and `Infer` as wildcards. There are no implicit coercions.
    pub fn compatible(&self, other: &Type) -> (r: bool)
        ensures
            r == compat(*self, *other),
            r == compat_t(tview(*self), tview(*other)),
        decreases self, 1int,
    {
        proof {
            lemma_compat_view(*self, *other);
        }
        match self {
            Type::Error | Type::Infer => return true,
            _ => {},
        }
        match other {
            Type::Error | Type::Infer => return true,
            _ => {},
        }
        match self {
            Type::Named { name: n1, args: a1 } => match other {
                Type::Named { name: n2, args: a2 } => {
                    if !string_is(n1, n2.as_str()) {
                        return false;
                    }
                    compatible_all(a1, a2)
                },
                _ => false,
            },
            Type::Fn { params: p1, ret: r1 } => match other {
                Type::Fn { params: p2, ret: r2 } => {
                    let ps = compatible_all(p1, p2);
                    let rs = r1.compatible(r2);
                    ps && rs
                },
                _ => false,
            },
            Type::Int => matches!(other, Type::Int),
            Type::Bool => matches!(other, Type::Bool),
            Type::Text => matches!(other, Type::Text),
            Type::Unit => matches!(other, Type::Unit),
            _ => false,
        }
    }

    /// How this type is written in a message.
    pub fn to_text(&self) -> (r: String)
        ensures
            r@ == type_text(*self),
            r@ == ty_text(tview(*self)),
    {
        proof {
            lemma_text_view(*self);
        }
        let mut out = String::new();
        write_type(self, &mut out);
        assert(out@ =~= type_text(*self));
        out
    }
}

/// Resolve the last written type of a non-empty list.
fn resolve_last(v: &Vec<TypeExpr>) -> (r: Type)
    requires
        v@.len() > 0,
    ensures
        resolves_to(v@[v@.len() - 1], r),
    decreases v, 0int,
{
    let n = v.len();
    Type::resolve(&v[n - 1])
}

/// Resolve the first `n` written types of a list.
fn resolve_range(v: &Vec<TypeExpr>, n: usize) -> (r: Vec<Type>)
    requires
        n <= v@.len(),
    ensures
        resolves_all(v@.subrange(0, n as int), r@),
    decreases v, 0int,
{
    let mut out: Vec<Type> = Vec::new();
    let mut i: usize = 0;
    while i < n
        invariant
            n <= v@.len(),
            i <= n,
            out@.len() == i,
            resolves_all(v@.subrange(0, i as int), out@),
        decreases n - i,
    {
        let t = Type::resolve(&v[i]);
        let ghost before = out@;
        out.push(t);
        assert(v@.subrange(0, i + 1).subrange(0, i as int) =~= v@.subrange(0, i as int));
        assert(out@.subrange(0, i as int) =~= before);
        i = i + 1;
    }
    out
}

/// Pairwise compatibility of two type lists.
fn compatible_all(xs: &Vec<Type>, ys: &Vec<Type>) -> (r: bool)
    ensures
        r == compat_all(xs@, ys@),
    decreases xs, 0int,
{
    let n = xs.len();
    if n != ys.len() {
        return false;
    }
    let mut ok = true;
    let mut i: usize = 0;
    while i < n
        invariant
            n == xs@.len(),
            n == ys@.len(),
            i <= n,
            ok == compat_all(xs@.subrange(0, i as int), ys@.subrange(0, i as int)),
        decreases n - i,
    {
        let c = xs[i].compatible(&ys[i]);
        assert(xs@.subrange(0, i + 1).subrange(0, i as int) =~= xs@.subrange(0, i as int));
        assert(ys@.subrange(0, i + 1).subrange(0, i as int) =~= ys@.subrange(0, i as int));
        ok = ok && c;
        i = i + 1;
    }
    assert(xs@.subrange(0, n as int) =~= xs@);
    assert(ys@.subrange(0, n as int) =~= ys@);
    ok
}

/// Append how `t` is written.
fn write_type(t: &Type, out: &mut String)
    ensures
        final(out)@ == old(out)@ + type_text(*t),
    decreases t, 1int,
{
    match t {
        Type::Int => push_str(out, "Int"),
        Type::Bool => push_str(out, "Bool"),
        Type::Text => push_str(out, "Text"),
        Type::Unit => push_str(out, "Unit"),
        Type::Error => push_str(out, "<error>"),
        Type::Infer => push_str(out, "_"),
        Type::Named { name, args } => {
            let ghost o = out@;
            push_str(out, name.as_str());
            if args.len() > 0 {
                push_str(out, "<");
                write_types(args, out);
                push_str(out, ">");
            }
            assert(out@ =~= o + type_text(*t));
        },
        Type::Fn { params, ret } => {
            let ghost o = out@;
            push_str(out, "fn(");
            write_types(params, out);
            push_str(out, ") -> ");
            write_type(ret, out);
            assert(out@ =~= o + type_text(*t));
        },
    }
}

/// Append a comma-separated list of types.
fn write_types(ts: &Vec<Type>, out: &mut String)
    ensures
        final(out)@ == old(out)@ + join_types(ts@),
    decreases ts, 0int,
{
    let ghost o = out@;
    let n = ts.len();
    let mut i: usize = 0;
    while i < n
        invariant
            n == ts@.len(),
            i <= n,
            out@ == o + join_types(ts@.subrange(0, i as int)),
        decreases n - i,
    {
        let ghost before = out@;
        if i > 0 {
            push_str(out, ", ");
        }
        write_type(&ts[i], out);
        assert(ts@.subrange(0, i + 1).subrange(0, i as int) =~= ts@.subrange(0, i as int));
        assert(out@ =~= o + join_types(ts@.subrange(0, i + 1)));
        i = i + 1;
    }
    assert(ts@.subrange(0, n as int) =~= ts@);
}

/// Compatibility is reflexive: every type is compatible with itself.
pub proof fn lemma_compat_reflexive(a: Type)
    ensures
        compat(a, a),
    decreases a, 1int,
{
    match a {
        Type::Named { name, args } => lemma_compat_all_reflexive(args@),
        Type::Fn { params, ret } => {
            lemma_compat_all_reflexive(params@);
            lemma_compat_reflexive(*ret);
        },
        _ => {},
    }
}

/// Pairwise compatibility of a list with itself.
pub proof fn lemma_compat_all_reflexive(xs: Seq<Type>)
    ensures
        compat_all(xs, xs),
    decreases xs, 0int,
{
    if xs.len() > 0 {
        lemma_compat_all_reflexive(xs.subrange(0, xs.len() - 1));
        lemma_compat_reflexive(xs[xs.len() - 1]);
    }
}

/// Compatibility is symmetric: the order of the two types does not matter.
pub proof fn lemma_compat_symmetric(a: Type, b: Type)
    ensures
        compat(a, b) == compat(b, a),
    decreases a, 1int,
{
    match a {
        Type::Named { name: n1, args: a1 } => match b {
            Type::Named { name: n2, args: a2 } => lemma_compat_all_symmetric(a1@, a2@),
            _ => {},
        },
        Type::Fn { params: p1, ret: r1 } => match b {
            Type::Fn { params: p2, ret: r2 } => {
                lemma_compat_all_symmetric(p1@, p2@);
                lemma_compat_symmetric(*r1, *r2);
            },
            _ => {},
        },
        _ => {},
    }
}

/// Pairwise compatibility is symmetric.
pub proof fn lemma_compat_all_symmetric(xs: Seq<Type>, ys: Seq<Type>)
    ensures
        compat_all(xs, ys) == compat_all(ys, xs),
    decreases xs, 0int,
{
    if xs.len() == ys.len() && xs.len() > 0 {
        lemma_compat_all_symmetric(
            xs.subrange(0, xs.len() - 1),
            ys.subrange(0, ys.len() - 1),
        );
        lemma_compat_symmetric(xs[xs.len() - 1], ys[ys.len() - 1]);
    }
}

/// A copy of a type, of the same shape at every node.
pub fn copy_type(t: &Type) -> (r: Type)
    ensures
        same_type(r, *t),
        type_text(r) == type_text(*t),
        tview(r) == tview(*t),
    decreases t, 1int,
{
    let r = match t {
        Type::Int => Type::Int,
        Type::Bool => Type::Bool,
        Type::Text => Type::Text,
        Type::Unit => Type::Unit,
        Type::Error => Type::Error,
        Type::Infer => Type::Infer,
        Type::Named { name, args } => Type::Named { name: copy_string(name), args: copy_types(args) },
        Type::Fn { params, ret } => Type::Fn {
            params: copy_types(params),
            ret: Box::new(copy_type(ret)),
        },
    };
    proof {
        lemma_same_compat(r, *t, *t);
        lemma_same_view(r, *t);
    }
    r
}

/// A copy of a list of types.
pub fn copy_types(v: &Vec<Type>) -> (r: Vec<Type>)
    ensures
        r@.len() == v@.len(),
        join_types(r@) == join_types(v@),
        same_all(r@, v@),
        tviews(r@) == tviews(v@),
    decreases v, 0int,
{
    let mut out: Vec<Type> = Vec::new();
    let n = v.len();
    let mut i: usize = 0;
    while i < n
        invariant
            n == v@.len(),
            i <= n,
            out@.len() == i,
            join_types(out@) == join_types(v@.subrange(0, i as int)),
            same_all(out@, v@.subrange(0, i as int)),
        decreases n - i,
    {
        let t = copy_type(&v[i]);
        let ghost before = out@;
        out.push(t);
        assert(out@.subrange(0, i as int) =~= before);
        assert(v@.subrange(0, i + 1).subrange(0, i as int) =~= v@.subrange(0, i as int));
        i = i + 1;
    }
    assert(v@.subrange(0, n as int) =~= v@);
    proof {
        lemma_same_all_view(out@, v@);
    }
    out
}

/// Two types with the same shape and text at every node.
pub open spec fn same_type(a: Type, b: Type) -> bool
    decreases a, 1int,
{
    match a {
        Type::Named { name: n1, args: a1 } => match b {
            Type::Named { name: n2, args: a2 } => n1@ == n2@ && same_all(a1@, a2@),
            _ => false,
        },
        Type::Fn { params: p1, ret: r1 } => match b {
            Type::Fn { params: p2, ret: r2 } => same_all(p1@, p2@) && same_type(*r1, *r2),
            _ => false,
        },
        Type::Int => b is Int,
        Type::Bool => b is Bool,
        Type::Text => b is Text,
        Type::Unit => b is Unit,
        Type::Error => b is Error,
        Type::Infer => b is Infer,
    }
}

/// Pairwise sameness of two type lists.
pub open spec fn same_all(xs: Seq<Type>, ys: Seq<Type>) -> bool
    decreases xs, 0int,
{
    if xs.len() != ys.len() {
        false
    } else if xs.len() == 0 {
        true
    } else {
        same_all(xs.subrange(0, xs.len() - 1), ys.subrange(0, ys.len() - 1)) && same_type(
            xs[xs.len() - 1],
            ys[ys.len() - 1],
        )
    }
}

/// Types of the same shape are compatible with the same types.
pub proof fn lemma_same_compat(a: Type, b: Type, c: Type)
    requires
        same_type(a, b),
    ensures
        compat(a, c) == compat(b, c),
        compat(c, a) == compat(c, b),
        type_text(a) == type_text(b),
    decreases a, 1int,
{
    match a {
        Type::Named { name: n1, args: a1 } => match b {
            Type::Named { name: n2, args: a2 } => {
                match c {
                    Type::Named { name: n3, args: a3 } => {
                        lemma_same_compat_all(a1@, a2@, a3@);
                    },
                    _ => {},
                }
                assert(same_all(a1@, a2@));
                lemma_same_text_all(a1@, a2@);
                assert(a1@.len() == a2@.len());
                assert(type_text(a) == type_text(b));
            },
            _ => {},
        },
        Type::Fn { params: p1, ret: r1 } => match b {
            Type::Fn { params: p2, ret: r2 } => {
                match c {
                    Type::Fn { params: p3, ret: r3 } => {
                        lemma_same_compat_all(p1@, p2@, p3@);
                        lemma_same_compat(*r1, *r2, *r3);
                    },
                    _ => {},
                }
                lemma_same_text_all(p1@, p2@);
                lemma_same_compat(*r1, *r2, *r1);
            },
            _ => {},
        },
        _ => {},
    }
}

/// Pairwise sameness preserves pairwise compatibility.
pub proof fn lemma_same_compat_all(xs: Seq<Type>, ys: Seq<Type>, zs: Seq<Type>)
    requires
        same_all(xs, ys),
    ensures
        compat_all(xs, zs) == compat_all(ys, zs),
        compat_all(zs, xs) == compat_all(zs, ys),
    decreases xs, 0int,
{
    if xs.len() > 0 && zs.len() == xs.len() {
        lemma_same_compat_all(
            xs.subrange(0, xs.len() - 1),
            ys.subrange(0, ys.len() - 1),
            zs.subrange(0, zs.len() - 1),
        );
        lemma_same_compat(xs[xs.len() - 1], ys[ys.len() - 1], zs[zs.len() - 1]);
    }
}

/// Pairwise sameness preserves the written list.
pub proof fn lemma_same_text_all(xs: Seq<Type>, ys: Seq<Type>)
    requires
        same_all(xs, ys),
    ensures
        join_types(xs) == join_types(ys),
    decreases xs, 0int,
{
    if xs.len() > 0 {
        lemma_same_text_all(xs.subrange(0, xs.len() - 1), ys.subrange(0, ys.len() - 1));
        lemma_same_compat(xs[xs.len() - 1], ys[ys.len() - 1], xs[xs.len() - 1]);
    }
}



/// A resolved type as plain data.
pub enum Ty {
    Int,
    Bool,
    Text,
    Unit,
    Named(Seq<char>, Seq<Ty>),
    Error,
    Infer,
    Fn(Seq<Ty>, Box<Ty>),
}

/// The plain data of a type.
pub open spec fn tview(t: Type) -> Ty
    decreases t, 1int,
{
    match t {
        Type::Int => Ty::Int,
        Type::Bool => Ty::Bool,
        Type::Text => Ty::Text,
        Type::Unit => Ty::Unit,
        Type::Error => Ty::Error,
        Type::Infer => Ty::Infer,
        Type::Named { name, args } => Ty::Named(name@, tviews(args@)),
        Type::Fn { params, ret } => Ty::Fn(tviews(params@), Box::new(tview(*ret))),
    }
}

/// The plain data of a list of types.
pub open spec fn tviews(ts: Seq<Type>) -> Seq<Ty>
    decreases ts, 0int,
{
    if ts.len() == 0 {
        Seq::empty()
    } else {
        tviews(ts.subrange(0, ts.len() - 1)).push(tview(ts[ts.len() - 1]))
    }
}

/// `tviews` keeps positions.
pub proof fn lemma_tviews(ts: Seq<Type>)
    ensures
        tviews(ts).len() == ts.len(),
        forall|i: int| 0 <= i < ts.len() ==> #[trigger] tviews(ts)[i] == tview(ts[i]),
    decreases ts.len(),
{
    if ts.len() > 0 {
        let pre = ts.subrange(0, ts.len() - 1);
        lemma_tviews(pre);
        assert forall|i: int| 0 <= i < ts.len() implies #[trigger] tviews(ts)[i] == tview(ts[i]) by {
            if i < ts.len() - 1 {
                assert(tviews(ts)[i] == tviews(pre)[i]);
                assert(pre[i] == ts[i]);
            }
        }
    }
}

/// Whether a plain type is one of the two wildcards.
pub open spec fn wild_t(t: Ty) -> bool {
    t is Error || t is Infer
}

/// Compatibility of plain types: structural equality, with `Error` and
/// `Infer` matching anything.
pub open spec fn compat_t(a: Ty, b: Ty) -> bool
    decreases a, 1int,
{
    if wild_t(a) || wild_t(b) {
        true
    } else {
        match a {
            Ty::Named(n1, a1) => match b {
                Ty::Named(n2, a2) => n1 == n2 && compat_all_t(a1, a2),
                _ => false,
            },
            Ty::Fn(p1, r1) => match b {
                Ty::Fn(p2, r2) => compat_all_t(p1, p2) && compat_t(*r1, *r2),
                _ => false,
            },
            Ty::Int => b is Int,
            Ty::Bool => b is Bool,
            Ty::Text => b is Text,
            Ty::Unit => b is Unit,
            _ => false,
        }
    }
}

/// Pairwise compatibility of two plain type lists of equal length.
pub open spec fn compat_all_t(xs: Seq<Ty>, ys: Seq<Ty>) -> bool
    decreases xs, 0int,
{
    if xs.len() != ys.len() {
        false
    } else if xs.len() == 0 {
        true
    } else {
        compat_all_t(xs.subrange(0, xs.len() - 1), ys.subrange(0, ys.len() - 1)) && compat_t(
            xs[xs.len() - 1],
            ys[ys.len() - 1],
        )
    }
}

/// How a plain type is written in a message.
pub open spec fn ty_text(t: Ty) -> Seq<char>
    decreases t, 1int,
{
    match t {
        Ty::Int => "Int"@,
        Ty::Bool => "Bool"@,
        Ty::Text => "Text"@,
        Ty::Unit => "Unit"@,
        Ty::Error => "<error>"@,
        Ty::Infer => "_"@,
        Ty::Named(name, args) => if args.len() == 0 {
            name
        } else {
            name + "<"@ + join_ty(args) + ">"@
        },
        Ty::Fn(params, ret) => "fn("@ + join_ty(params) + ") -> "@ + ty_text(*ret),
    }
}

/// A comma-separated list of plain types.
pub open spec fn join_ty(ts: Seq<Ty>) -> Seq<char>
    decreases ts, 0int,
{
    if ts.len() == 0 {
        Seq::empty()
    } else if ts.len() == 1 {
        ty_text(ts[0])
    } else {
        join_ty(ts.subrange(0, ts.len() - 1)) + ", "@ + ty_text(ts[ts.len() - 1])
    }
}

/// The resolution of a written type: the four primitive names, `fn` with
/// arguments `P.., R` as a function type (`Error` with none), any other name
/// as a named type with its arguments resolved.
pub open spec fn resolve_t(t: TypeExpr) -> Ty
    decreases t, 1int,
{
    if t.name@ == "Int"@ {
        Ty::Int
    } else if t.name@ == "Bool"@ {
        Ty::Bool
    } else if t.name@ == "Text"@ {
        Ty::Text
    } else if t.name@ == "Unit"@ {
        Ty::Unit
    } else if t.name@ == "fn"@ {
        if t.args@.len() == 0 {
            Ty::Error
        } else {
            Ty::Fn(resolve_all_t(t.args@.subrange(0, t.args@.len() - 1)), Box::new(resolve_t(t.args@[t.args@.len() - 1])))
        }
    } else {
        Ty::Named(t.name@, resolve_all_t(t.args@))
    }
}

/// The resolutions of a list of written types.
pub open spec fn resolve_all_t(ts: Seq<TypeExpr>) -> Seq<Ty>
    decreases ts, 0int,
{
    if ts.len() == 0 {
        Seq::empty()
    } else {
        resolve_all_t(ts.subrange(0, ts.len() - 1)).push(resolve_t(ts[ts.len() - 1]))
    }
}

/// Compatibility of types is that of their plain data.
pub proof fn lemma_compat_view(a: Type, b: Type)
    ensures
        compat(a, b) == compat_t(tview(a), tview(b)),
    decreases a, 1int,
{
    match a {
        Type::Named { name: n1, args: a1 } => match b {
            Type::Named { name: n2, args: a2 } => lemma_compat_all_view(a1@, a2@),
            _ => {},
        },
        Type::Fn { params: p1, ret: r1 } => match b {
            Type::Fn { params: p2, ret: r2 } => {
                lemma_compat_all_view(p1@, p2@);
                lemma_compat_view(*r1, *r2);
            },
            _ => {},
        },
        _ => {},
    }
}

/// Pairwise compatibility of types is that of their plain data.
pub proof fn lemma_compat_all_view(xs: Seq<Type>, ys: Seq<Type>)
    ensures
        compat_all(xs, ys) == compat_all_t(tviews(xs), tviews(ys)),
    decreases xs, 0int,
{
    lemma_tviews(xs);
    lemma_tviews(ys);
    if xs.len() == ys.len() && xs.len() > 0 {
        let xp = xs.subrange(0, xs.len() - 1);
        let yp = ys.subrange(0, ys.len() - 1);
        lemma_compat_all_view(xp, yp);
        lemma_compat_view(xs[xs.len() - 1], ys[ys.len() - 1]);
        assert(tviews(xs).subrange(0, xs.len() - 1) =~= tviews(xp));
        assert(tviews(ys).subrange(0, ys.len() - 1) =~= tviews(yp));
    }
}

/// The text of a type is that of its plain data.
pub proof fn lemma_text_view(a: Type)
    ensures
        type_text(a) == ty_text(tview(a)),
    decreases a, 1int,
{
    match a {
        Type::Named { name, args } => {
            lemma_join_view(args@);
            lemma_tviews(args@);
        },
        Type::Fn { params, ret } => {
            lemma_join_view(params@);
            lemma_text_view(*ret);
        },
        _ => {},
    }
}

/// The text of a type list is that of its plain data.
pub proof fn lemma_join_view(ts: Seq<Type>)
    ensures
        join_types(ts) == join_ty(tviews(ts)),
    decreases ts, 0int,
{
    lemma_tviews(ts);
    if ts.len() == 1 {
        lemma_text_view(ts[0]);
    } else if ts.len() > 1 {
        let pre = ts.subrange(0, ts.len() - 1);
        lemma_join_view(pre);
        lemma_text_view(ts[ts.len() - 1]);
        assert(tviews(ts).subrange(0, ts.len() - 1) =~= tviews(pre));
    }
}

/// A resolution's plain data is the resolution of the written type.
pub proof fn lemma_resolve_view(t: TypeExpr, r: Type)
    requires
        resolves_to(t, r),
    ensures
        tview(r) == resolve_t(t),
    decreases t, 1int,
{
    if t.name@ == "Int"@ || t.name@ == "Bool"@ || t.name@ == "Text"@ || t.name@ == "Unit"@ {
    } else if t.name@ == "fn"@ {
        if t.args@.len() > 0 {
            match r {
                Type::Fn { params, ret } => {
                    assert(decreases_to!(t => t.args));
                    lemma_resolve_all_view(t.args@.subrange(0, t.args@.len() - 1), params@);
                    lemma_resolve_view(t.args@[t.args@.len() - 1], *ret);
                },
                _ => {},
            }
        }
    } else {
        match r {
            Type::Named { name, args } => {
                assert(decreases_to!(t => t.args));
                assert(t.args@.subrange(0, t.args@.len() as int) =~= t.args@);
                lemma_resolve_all_view(t.args@, args@);
            },
            _ => {},
        }
    }
}

/// Pairwise resolutions' plain data.
pub proof fn lemma_resolve_all_view(ts: Seq<TypeExpr>, rs: Seq<Type>)
    requires
        resolves_all(ts, rs),
    ensures
        tviews(rs) == resolve_all_t(ts),
    decreases ts, 0int,
{
    if ts.len() > 0 {
        lemma_resolve_all_view(ts.subrange(0, ts.len() - 1), rs.subrange(0, rs.len() - 1));
        lemma_resolve_view(ts[ts.len() - 1], rs[rs.len() - 1]);
    }
}

/// Types of the same shape have the same plain data.
pub proof fn lemma_same_view(a: Type, b: Type)
    requires
        same_type(a, b),
    ensures
        tview(a) == tview(b),
    decreases a, 1int,
{
    match a {
        Type::Named { name: n1, args: a1 } => match b {
            Type::Named { name: n2, args: a2 } => lemma_same_all_view(a1@, a2@),
            _ => {},
        },
        Type::Fn { params: p1, ret: r1 } => match b {
            Type::Fn { params: p2, ret: r2 } => {
                lemma_same_all_view(p1@, p2@);
                lemma_same_view(*r1, *r2);
            },
            _ => {},
        },
        _ => {},
    }
}

/// Lists of types of the same shape have the same plain data.
pub proof fn lemma_same_all_view(xs: Seq<Type>, ys: Seq<Type>)
    requires
        same_all(xs, ys),
    ensures
        tviews(xs) == tviews(ys),
    decreases xs, 0int,
{
    if xs.len() > 0 {
        lemma_same_all_view(xs.subrange(0, xs.len() - 1), ys.subrange(0, ys.len() - 1));
        lemma_same_view(xs[xs.len() - 1], ys[ys.len() - 1]);
    }
}


/// Pushing a type pushes its plain data.
pub proof fn lemma_tviews_push(ts: Seq<Type>, t: Type)
    ensures
        tviews(ts.push(t)) == tviews(ts).push(tview(t)),
{
    assert(ts.push(t).subrange(0, ts.len() as int) =~= ts);
}

/// A plain type with no `Error` or `Infer` anywhere in it.
pub open spec fn settled_t(t: Ty) -> bool
    decreases t, 1int,
{
    match t {
        Ty::Error => false,
        Ty::Infer => false,
        Ty::Named(_, args) => settled_all_t(args),
        Ty::Fn(ps, r) => settled_all_t(ps) && settled_t(*r),
        _ => true,
    }
}

/// Every type of the list is settled.
pub open spec fn settled_all_t(ts: Seq<Ty>) -> bool
    decreases ts, 0int,
{
    if ts.len() == 0 {
        true
    } else {
        settled_all_t(ts.subrange(0, ts.len() - 1)) && settled_t(ts[ts.len() - 1])
    }
}

/// Between settled plain types, compatibility is equality.
pub proof fn lemma_compat_settled(a: Ty, b: Ty)
    requires
        settled_t(a),
        settled_t(b),
    ensures
        compat_t(a, b) == (a == b),
    decreases a, 1int,
{
    match a {
        Ty::Named(n1, a1) => match b {
            Ty::Named(n2, a2) => lemma_compat_all_settled(a1, a2),
            _ => {},
        },
        Ty::Fn(p1, r1) => match b {
            Ty::Fn(p2, r2) => {
                lemma_compat_all_settled(p1, p2);
                lemma_compat_settled(*r1, *r2);
            },
            _ => {},
        },
        _ => {},
    }
}

/// Between settled plain type lists, pairwise compatibility is equality.
pub proof fn lemma_compat_all_settled(xs: Seq<Ty>, ys: Seq<Ty>)
    requires
        settled_all_t(xs),
        settled_all_t(ys),
    ensures
        compat_all_t(xs, ys) == (xs == ys),
    decreases xs, 0int,
{
    if xs.len() != ys.len() {
    } else if xs.len() == 0 {
        assert(xs =~= ys);
    } else {
        let xp = xs.subrange(0, xs.len() - 1);
        let yp = ys.subrange(0, ys.len() - 1);
        lemma_compat_all_settled(xp, yp);
        lemma_compat_settled(xs[xs.len() - 1], ys[ys.len() - 1]);
        if xp == yp && xs[xs.len() - 1] == ys[ys.len() - 1] {
            assert(xs =~= ys) by {
                assert forall|i: int| 0 <= i < xs.len() implies xs[i] == ys[i] by {
                    if i < xs.len() - 1 {
                        assert(xs[i] == xp[i]);
                        assert(ys[i] == yp[i]);
                    }
                }
            }
        }
        if xs == ys {
            assert(xp =~= yp);
        }
    }
}

/// Compatibility is reflexive and symmetric, and between types with no
/// `Error` or `Infer` anywhere in them it is structural equality: no
/// implicit coercion.
pub proof fn law_compatible_is_structural(a: Type, b: Type)
    ensures
        compat(a, a),
        compat(a, b) == compat(b, a),
        settled_t(tview(a)) && settled_t(tview(b)) ==> compat(a, b) == (tview(a) == tview(b)),
{
    lemma_compat_reflexive(a);
    lemma_compat_symmetric(a, b);
    lemma_compat_view(a, b);
    if settled_t(tview(a)) && settled_t(tview(b)) {
        lemma_compat_settled(tview(a), tview(b));
    }
}

} // verus!
