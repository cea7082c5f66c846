//! The typing rules as plain data: what the type checker reports for a
//! module, rule by rule.
//!
//! A variable environment is a list of (name, type), latest last; lookup
//! takes the latest. Each rule returns the type it gives (where it gives one)
//! and the diagnostics it reports, in order, as (code, span, message).

use vstd::prelude::*;
use crate::ast::{BinaryOp, Contract, Expr, Function, Item, LiteralKind, MatchArm, Param, Pattern, Signature, Stmt, TypeExpr, UnaryOp, Variant};
use crate::span::Span;
use crate::text::{decimal, names_view};
use crate::ty::{compat_t, resolve_t, ty_text, Ty};
use crate::types::{stmts_always_return, variant_names};

verus! {

/// A reported diagnostic: code, span, message.
pub type Diag = (Seq<char>, Span, Seq<char>);

/// A variable environment, latest binding last.
pub type Vars = Seq<(Seq<char>, Ty)>;

/// A function's resolved signature, and whether it is pure.
pub struct FnT {
    pub name: Seq<char>,
    pub params: Seq<Ty>,
    pub ret: Ty,
    pub pure_fn: bool,
}

/// A constructor: its name, and the item and variant that declare it.
pub struct CtorT {
    pub name: Seq<char>,
    pub item: int,
    pub variant: int,
}

/// A sum type: its name and its variant names.
pub struct SumT {
    pub name: Seq<char>,
    pub variants: Seq<Seq<char>>,
}

/// What the checker knows of a module: its items, the first function of
/// each name, every sum type, and the first constructor of each name.
pub struct Tcx {
    pub items: Seq<Item>,
    pub funcs: Seq<FnT>,
    pub sums: Seq<SumT>,
    pub ctors: Seq<CtorT>,
}

/// The declared return type (`Unit` when none is written).
pub open spec fn ret_t(sig: Signature) -> Ty {
    match sig.return_type {
        Some(t) => resolve_t(t),
        None => Ty::Unit,
    }
}

/// A function's resolved signature.
pub open spec fn sig_t(sig: Signature) -> FnT {
    FnT {
        name: sig.name@,
        params: sig.params@.map_values(|p: Param| resolve_t(p.ty)),
        ret: ret_t(sig),
        pure_fn: sig.effects.effects@.len() == 0,
    }
}

/// The position of the first function named `name`.
pub open spec fn find_fn(fs: Seq<FnT>, name: Seq<char>) -> Option<int>
    decreases fs.len(),
{
    if fs.len() == 0 {
        None
    } else {
        match find_fn(fs.drop_last(), name) {
            Some(k) => Some(k),
            None => if fs.last().name == name {
                Some(fs.len() - 1)
            } else {
                None
            },
        }
    }
}

/// The position of the first constructor named `name`.
pub open spec fn find_ctor(cs: Seq<CtorT>, name: Seq<char>) -> Option<int>
    decreases cs.len(),
{
    if cs.len() == 0 {
        None
    } else {
        match find_ctor(cs.drop_last(), name) {
            Some(k) => Some(k),
            None => if cs.last().name == name {
                Some(cs.len() - 1)
            } else {
                None
            },
        }
    }
}

/// The position of the last sum type named `name`.
pub open spec fn find_sum(ss: Seq<SumT>, name: Seq<char>) -> Option<int>
    decreases ss.len(),
{
    if ss.len() == 0 {
        None
    } else if ss.last().name == name {
        Some(ss.len() - 1)
    } else {
        find_sum(ss.drop_last(), name)
    }
}

/// The functions of a list of items: the first of each name.
pub open spec fn tc_funcs(items: Seq<Item>) -> Seq<FnT>
    decreases items.len(),
{
    if items.len() == 0 {
        Seq::empty()
    } else {
        let fs = tc_funcs(items.drop_last());
        match items.last() {
            Item::Function(f) => if find_fn(fs, f.signature.name@) is None {
                fs.push(sig_t(f.signature))
            } else {
                fs
            },
            Item::Type(_) => fs,
        }
    }
}

/// The constructors of the variants `vs` of item `i`, added to `cs` unless
/// one of that name is already there.
pub open spec fn add_ctors(cs: Seq<CtorT>, i: int, vs: Seq<Variant>) -> Seq<CtorT>
    decreases vs.len(),
{
    if vs.len() == 0 {
        cs
    } else {
        let c = add_ctors(cs, i, vs.drop_last());
        if find_ctor(c, vs.last().name@) is None {
            c.push(CtorT { name: vs.last().name@, item: i, variant: vs.len() - 1 })
        } else {
            c
        }
    }
}

/// The constructors of a list of items: the first of each name.
pub open spec fn tc_ctors(items: Seq<Item>) -> Seq<CtorT>
    decreases items.len(),
{
    if items.len() == 0 {
        Seq::empty()
    } else {
        let cs = tc_ctors(items.drop_last());
        match items.last() {
            Item::Type(d) => add_ctors(cs, items.len() - 1, d.variants@),
            Item::Function(_) => cs,
        }
    }
}

/// The sum types of a list of items, in order.
pub open spec fn tc_sums(items: Seq<Item>) -> Seq<SumT>
    decreases items.len(),
{
    if items.len() == 0 {
        Seq::empty()
    } else {
        let ss = tc_sums(items.drop_last());
        match items.last() {
            Item::Type(d) => ss.push(SumT { name: d.name@, variants: variant_names(d.variants@) }),
            Item::Function(_) => ss,
        }
    }
}

/// What the checker knows of a module's items.
pub open spec fn tcx_of(items: Seq<Item>) -> Tcx {
    Tcx { items, funcs: tc_funcs(items), sums: tc_sums(items), ctors: tc_ctors(items) }
}

/// The owner type of constructor `k`.
pub open spec fn ctor_owner(cx: Tcx, k: int) -> Seq<char> {
    cx.items[cx.ctors[k].item]->Type_0.name@
}

/// The generic parameters of the owner of constructor `k`.
pub open spec fn ctor_generics(cx: Tcx, k: int) -> Seq<Seq<char>> {
    names_view(cx.items[cx.ctors[k].item]->Type_0.generics@)
}

/// The written payload types of constructor `k`.
pub open spec fn ctor_fields(cx: Tcx, k: int) -> Seq<TypeExpr> {
    cx.items[cx.ctors[k].item]->Type_0.variants@[cx.ctors[k].variant].fields@
}

/// Whether `name` names a constructor.
pub open spec fn is_ctor_t(cx: Tcx, name: Seq<char>) -> bool {
    find_ctor(cx.ctors, name) is Some
}

/// The type of the latest binding of `name`.
pub open spec fn lookup_var(vars: Vars, name: Seq<char>) -> Option<Ty>
    decreases vars.len(),
{
    if vars.len() == 0 {
        None
    } else if vars.last().0 == name {
        Some(vars.last().1)
    } else {
        lookup_var(vars.drop_last(), name)
    }
}


// --- Generic payloads -------------------------------------------------------

/// Inferred generic arguments, first binding of each name first.
pub type Subst = Seq<(Seq<char>, Ty)>;

/// The latest binding of generic `name`.
pub open spec fn subst_get_t(s: Subst, name: Seq<char>) -> Option<Ty>
    decreases s.len(),
{
    if s.len() == 0 {
        None
    } else if s.last().0 == name {
        Some(s.last().1)
    } else {
        subst_get_t(s.drop_last(), name)
    }
}

/// Whether generic `name` is bound.
pub open spec fn subst_has_t(s: Subst, name: Seq<char>) -> bool {
    exists|i: int| 0 <= i < s.len() && #[trigger] s[i].0 == name
}

/// A payload field's written type with the generics replaced by what they
/// were inferred to be (`Infer` when nothing fixed them).
pub open spec fn field_t(te: TypeExpr, gens: Seq<Seq<char>>, s: Subst) -> Ty
    decreases te, 1int,
{
    if te.args@.len() == 0 && gens.contains(te.name@) {
        match subst_get_t(s, te.name@) {
            Some(t) => t,
            None => Ty::Infer,
        }
    } else if te.name@ == "Int"@ {
        Ty::Int
    } else if te.name@ == "Bool"@ {
        Ty::Bool
    } else if te.name@ == "Text"@ {
        Ty::Text
    } else if te.name@ == "Unit"@ {
        Ty::Unit
    } else {
        Ty::Named(te.name@, fields_t(te.args@, gens, s))
    }
}

/// `field_t` of each of a list.
pub open spec fn fields_t(ts: Seq<TypeExpr>, gens: Seq<Seq<char>>, s: Subst) -> Seq<Ty>
    decreases ts, 0int,
{
    if ts.len() == 0 {
        Seq::empty()
    } else {
        fields_t(ts.subrange(0, ts.len() - 1), gens, s).push(field_t(ts[ts.len() - 1], gens, s))
    }
}

/// Infer generics by matching a field's written type against an argument's
/// type; the first binding of a generic stays.
pub open spec fn unify_t(f: TypeExpr, arg: Ty, gens: Seq<Seq<char>>, s: Subst) -> Subst
    decreases f, 1int,
{
    if f.args@.len() == 0 && gens.contains(f.name@) {
        if subst_has_t(s, f.name@) {
            s
        } else {
            s.push((f.name@, arg))
        }
    } else {
        match arg {
            Ty::Named(n, a) => if n == f.name@ && a.len() == f.args@.len() {
                unify_all_t(f.args@, a, gens, s)
            } else {
                s
            },
            _ => s,
        }
    }
}

/// `unify_t` of each field against each argument, in order.
pub open spec fn unify_all_t(fs: Seq<TypeExpr>, args: Seq<Ty>, gens: Seq<Seq<char>>, s: Subst) -> Subst
    decreases fs, 0int,
{
    if fs.len() == 0 {
        s
    } else {
        unify_t(
            fs[fs.len() - 1],
            args[fs.len() - 1],
            gens,
            unify_all_t(fs.subrange(0, fs.len() - 1), args, gens, s),
        )
    }
}

/// The generics bound to a scrutinee's type arguments, position by position.
pub open spec fn zip_subst(gens: Seq<Seq<char>>, args: Seq<Ty>) -> Subst {
    Seq::new(gens.len(), |i: int| (gens[i], args[i]))
}

/// A variant's payload types instantiated against the matched value's type.
pub open spec fn instantiate_t(owner: Seq<char>, gens: Seq<Seq<char>>, fields: Seq<TypeExpr>, scr: Ty) -> Seq<Ty> {
    let s = match scr {
        Ty::Named(n, a) => if n == owner && a.len() == gens.len() {
            zip_subst(gens, a)
        } else {
            Seq::empty()
        },
        _ => Seq::empty(),
    };
    fields_t(fields, gens, s)
}

/// The payload types of constructor `k` against `ty`.
pub open spec fn ctor_fields_t(cx: Tcx, k: int, ty: Ty) -> Seq<Ty> {
    if 0 <= k < cx.ctors.len() {
        instantiate_t(ctor_owner(cx, k), ctor_generics(cx, k), ctor_fields(cx, k), ty)
    } else {
        Seq::empty()
    }
}

/// `n` undetermined types.
pub open spec fn infers(n: nat) -> Seq<Ty> {
    Seq::new(n, |i: int| Ty::Infer)
}

/// The smaller of two lengths.
pub open spec fn min_len(a: nat, b: nat) -> nat {
    if a < b {
        a
    } else {
        b
    }
}


// --- Operators, names and calls -------------------------------------------

/// `T0001` unless `actual` is compatible with `expected`.
pub open spec fn require_t(actual: Ty, expected: Ty, span: Span, what: Seq<char>) -> Seq<Diag> {
    if compat_t(actual, expected) {
        Seq::empty()
    } else {
        seq![("T0001"@, span, what + " must be `"@ + ty_text(expected) + "`, found `"@ + ty_text(actual) + "`"@)]
    }
}

/// The kind of value without defined `==` semantics, if `t` is one.
pub open spec fn uncomparable_t(t: Ty) -> Option<Seq<char>> {
    match t {
        Ty::Fn(_, _) => Some("functions"@),
        Ty::Unit => Some("`Unit` values"@),
        Ty::Named(n, _) => if n == "Cap"@ {
            Some("capabilities"@)
        } else {
            None
        },
        _ => None,
    }
}

/// A binary operator over operands of types `lt` and `rt`.
#[verifier::opaque]
pub open spec fn binary_t(op: BinaryOp, lt: Ty, rt: Ty, span: Span) -> (Ty, Seq<Diag>) {
    match op {
        BinaryOp::Add | BinaryOp::Sub | BinaryOp::Mul | BinaryOp::Div | BinaryOp::Rem => (
            Ty::Int,
            require_t(lt, Ty::Int, span, "left operand"@) + require_t(rt, Ty::Int, span, "right operand"@),
        ),
        BinaryOp::Lt | BinaryOp::Le | BinaryOp::Gt | BinaryOp::Ge => (
            Ty::Bool,
            require_t(lt, Ty::Int, span, "left operand"@) + require_t(rt, Ty::Int, span, "right operand"@),
        ),
        BinaryOp::Eq | BinaryOp::Ne => (
            Ty::Bool,
            match uncomparable_t(lt) {
                Some(k) => seq![("T0017"@, span, "cannot compare "@ + k + ": `==`/`!=` has no defined semantics for `"@ + ty_text(lt) + "`"@)],
                None => match uncomparable_t(rt) {
                    Some(k) => seq![("T0017"@, span, "cannot compare "@ + k + ": `==`/`!=` has no defined semantics for `"@ + ty_text(rt) + "`"@)],
                    None => if compat_t(lt, rt) {
                        Seq::empty()
                    } else {
                        seq![("T0001"@, span, "cannot compare `"@ + ty_text(lt) + "` with `"@ + ty_text(rt) + "`: operands must have the same type"@)]
                    },
                },
            },
        ),
        BinaryOp::And | BinaryOp::Or => (
            Ty::Bool,
            require_t(lt, Ty::Bool, span, "left operand"@) + require_t(rt, Ty::Bool, span, "right operand"@),
        ),
    }
}

/// A name used as a value: a variable, a nullary constructor, or a pure
/// function.
#[verifier::opaque]
pub open spec fn identifier_t(cx: Tcx, vars: Vars, name: Seq<char>, span: Span) -> (Ty, Seq<Diag>) {
    match lookup_var(vars, name) {
        Some(t) => (t, Seq::empty()),
        None => match find_ctor(cx.ctors, name) {
            Some(k) => (
                Ty::Named(ctor_owner(cx, k), infers(ctor_generics(cx, k).len())),
                if ctor_fields(cx, k).len() != 0 {
                    seq![("T0004"@, span, "constructor `"@ + name + "` expects "@ + decimal(ctor_fields(cx, k).len()) + " argument(s), found 0"@)]
                } else {
                    Seq::empty()
                },
            ),
            None => match find_fn(cx.funcs, name) {
                Some(k) => (
                    Ty::Fn(cx.funcs[k].params, Box::new(cx.funcs[k].ret)),
                    if cx.funcs[k].pure_fn {
                        Seq::empty()
                    } else {
                        seq![("T0015"@, span, "function `"@ + name + "` performs effects, so it cannot be used as a value (only pure functions can)"@)]
                    },
                ),
                None => (Ty::Error, seq![("T0002"@, span, "unknown variable `"@ + name + "`"@)]),
            },
        },
    }
}

/// `T0001` for each of the first `n` arguments whose type does not fit its
/// parameter.
pub open spec fn arg_list_t(what: Seq<char>, params: Seq<Ty>, ats: Seq<Ty>, args: Seq<Expr>, n: nat) -> Seq<Diag>
    decreases n,
{
    if n == 0 {
        Seq::empty()
    } else {
        let i = n - 1;
        arg_list_t(what, params, ats, args, i as nat) + if compat_t(params[i], ats[i]) {
            Seq::empty()
        } else {
            seq![(
                "T0001"@,
                args[i].spec_span(),
                "argument "@ + decimal(n) + " to "@ + what + ": expected `"@ + ty_text(params[i]) + "`, found `"@ + ty_text(ats[i]) + "`"@,
            )]
        }
    }
}

/// The arity of a call, then each argument against its parameter.
#[verifier::opaque]
pub open spec fn arg_types_t(what: Seq<char>, params: Seq<Ty>, ats: Seq<Ty>, args: Seq<Expr>, span: Span) -> Seq<Diag> {
    (if ats.len() != params.len() {
        seq![("T0004"@, span, what + " expects "@ + decimal(params.len()) + " argument(s), found "@ + decimal(ats.len()))]
    } else {
        Seq::empty()
    }) + arg_list_t(what, params, ats, args, min_len(params.len(), ats.len()))
}

/// The authority `A` of a capability type `Cap<A>`.
pub open spec fn cap_authority_t(t: Ty) -> Option<Seq<char>> {
    match t {
        Ty::Named(n, a) => if n == "Cap"@ && a.len() > 0 {
            match a[0] {
                Ty::Named(x, _) => Some(x),
                _ => None,
            }
        } else {
            None
        },
        _ => None,
    }
}

/// `grant<A>(cap)`: narrowing a capability to authority `A`, from the root
/// capability or as an identity.
#[verifier::opaque]
pub open spec fn grant_t(type_args: Seq<TypeExpr>, ats: Seq<Ty>, span: Span) -> (Ty, Seq<Diag>) {
    if type_args.len() != 1 {
        (Ty::Error, seq![("T0008"@, span, "`grant` needs exactly one type argument, found "@ + decimal(type_args.len()))])
    } else if ats.len() != 1 {
        (Ty::Error, seq![("T0004"@, span, "`grant` expects 1 argument, found "@ + decimal(ats.len()))])
    } else {
        let target = type_args[0].name@;
        (
            Ty::Named("Cap"@, seq![resolve_t(type_args[0])]),
            match cap_authority_t(ats[0]) {
                Some(source) => if source == "Root"@ || source == target {
                    Seq::empty()
                } else {
                    seq![("T0009"@, span, "cannot narrow `Cap<"@ + source + ">` to `Cap<"@ + target + ">`: authority can only be shed, not amplified"@)]
                },
                None => seq![("T0009"@, span, "`grant` requires a capability argument, found `"@ + ty_text(ats[0]) + "`"@)],
            },
        )
    }
}

/// `sanitize(x, is_valid)`: `Tainted<T>` and a validator `fn(T) -> Bool`
/// give `Option<T>`.
#[verifier::opaque]
pub open spec fn sanitize_t(ats: Seq<Ty>, args: Seq<Expr>, span: Span) -> (Ty, Seq<Diag>) {
    if ats.len() != 2 {
        (
            Ty::Error,
            seq![(
                "T0004"@,
                span,
                "`sanitize` expects 2 arguments (a `Tainted<T>` and a validator `fn(T) -> Bool`), found "@ + decimal(ats.len()),
            )],
        )
    } else {
        let inner = match ats[0] {
            Ty::Named(n, a) => if n == "Tainted"@ && a.len() == 1 {
                a[0]
            } else {
                ats[0]
            },
            _ => ats[0],
        };
        let want = Ty::Fn(seq![inner], Box::new(Ty::Bool));
        (
            Ty::Named("Option"@, seq![inner]),
            if compat_t(ats[1], want) {
                Seq::empty()
            } else {
                seq![(
                    "T0001"@,
                    args[1].spec_span(),
                    "argument 2 to `sanitize`: expected a validator `"@ + ty_text(want) + "`, found `"@ + ty_text(ats[1]) + "`"@,
                )]
            },
        )
    }
}

/// The signature of a text built-in, if `name` is one.
pub open spec fn builtin_sig_t(name: Seq<char>) -> Option<(Seq<Ty>, Ty)> {
    if name == "concat"@ {
        Some((seq![Ty::Text, Ty::Text], Ty::Text))
    } else if name == "text_len"@ {
        Some((seq![Ty::Text], Ty::Int))
    } else if name == "char_at"@ {
        Some((seq![Ty::Text, Ty::Int], Ty::Text))
    } else if name == "substring"@ {
        Some((seq![Ty::Text, Ty::Int, Ty::Int], Ty::Text))
    } else if name == "char_code"@ {
        Some((seq![Ty::Text], Ty::Int))
    } else if name == "code_char"@ {
        Some((seq![Ty::Int], Ty::Text))
    } else {
        None
    }
}

/// `T0001` for each of the first `n` arguments of a built-in that does not
/// fit its parameter.
pub open spec fn builtin_args_t(name: Seq<char>, params: Seq<Ty>, ats: Seq<Ty>, args: Seq<Expr>, n: nat) -> Seq<Diag>
    decreases n,
{
    if n == 0 {
        Seq::empty()
    } else {
        let i = n - 1;
        builtin_args_t(name, params, ats, args, i as nat) + if compat_t(ats[i], params[i]) {
            Seq::empty()
        } else {
            seq![(
                "T0001"@,
                args[i].spec_span(),
                "argument "@ + decimal(n) + " to `"@ + name + "`: expected `"@ + ty_text(params[i]) + "`, found `"@ + ty_text(ats[i]) + "`"@,
            )]
        }
    }
}

/// A call of a built-in of fixed signature.
#[verifier::opaque]
pub open spec fn builtin_t(name: Seq<char>, params: Seq<Ty>, ret: Ty, ats: Seq<Ty>, args: Seq<Expr>, span: Span) -> (Ty, Seq<Diag>) {
    if ats.len() != params.len() {
        (ret, seq![("T0004"@, span, "`"@ + name + "` expects "@ + decimal(params.len()) + " argument(s), found "@ + decimal(ats.len()))])
    } else {
        (ret, builtin_args_t(name, params, ats, args, params.len()))
    }
}

/// `T0001` for each of the first `n` constructor arguments that does not fit
/// its instantiated field.
pub open spec fn ctor_args_t(name: Seq<char>, fields: Seq<TypeExpr>, gens: Seq<Seq<char>>, s: Subst, ats: Seq<Ty>, args: Seq<Expr>, n: nat) -> Seq<Diag>
    decreases n,
{
    if n == 0 {
        Seq::empty()
    } else {
        let i = n - 1;
        let expected = field_t(fields[i], gens, s);
        ctor_args_t(name, fields, gens, s, ats, args, i as nat) + if compat_t(expected, ats[i]) {
            Seq::empty()
        } else {
            seq![(
                "T0001"@,
                args[i].spec_span(),
                "constructor `"@ + name + "` argument "@ + decimal(n) + ": expected `"@ + ty_text(expected) + "`, found `"@ + ty_text(ats[i]) + "`"@,
            )]
        }
    }
}

/// The inferred generic arguments of a constructor call.
pub open spec fn targs_t(gens: Seq<Seq<char>>, s: Subst) -> Seq<Ty> {
    Seq::new(gens.len(), |i: int| match subst_get_t(s, gens[i]) {
        Some(t) => t,
        None => Ty::Infer,
    })
}

/// A constructor call: a value of its sum type, generic arguments inferred
/// from the payload.
#[verifier::opaque]
pub open spec fn ctor_call_t(cx: Tcx, name: Seq<char>, k: int, ats: Seq<Ty>, args: Seq<Expr>, span: Span) -> (Ty, Seq<Diag>) {
    let gens = ctor_generics(cx, k);
    let fields = ctor_fields(cx, k);
    let n = min_len(fields.len(), ats.len());
    let s = unify_all_t(fields.subrange(0, n as int), ats, gens, Seq::empty());
    (
        Ty::Named(ctor_owner(cx, k), targs_t(gens, s)),
        (if ats.len() != fields.len() {
            seq![("T0004"@, span, "constructor `"@ + name + "` expects "@ + decimal(fields.len()) + " argument(s), found "@ + decimal(ats.len()))]
        } else {
            Seq::empty()
        }) + ctor_args_t(name, fields, gens, s, ats, args, n),
    )
}

/// A call of the name `name`: a local function value, `grant`, `sanitize`,
/// a built-in (unless a function shadows it), a constructor, `print`
/// (unless shadowed), or a function of the module.
#[verifier::opaque]
pub open spec fn call_named_t(cx: Tcx, vars: Vars, name: Seq<char>, type_args: Seq<TypeExpr>, args: Seq<Expr>, ats: Seq<Ty>, span: Span) -> (Ty, Seq<Diag>) {
    let quoted = "`"@ + name + "`"@;
    match lookup_var(vars, name) {
        Some(t) => match t {
            Ty::Fn(ps, r) => (*r, arg_types_t(quoted, ps, ats, args, span)),
            _ => (Ty::Error, seq![("T0003"@, span, "`"@ + name + "` is not a function (it has type `"@ + ty_text(t) + "`) and cannot be called"@)]),
        },
        None => global_call_t(cx, name, type_args, args, ats, span),
    }
}

/// A call of a name that no local binds: `grant`, `sanitize`, a built-in
/// (unless a function shadows it), a constructor, `print` (unless shadowed),
/// or a function of the module.
#[verifier::opaque]
pub open spec fn global_call_t(cx: Tcx, name: Seq<char>, type_args: Seq<TypeExpr>, args: Seq<Expr>, ats: Seq<Ty>, span: Span) -> (Ty, Seq<Diag>) {
    let quoted = "`"@ + name + "`"@;
    if name == "grant"@ {
            grant_t(type_args, ats, span)
        } else if name == "sanitize"@ {
            sanitize_t(ats, args, span)
        } else if find_fn(cx.funcs, name) is None && builtin_sig_t(name) is Some {
            builtin_t(name, builtin_sig_t(name)->Some_0.0, builtin_sig_t(name)->Some_0.1, ats, args, span)
        } else if find_ctor(cx.ctors, name) is Some {
            ctor_call_t(cx, name, find_ctor(cx.ctors, name)->Some_0, ats, args, span)
        } else if name == "print"@ && find_fn(cx.funcs, name) is None {
            (
                Ty::Unit,
                if ats.len() != 1 {
                    seq![("T0004"@, span, "`print` expects 1 argument, found "@ + decimal(ats.len()))]
                } else {
                    Seq::empty()
                },
            )
        } else {
            match find_fn(cx.funcs, name) {
                Some(k) => {
                    let f = cx.funcs[k];
                    (
                        f.ret,
                        (if ats.len() != f.params.len() {
                            seq![(
                                "T0004"@,
                                span,
                                "function `"@ + name + "` expects "@ + decimal(f.params.len()) + " argument(s), found "@ + decimal(ats.len()),
                            )]
                        } else {
                            Seq::empty()
                        }) + arg_list_t(quoted, f.params, ats, args, min_len(f.params.len(), ats.len())),
                    )
                },
                None => (Ty::Error, seq![("T0003"@, span, "unknown function `"@ + name + "`"@)]),
            }
        }
}

/// A call: only a named callee can be called; a member callee is left to
/// the resolution pass.
#[verifier::opaque]
pub open spec fn call_t(cx: Tcx, vars: Vars, callee: Expr, type_args: Seq<TypeExpr>, args: Seq<Expr>, ats: Seq<Ty>, span: Span) -> (Ty, Seq<Diag>) {
    match callee {
        Expr::Identifier { name, .. } => call_named_t(cx, vars, name@, type_args, args, ats, span),
        Expr::Member { .. } => (Ty::Error, Seq::empty()),
        _ => (Ty::Error, seq![("T0003"@, span, "only named functions can be called"@)]),
    }
}


// --- Patterns ---------------------------------------------------------------

/// `T0013` for a binder named twice in one pattern; `seen` are the binders
/// met so far.
pub open spec fn binders_t(cx: Tcx, p: Pattern, seen: Seq<Seq<char>>) -> (Seq<Seq<char>>, Seq<Diag>)
    decreases p, 1int,
{
    match p {
        Pattern::Wildcard { .. } => (seen, Seq::empty()),
        Pattern::Ident { name, span } => if is_ctor_t(cx, name@) {
            (seen, Seq::empty())
        } else if seen.contains(name@) {
            (seen, seq![("T0013"@, span, "binding `"@ + name@ + "` appears more than once in this pattern"@)])
        } else {
            (seen.push(name@), Seq::empty())
        },
        Pattern::Variant { args, .. } => binders_list_t(cx, args@, seen),
    }
}

/// `binders_t` of each sub-pattern, in order.
pub open spec fn binders_list_t(cx: Tcx, ps: Seq<Pattern>, seen: Seq<Seq<char>>) -> (Seq<Seq<char>>, Seq<Diag>)
    decreases ps, 0int,
{
    if ps.len() == 0 {
        (seen, Seq::empty())
    } else {
        let (s1, d1) = binders_list_t(cx, ps.subrange(0, ps.len() - 1), seen);
        let (s2, d2) = binders_t(cx, ps[ps.len() - 1], s1);
        (s2, d1 + d2)
    }
}

/// Bind every variable a pattern introduces at its expected type.
pub open spec fn bind_pattern_t(cx: Tcx, p: Pattern, expected: Ty, vars: Vars) -> Vars
    decreases p, 1int,
{
    match p {
        Pattern::Wildcard { .. } => vars,
        Pattern::Ident { name, .. } => if is_ctor_t(cx, name@) {
            vars
        } else {
            vars.push((name@, expected))
        },
        Pattern::Variant { name, args, .. } => match find_ctor(cx.ctors, name@) {
            Some(k) => bind_sub_t(cx, args@, ctor_fields_t(cx, k, expected), vars),
            None => bind_sub_t(cx, args@, Seq::empty(), vars),
        },
    }
}

/// Bind each sub-pattern at its field type (`Error` beyond the fields).
pub open spec fn bind_sub_t(cx: Tcx, ps: Seq<Pattern>, fts: Seq<Ty>, vars: Vars) -> Vars
    decreases ps, 0int,
{
    if ps.len() == 0 {
        vars
    } else {
        let i = ps.len() - 1;
        bind_pattern_t(cx, ps[i], if i < fts.len() { fts[i] } else { Ty::Error }, bind_sub_t(cx, ps.subrange(0, i), fts, vars))
    }
}

/// Whether a variant pattern of `owner` may match a value of type `scr`
/// (`T0012` otherwise).
#[verifier::opaque]
pub open spec fn variant_ok_t(owner: Seq<char>, scr: Ty, pname: Seq<char>, span: Span) -> (bool, Seq<Diag>) {
    if (scr matches Ty::Named(n, _) && n == owner) || scr is Error || scr is Infer {
        (true, Seq::empty())
    } else {
        (
            false,
            seq![(
                "T0012"@,
                span,
                "pattern `"@ + pname + "` belongs to type `"@ + owner + "`, but the matched value has type `"@ + ty_text(scr) + "`"@,
            )],
        )
    }
}

/// What an arm's pattern covers: the variants it names, whether it catches
/// everything, the environment with its binders, and its diagnostics.
#[verifier::opaque]
pub open spec fn collect_t(cx: Tcx, p: Pattern, scr: Ty, vars: Vars) -> (Seq<Seq<char>>, bool, Vars, Seq<Diag>) {
    match p {
        Pattern::Wildcard { .. } => (Seq::empty(), true, vars, Seq::empty()),
        Pattern::Ident { name, span } => match find_ctor(cx.ctors, name@) {
            Some(k) => {
                let (ok, d) = variant_ok_t(ctor_owner(cx, k), scr, name@, span);
                (if ok { seq![name@] } else { Seq::empty() }, false, vars, d)
            },
            None => (Seq::empty(), true, vars.push((name@, scr)), Seq::empty()),
        },
        Pattern::Variant { name, args, span } => match find_ctor(cx.ctors, name@) {
            Some(k) => {
                let (ok, d) = variant_ok_t(ctor_owner(cx, k), scr, name@, span);
                if ok {
                    (seq![name@], false, bind_sub_t(cx, args@, ctor_fields_t(cx, k, scr), vars), d)
                } else {
                    (Seq::empty(), false, bind_sub_t(cx, args@, Seq::empty(), vars), d)
                }
            },
            None => (Seq::empty(), false, bind_sub_t(cx, args@, Seq::empty(), vars), Seq::empty()),
        },
    }
}

/// The variants of `vs` that `covered` misses, in order.
pub open spec fn missing_t(vs: Seq<Seq<char>>, covered: Seq<Seq<char>>) -> Seq<Seq<char>>
    decreases vs.len(),
{
    if vs.len() == 0 {
        Seq::empty()
    } else {
        missing_t(vs.drop_last(), covered) + if covered.contains(vs.last()) {
            Seq::empty()
        } else {
            seq![vs.last()]
        }
    }
}

/// Variant names in backticks, separated by commas.
pub open spec fn missing_text(ms: Seq<Seq<char>>) -> Seq<char>
    decreases ms.len(),
{
    if ms.len() == 0 {
        Seq::empty()
    } else if ms.len() == 1 {
        "`"@ + ms[0] + "`"@
    } else {
        missing_text(ms.drop_last()) + ", `"@ + ms.last() + "`"@
    }
}

// --- Expressions ------------------------------------------------------------

/// The type of an expression and what checking it reports.
pub open spec fn expr_t(cx: Tcx, vars: Vars, e: Expr) -> (Ty, Seq<Diag>)
    decreases e, 3int,
{
    match e {
        Expr::Literal(lit) => (
            match lit.kind {
                LiteralKind::Int(_) => Ty::Int,
                LiteralKind::Bool(_) => Ty::Bool,
                LiteralKind::Text(_) => Ty::Text,
            },
            Seq::empty(),
        ),
        Expr::Identifier { name, span } => identifier_t(cx, vars, name@, span),
        Expr::Unary { op, operand, span } => {
            let (t, d) = expr_t(cx, vars, *operand);
            match op {
                UnaryOp::Neg => (Ty::Int, d + require_t(t, Ty::Int, span, "operand of `-`"@)),
                UnaryOp::Not => (Ty::Bool, d + require_t(t, Ty::Bool, span, "operand of `!`"@)),
            }
        },
        Expr::Binary { op, left, right, span } => {
            let (lt, d1) = expr_t(cx, vars, *left);
            let (rt, d2) = expr_t(cx, vars, *right);
            let (t, d3) = binary_t(op, lt, rt, span);
            (t, d1 + d2 + d3)
        },
        Expr::Call { callee, type_args, args, span } => {
            let (ats, d1) = args_t(cx, vars, args@);
            let (t, d2) = call_t(cx, vars, *callee, type_args@, args@, ats, span);
            (t, d1 + d2)
        },
        Expr::Match { scrutinee, arms, span } => {
            let (st, d1) = expr_t(cx, vars, *scrutinee);
            let (t, d2) = match_t(cx, vars, st, arms@, span);
            (t, d1 + d2)
        },
        Expr::Member { .. } => (Ty::Error, Seq::empty()),
    }
}

/// The types of a list of expressions, left to right.
pub open spec fn args_t(cx: Tcx, vars: Vars, xs: Seq<Expr>) -> (Seq<Ty>, Seq<Diag>)
    decreases xs, 2int,
{
    if xs.len() == 0 {
        (Seq::empty(), Seq::empty())
    } else {
        let (ts, d1) = args_t(cx, vars, xs.subrange(0, xs.len() - 1));
        let (t, d2) = expr_t(cx, vars, xs[xs.len() - 1]);
        (ts.push(t), d1 + d2)
    }
}

/// The arms of a `match`, in order: the variants covered, whether one
/// catches everything, the first arm's type, and the diagnostics.
pub open spec fn arms_t(cx: Tcx, vars: Vars, scr: Ty, arms: Seq<MatchArm>) -> (Seq<Seq<char>>, bool, Option<Ty>, Seq<Diag>)
    decreases arms, 1int,
{
    if arms.len() == 0 {
        (Seq::empty(), false, None, Seq::empty())
    } else {
        let (cov, all, res, d) = arms_t(cx, vars, scr, arms.subrange(0, arms.len() - 1));
        let a = arms[arms.len() - 1];
        let (cadd, call, bt, da) = arm_t(cx, vars, scr, a);
        let (res2, dr) = match res {
            None => (Some(bt), Seq::empty()),
            Some(prev) => (
                Some(prev),
                if compat_t(prev, bt) {
                    Seq::empty()
                } else {
                    seq![(
                        "T0001"@,
                        a.body.spec_span(),
                        "match arms have mismatched types: `"@ + ty_text(prev) + "` vs `"@ + ty_text(bt) + "`"@,
                    )]
                },
            ),
        };
        (cov + cadd, all || call, res2, d + da + dr)
    }
}

/// One arm of a `match`: its binders must be distinct; its pattern covers
/// variants (or everything) and binds variables for its body. Gives what it
/// covers, whether it catches everything, its body's type and diagnostics.
pub open spec fn arm_t(cx: Tcx, vars: Vars, scr: Ty, a: MatchArm) -> (Seq<Seq<char>>, bool, Ty, Seq<Diag>)
    decreases a, 0int,
{
    let (_, db) = binders_t(cx, a.pattern, Seq::empty());
    let (cadd, call, vars2, dc) = collect_t(cx, a.pattern, scr, vars);
    let (bt, de) = expr_t(cx, vars2, a.body);
    (cadd, call, bt, db + dc + de)
}

/// A `match`: its arms, then `T0006` when a match on a sum type without a
/// catch-all misses a variant. Its type is that of its first arm.
pub open spec fn match_t(cx: Tcx, vars: Vars, scr: Ty, arms: Seq<MatchArm>, span: Span) -> (Ty, Seq<Diag>)
    decreases arms, 2int,
{
    let (cov, all, res, d) = arms_t(cx, vars, scr, arms);
    let sum = match scr {
        Ty::Named(n, _) => find_sum(cx.sums, n),
        _ => None,
    };
    let dx = match sum {
        Some(k) => if !all && 0 <= k < cx.sums.len() && missing_t(cx.sums[k].variants, cov).len() > 0 {
            seq![(
                "T0006"@,
                span,
                "non-exhaustive match on `"@ + cx.sums[k].name + "`: missing "@ + missing_text(missing_t(cx.sums[k].variants, cov)),
            )]
        } else {
            Seq::empty()
        },
        None => Seq::empty(),
    };
    (
        match res {
            Some(t) => t,
            None => Ty::Error,
        },
        d + dx,
    )
}

// --- Statements and functions -------------------------------------------

/// A statement: the environment after it, and what it reports. `ret` is the
/// enclosing function's return type.
pub open spec fn stmt_t(cx: Tcx, vars: Vars, ret: Ty, s: Stmt) -> (Vars, Seq<Diag>)
    decreases s, 1int,
{
    match s {
        Stmt::Let { name, ty, value, .. } => {
            let (vt, d) = expr_t(cx, vars, value);
            match ty {
                Some(annot) => {
                    let declared = resolve_t(annot);
                    (
                        vars.push((name@, declared)),
                        d + if compat_t(declared, vt) {
                            Seq::empty()
                        } else {
                            seq![(
                                "T0001"@,
                                value.spec_span(),
                                "type mismatch: binding `"@ + name@ + "` is `"@ + ty_text(declared) + "` but its value is `"@ + ty_text(vt) + "`"@,
                            )]
                        },
                    )
                },
                None => (vars.push((name@, vt)), d),
            }
        },
        Stmt::Expr(e) => (vars, expr_t(cx, vars, e).1),
        Stmt::Return { value, span } => {
            let (t, d) = match value {
                Some(e) => expr_t(cx, vars, e),
                None => (Ty::Unit, Seq::empty()),
            };
            (
                vars,
                d + if compat_t(t, ret) {
                    Seq::empty()
                } else {
                    seq![("T0005"@, span, "return type mismatch: expected `"@ + ty_text(ret) + "`, found `"@ + ty_text(t) + "`"@)]
                },
            )
        },
        Stmt::If { cond, then_block, else_block, .. } => {
            let (ct, d1) = expr_t(cx, vars, cond);
            let d2 = if compat_t(ct, Ty::Bool) {
                Seq::empty()
            } else {
                seq![("T0001"@, cond.spec_span(), "`if` condition must be `Bool`, found `"@ + ty_text(ct) + "`"@)]
            };
            let d3 = block_t(cx, vars, ret, then_block.stmts@);
            let d4 = match else_block {
                Some(b) => block_t(cx, vars, ret, b.stmts@),
                None => Seq::empty(),
            };
            (vars, d1 + d2 + d3 + d4)
        },
        Stmt::Check { predicate, span, .. } => {
            let (t, d) = expr_t(cx, vars, predicate);
            (
                vars,
                d + if compat_t(t, Ty::Bool) {
                    Seq::empty()
                } else {
                    seq![("T0007"@, span, "check predicate must be `Bool`, found `"@ + ty_text(t) + "`"@)]
                },
            )
        },
    }
}

/// A list of statements, each in the environment the previous ones left.
pub open spec fn stmts_t(cx: Tcx, vars: Vars, ret: Ty, ss: Seq<Stmt>) -> (Vars, Seq<Diag>)
    decreases ss, 0int,
{
    if ss.len() == 0 {
        (vars, Seq::empty())
    } else {
        let (v1, d1) = stmts_t(cx, vars, ret, ss.subrange(0, ss.len() - 1));
        let (v2, d2) = stmt_t(cx, v1, ret, ss[ss.len() - 1]);
        (v2, d1 + d2)
    }
}

/// A block: its statements in a scope of their own.
pub open spec fn block_t(cx: Tcx, vars: Vars, ret: Ty, ss: Seq<Stmt>) -> Seq<Diag>
    decreases ss, 1int,
{
    stmts_t(cx, vars, ret, ss).1
}

/// Contract predicates must be `Bool` (`T0007`).
pub open spec fn clauses_t(cx: Tcx, vars: Vars, cs: Seq<Contract>, clause: Seq<char>) -> Seq<Diag>
    decreases cs.len(),
{
    if cs.len() == 0 {
        Seq::empty()
    } else {
        let c = cs.last();
        let (t, d) = expr_t(cx, vars, c.predicate);
        clauses_t(cx, vars, cs.drop_last(), clause) + d + if compat_t(t, Ty::Bool) {
            Seq::empty()
        } else {
            seq![("T0007"@, c.predicate.spec_span(), "`"@ + clause + "` predicate must be `Bool`, found `"@ + ty_text(t) + "`"@)]
        }
    }
}

/// The parameters of a function as an environment.
pub open spec fn params_vars(ps: Seq<Param>) -> Vars {
    ps.map_values(|p: Param| (p.name@, resolve_t(p.ty)))
}

/// A function's contracts: `requires` over the parameters, `ensures` also
/// over `result`.
#[verifier::opaque]
pub open spec fn contracts_t(cx: Tcx, sig: Signature) -> Seq<Diag> {
    let vars = params_vars(sig.params@);
    clauses_t(cx, vars, sig.requires@, "requires"@) + if sig.ensures@.len() > 0 {
        clauses_t(cx, vars.push(("result"@, ret_t(sig))), sig.ensures@, "ensures"@)
    } else {
        Seq::empty()
    }
}

/// `T0018` for each parameter named `result`.
pub open spec fn result_params_t(ps: Seq<Param>) -> Seq<Diag>
    decreases ps.len(),
{
    if ps.len() == 0 {
        Seq::empty()
    } else {
        result_params_t(ps.drop_last()) + if ps.last().name@ == "result"@ {
            seq![(
                "T0018"@,
                ps.last().span,
                "`result` is reserved in a function with an `ensures` clause (it names the returned value): rename this parameter"@,
            )]
        } else {
            Seq::empty()
        }
    }
}

/// `T0018` for each local named `result`, through `if` blocks.
pub open spec fn result_locals_t(ss: Seq<Stmt>) -> Seq<Diag>
    decreases ss, 0int,
{
    if ss.len() == 0 {
        Seq::empty()
    } else {
        result_locals_t(ss.subrange(0, ss.len() - 1)) + result_local_t(ss[ss.len() - 1])
    }
}

/// `T0018` for a local named `result` in one statement.
pub open spec fn result_local_t(s: Stmt) -> Seq<Diag>
    decreases s, 1int,
{
    match s {
        Stmt::Let { name, span, .. } => if name@ == "result"@ {
            seq![(
                "T0018"@,
                span,
                "`result` is reserved in a function with an `ensures` clause (it names the returned value): rename this local"@,
            )]
        } else {
            Seq::empty()
        },
        Stmt::If { then_block, else_block, .. } => result_locals_t(then_block.stmts@) + match else_block {
            Some(b) => result_locals_t(b.stmts@),
            None => Seq::empty(),
        },
        _ => Seq::empty(),
    }
}

/// In a function with an `ensures` clause, `result` is reserved.
pub open spec fn result_reserved_t(f: Function) -> Seq<Diag> {
    if f.signature.ensures@.len() == 0 {
        Seq::empty()
    } else {
        result_params_t(f.signature.params@) + result_locals_t(f.body.stmts@)
    }
}

/// `T0016` when a function declared `-> T` may fall off its end.
pub open spec fn missing_return_t(f: Function) -> Seq<Diag> {
    let ret = ret_t(f.signature);
    if ret is Unit || ret is Error || ret is Infer || stmts_always_return(f.body.stmts@) {
        Seq::empty()
    } else {
        seq![(
            "T0016"@,
            f.signature.span,
            "function `"@ + f.signature.name@ + "` may fall off the end without returning its `"@ + ty_text(ret)
                + "`: add a `return` on every path"@,
        )]
    }
}

/// What checking one function reports: its contracts, the reserved name,
/// its body, and a missing `return`.
#[verifier::opaque]
pub open spec fn function_t(cx: Tcx, f: Function) -> Seq<Diag> {
    contracts_t(cx, f.signature) + result_reserved_t(f) + block_t(cx, params_vars(f.signature.params@), ret_t(f.signature), f.body.stmts@)
        + missing_return_t(f)
}

/// What checking the functions of `fs` reports, in order.
pub open spec fn functions_t(cx: Tcx, fs: Seq<Item>) -> Seq<Diag>
    decreases fs.len(),
{
    if fs.len() == 0 {
        Seq::empty()
    } else {
        functions_t(cx, fs.drop_last()) + match fs.last() {
            Item::Function(f) => function_t(cx, f),
            Item::Type(_) => Seq::empty(),
        }
    }
}

/// The types of the binary operators: the five arithmetic operators give an
/// `Int`, the orderings, `==`/`!=` and the logical ones a `Bool`. Given the
/// operands they expect (two `Int`s for arithmetic and orderings, two
/// `Bool`s for `&&`/`||`, two values of one of `Int`, `Bool`, `Text` for
/// equality) none of them reports anything.
pub proof fn law_binary_operator_types(op: BinaryOp, lt: Ty, rt: Ty, span: Span)
    ensures
        (op is Add || op is Sub || op is Mul || op is Div || op is Rem) ==> binary_t(op, lt, rt, span).0 == Ty::Int,
        (op is Lt || op is Le || op is Gt || op is Ge || op is Eq || op is Ne || op is And || op is Or) ==> binary_t(
            op,
            lt,
            rt,
            span,
        ).0 == Ty::Bool,
        (op is Add || op is Sub || op is Mul || op is Div || op is Rem || op is Lt || op is Le || op is Gt || op is Ge) && lt
            == Ty::Int && rt == Ty::Int ==> binary_t(op, lt, rt, span).1.len() == 0,
        (op is And || op is Or) && lt == Ty::Bool && rt == Ty::Bool ==> binary_t(op, lt, rt, span).1.len() == 0,
        (op is Eq || op is Ne) && lt == rt && (lt is Int || lt is Bool || lt is Text) ==> binary_t(op, lt, rt, span).1.len() == 0,
        (op is Add || op is Sub || op is Mul || op is Div || op is Rem) && lt == Ty::Int && rt == Ty::Bool ==> binary_t(
            op,
            lt,
            rt,
            span,
        ).1.len() == 1,
{
    reveal(binary_t);
}

/// An integer expression built from `Int` literals with `-` and the five
/// arithmetic operators.
pub open spec fn int_arith_expr(e: Expr) -> bool
    decreases e,
{
    match e {
        Expr::Literal(lit) => lit.kind is Int,
        Expr::Unary { op, operand, .. } => op is Neg && int_arith_expr(*operand),
        Expr::Binary { op, left, right, .. } => (op is Add || op is Sub || op is Mul || op is Div || op is Rem)
            && int_arith_expr(*left) && int_arith_expr(*right),
        _ => false,
    }
}

/// Integer arithmetic is well typed: every expression built from `Int`
/// literals with `-`, `+`, `-`, `*`, `/` and `%` has type `Int` with nothing
/// to report, in any context, and an ordering or equality of two of them is a
/// `Bool`, again with nothing to report.
pub proof fn law_integer_arithmetic_is_well_typed(cx: Tcx, vars: Vars, e: Expr)
    requires
        int_arith_expr(e),
    ensures
        expr_t(cx, vars, e) == (Ty::Int, Seq::<Diag>::empty()),
    decreases e,
{
    reveal(binary_t);
    match e {
        Expr::Unary { operand, span, .. } => {
            law_integer_arithmetic_is_well_typed(cx, vars, *operand);
            assert(Seq::<Diag>::empty() + require_t(Ty::Int, Ty::Int, span, "operand of `-`"@) =~= Seq::<Diag>::empty());
        },
        Expr::Binary { op, left, right, span } => {
            law_integer_arithmetic_is_well_typed(cx, vars, *left);
            law_integer_arithmetic_is_well_typed(cx, vars, *right);
            assert(Seq::<Diag>::empty() + Seq::<Diag>::empty() + binary_t(op, Ty::Int, Ty::Int, span).1 =~= Seq::<Diag>::empty());
        },
        _ => {},
    }
}

/// An ordering or equality between two integer expressions is a `Bool` with
/// nothing to report.
pub proof fn law_integer_comparison_is_well_typed(cx: Tcx, vars: Vars, op: BinaryOp, l: Expr, r: Expr, span: Span)
    requires
        int_arith_expr(l),
        int_arith_expr(r),
        op is Lt || op is Le || op is Gt || op is Ge || op is Eq || op is Ne,
    ensures
        expr_t(cx, vars, Expr::Binary { op, left: Box::new(l), right: Box::new(r), span }) == (Ty::Bool, Seq::<Diag>::empty()),
{
    reveal(binary_t);
    law_integer_arithmetic_is_well_typed(cx, vars, l);
    law_integer_arithmetic_is_well_typed(cx, vars, r);
    assert(Seq::<Diag>::empty() + Seq::<Diag>::empty() + binary_t(op, Ty::Int, Ty::Int, span).1 =~= Seq::<Diag>::empty());
}

} // verus!
