//! The capability pass: `Cap<T>` tokens are parameter-only and second-class.
//!
//! A capability cannot be constructed in user code, so the only way one
//! exists is as a parameter (or narrowed from one by `grant`). It may be
//! forwarded as an argument but never escape upward or be stashed: returning a
//! capability (`E0201`, including wrapped in another type such as
//! `Option<Cap<Write>>`) and binding one to a local (`E0202`) are refused.

use vstd::prelude::*;
use crate::ast::{Expr, Function, Item, MatchArm, Module, Param, Stmt, TypeExpr, Variant};
use crate::calls::{occurs_in, occurs_in_stmt};
use crate::diagnostic::{errors_as, lemma_errors_append, push_error, Diagnostic};
use crate::span::Span;
use crate::text::{owned, push_str, string_is};

verus! {

/// Whether a written type is a capability type.
pub open spec fn is_cap_type(ty: TypeExpr) -> bool {
    ty.name@ == "Cap"@
}

/// Whether a written type contains a capability anywhere in its structure.
pub open spec fn contains_cap(ty: TypeExpr) -> bool
    decreases ty, 1int,
{
    is_cap_type(ty) || any_contains_cap(ty.args@)
}

/// Whether any of a list of written types contains a capability.
pub open spec fn any_contains_cap(ts: Seq<TypeExpr>) -> bool
    decreases ts, 0int,
{
    if ts.len() == 0 {
        false
    } else {
        any_contains_cap(ts.subrange(0, ts.len() - 1)) || contains_cap(ts[ts.len() - 1])
    }
}

/// Whether some sum type of the module declares a variant named `name`.
pub open spec fn is_ctor(items: Seq<Item>, name: Seq<char>) -> bool {
    exists|i: int| 0 <= i < items.len() && declares_variant(#[trigger] items[i], name)
}

/// Whether an item is a sum type with a variant named `name`.
pub open spec fn declares_variant(item: Item, name: Seq<char>) -> bool {
    match item {
        Item::Type(d) => exists|j: int| 0 <= j < d.variants@.len() && #[trigger] d.variants@[j].name@ == name,
        Item::Function(_) => false,
    }
}

/// Whether `name` is a capability parameter of the list.
pub open spec fn is_cap_param(ps: Seq<Param>, name: Seq<char>) -> bool {
    exists|i: int| 0 <= i < ps.len() && is_cap_type(#[trigger] ps[i].ty) && ps[i].name@ == name
}

/// Whether an expression evaluates to a value containing a capability: a
/// capability parameter, a `grant<..>(..)` call, a constructor applied to a
/// capability expression, or a `match` with such an arm.
pub open spec fn is_cap_expr(items: Seq<Item>, ps: Seq<Param>, e: Expr) -> bool
    decreases e, 1int,
{
    match e {
        Expr::Identifier { name, .. } => is_cap_param(ps, name@),
        Expr::Call { callee, args, .. } => match *callee {
            Expr::Identifier { name, .. } => if name@ == "grant"@ {
                true
            } else if is_ctor(items, name@) {
                any_cap_expr(items, ps, args@)
            } else {
                false
            },
            _ => false,
        },
        Expr::Match { arms, .. } => any_cap_arm(items, ps, arms@),
        _ => false,
    }
}

/// Whether any expression of the list is a capability expression.
pub open spec fn any_cap_expr(items: Seq<Item>, ps: Seq<Param>, es: Seq<Expr>) -> bool
    decreases es, 0int,
{
    if es.len() == 0 {
        false
    } else {
        any_cap_expr(items, ps, es.subrange(0, es.len() - 1)) || is_cap_expr(items, ps, es[es.len() - 1])
    }
}

/// Whether any arm body of the list is a capability expression.
pub open spec fn any_cap_arm(items: Seq<Item>, ps: Seq<Param>, arms: Seq<MatchArm>) -> bool
    decreases arms, 0int,
{
    if arms.len() == 0 {
        false
    } else {
        proof {
            assert(decreases_to!(arms[arms.len() - 1] => arms[arms.len() - 1].body));
        }
        any_cap_arm(items, ps, arms.subrange(0, arms.len() - 1)) || is_cap_expr(
            items,
            ps,
            arms[arms.len() - 1].body,
        )
    }
}

/// The message for returning a capability value.
pub open spec fn returned_msg() -> Seq<char> {
    "a capability cannot be returned: `Cap<..>` is second-class"@
}

/// The message for a capability in a return type.
pub open spec fn return_type_msg() -> Seq<char> {
    "a capability cannot be returned: `Cap<..>` is second-class (authority only flows downward, through parameters)"@
}

/// The message for binding a capability to a local.
pub open spec fn bound_msg(name: Seq<char>) -> Seq<char> {
    "capability `"@ + name
        + "` cannot be bound to a local: capabilities enter scope only as parameters and are passed on directly as arguments"@
}

/// The diagnostics of one statement (recursing into `if` blocks).
pub open spec fn cap_stmt_diags(items: Seq<Item>, ps: Seq<Param>, s: Stmt) -> Seq<(Seq<char>, Span, Seq<char>)>
    decreases s, 1int,
{
    match s {
        Stmt::Let { name, ty, value, span, .. } => {
            let annotated = match ty {
                Some(t) => contains_cap(t),
                None => false,
            };
            if annotated || is_cap_expr(items, ps, value) {
                seq![("E0202"@, span, bound_msg(name@))]
            } else {
                Seq::empty()
            }
        },
        Stmt::Return { value, span } => match value {
            Some(e) => if is_cap_expr(items, ps, e) {
                seq![("E0201"@, span, returned_msg())]
            } else {
                Seq::empty()
            },
            None => Seq::empty(),
        },
        Stmt::If { then_block, else_block, .. } => cap_stmts_diags(items, ps, then_block.stmts@)
            + match else_block {
            Some(b) => cap_stmts_diags(items, ps, b.stmts@),
            None => Seq::empty(),
        },
        _ => Seq::empty(),
    }
}

/// The diagnostics of a statement list, in order.
pub open spec fn cap_stmts_diags(items: Seq<Item>, ps: Seq<Param>, ss: Seq<Stmt>) -> Seq<(Seq<char>, Span, Seq<char>)>
    decreases ss, 0int,
{
    if ss.len() == 0 {
        Seq::empty()
    } else {
        cap_stmts_diags(items, ps, ss.subrange(0, ss.len() - 1)) + cap_stmt_diags(
            items,
            ps,
            ss[ss.len() - 1],
        )
    }
}

/// The capability diagnostics of one function: its return type, then its body.
pub open spec fn function_cap_diags(items: Seq<Item>, f: Function) -> Seq<(Seq<char>, Span, Seq<char>)> {
    let sig = f.signature;
    return_type_diags(sig.return_type) + cap_stmts_diags(items, sig.params@, f.body.stmts@)
}

/// The diagnostic of a return type containing a capability.
pub open spec fn return_type_diags(rt: Option<TypeExpr>) -> Seq<(Seq<char>, Span, Seq<char>)> {
    match rt {
        Some(t) => if contains_cap(t) {
            seq![("E0201"@, t.span, return_type_msg())]
        } else {
            Seq::empty()
        },
        None => Seq::empty(),
    }
}

/// The capability diagnostics of the functions among `fs`, in order.
pub open spec fn items_cap_diags(items: Seq<Item>, fs: Seq<Item>) -> Seq<(Seq<char>, Span, Seq<char>)>
    decreases fs.len(),
{
    if fs.len() == 0 {
        Seq::empty()
    } else {
        items_cap_diags(items, fs.drop_last()) + match fs.last() {
            Item::Function(f) => function_cap_diags(items, f),
            Item::Type(_) => Seq::empty(),
        }
    }
}

/// Whether a written type contains a capability.
fn type_contains_cap(ty: &TypeExpr) -> (r: bool)
    ensures
        r == contains_cap(*ty),
    decreases ty, 1int,
{
    if string_is(&ty.name, "Cap") {
        return true;
    }
    any_type_contains_cap(&ty.args)
}

fn any_type_contains_cap(ts: &Vec<TypeExpr>) -> (r: bool)
    ensures
        r == any_contains_cap(ts@),
    decreases ts, 0int,
{
    let n = ts.len();
    let mut found = false;
    let mut i: usize = 0;
    while i < n
        invariant
            n == ts@.len(),
            i <= n,
            found == any_contains_cap(ts@.subrange(0, i as int)),
        decreases n - i,
    {
        let c = type_contains_cap(&ts[i]);
        assert(ts@.subrange(0, i + 1).subrange(0, i as int) =~= ts@.subrange(0, i as int));
        found = found || c;
        i = i + 1;
    }
    assert(ts@.subrange(0, n as int) =~= ts@);
    found
}

fn variants_name(vs: &Vec<Variant>, name: &str) -> (r: bool)
    ensures
        r == exists|j: int| 0 <= j < vs@.len() && #[trigger] vs@[j].name@ == name@,
{
    let n = vs.len();
    let mut j: usize = 0;
    while j < n
        invariant
            n == vs@.len(),
            j <= n,
            forall|k: int| 0 <= k < j ==> vs@[k].name@ != name@,
        decreases n - j,
    {
        if string_is(&vs[j].name, name) {
            return true;
        }
        j = j + 1;
    }
    false
}

/// Whether some sum type of the module declares a variant named `name`.
pub fn ctor_declared(items: &Vec<Item>, name: &str) -> (r: bool)
    ensures
        r == is_ctor(items@, name@),
{
    let n = items.len();
    let mut i: usize = 0;
    while i < n
        invariant
            n == items@.len(),
            i <= n,
            forall|k: int| 0 <= k < i ==> !declares_variant(#[trigger] items@[k], name@),
        decreases n - i,
    {
        match &items[i] {
            Item::Type(d) => {
                if variants_name(&d.variants, name) {
                    return true;
                }
            },
            Item::Function(_) => {},
        }
        i = i + 1;
    }
    false
}

fn param_is_cap(ps: &Vec<Param>, name: &str) -> (r: bool)
    ensures
        r == is_cap_param(ps@, name@),
{
    let n = ps.len();
    let mut i: usize = 0;
    while i < n
        invariant
            n == ps@.len(),
            i <= n,
            forall|k: int| 0 <= k < i ==> !(is_cap_type(#[trigger] ps@[k].ty) && ps@[k].name@ == name@),
        decreases n - i,
    {
        if string_is(&ps[i].ty.name, "Cap") && string_is(&ps[i].name, name) {
            return true;
        }
        i = i + 1;
    }
    false
}

/// Whether an expression evaluates to a value containing a capability.
fn capability_expr(items: &Vec<Item>, ps: &Vec<Param>, e: &Expr) -> (r: bool)
    ensures
        r == is_cap_expr(items@, ps@, *e),
    decreases e, 1int,
{
    match e {
        Expr::Identifier { name, .. } => param_is_cap(ps, name.as_str()),
        Expr::Call { callee, args, .. } => match &**callee {
            Expr::Identifier { name, .. } => {
                if string_is(name, "grant") {
                    true
                } else if ctor_declared(items, name.as_str()) {
                    any_capability_expr(items, ps, args)
                } else {
                    false
                }
            },
            _ => false,
        },
        Expr::Match { arms, .. } => any_capability_arm(items, ps, arms),
        _ => false,
    }
}

fn any_capability_expr(items: &Vec<Item>, ps: &Vec<Param>, es: &Vec<Expr>) -> (r: bool)
    ensures
        r == any_cap_expr(items@, ps@, es@),
    decreases es, 0int,
{
    let n = es.len();
    let mut found = false;
    let mut i: usize = 0;
    while i < n
        invariant
            n == es@.len(),
            i <= n,
            found == any_cap_expr(items@, ps@, es@.subrange(0, i as int)),
        decreases n - i,
    {
        let c = capability_expr(items, ps, &es[i]);
        assert(es@.subrange(0, i + 1).subrange(0, i as int) =~= es@.subrange(0, i as int));
        found = found || c;
        i = i + 1;
    }
    assert(es@.subrange(0, n as int) =~= es@);
    found
}

fn any_capability_arm(items: &Vec<Item>, ps: &Vec<Param>, arms: &Vec<MatchArm>) -> (r: bool)
    ensures
        r == any_cap_arm(items@, ps@, arms@),
    decreases arms, 0int,
{
    let n = arms.len();
    let mut found = false;
    let mut i: usize = 0;
    while i < n
        invariant
            n == arms@.len(),
            i <= n,
            found == any_cap_arm(items@, ps@, arms@.subrange(0, i as int)),
        decreases n - i,
    {
        proof {
            assert(decreases_to!(arms@[i as int] => arms@[i as int].body));
        }
        let c = capability_expr(items, ps, &arms[i].body);
        assert(arms@.subrange(0, i + 1).subrange(0, i as int) =~= arms@.subrange(0, i as int));
        found = found || c;
        i = i + 1;
    }
    assert(arms@.subrange(0, n as int) =~= arms@);
    found
}

fn bound_message(name: &str) -> (s: String)
    ensures
        s@ == bound_msg(name@),
{
    let mut s = String::new();
    push_str(&mut s, "capability `");
    push_str(&mut s, name);
    push_str(&mut s, "` cannot be bound to a local: capabilities enter scope only as parameters and are passed on directly as arguments");
    assert(s@ =~= bound_msg(name@));
    s
}

/// The diagnostics of one statement.
fn check_stmt(items: &Vec<Item>, ps: &Vec<Param>, s: &Stmt) -> (r: Vec<Diagnostic>)
    ensures
        errors_as(r@, cap_stmt_diags(items@, ps@, *s)),
    decreases s, 1int,
{
    let mut out: Vec<Diagnostic> = Vec::new();
    match s {
        Stmt::Let { name, ty, value, span, .. } => {
            let annotated = match ty {
                Some(t) => type_contains_cap(t),
                None => false,
            };
            let binds = capability_expr(items, ps, value);
            if annotated || binds {
                push_error(&mut out, "E0202", *span, bound_message(name.as_str()));
            }
        },
        Stmt::Return { value, span } => match value {
            Some(e) => {
                if capability_expr(items, ps, e) {
                    push_error(
                        &mut out,
                        "E0201",
                        *span,
                        owned("a capability cannot be returned: `Cap<..>` is second-class"),
                    );
                }
            },
            None => {},
        },
        Stmt::If { then_block, else_block, .. } => {
            out = check_stmts(items, ps, &then_block.stmts);
            match else_block {
                Some(b) => {
                    let mut more = check_stmts(items, ps, &b.stmts);
                    let ghost a = out@;
                    let ghost m = more@;
                    out.append(&mut more);
                    proof {
                        lemma_errors_append(
                            a,
                            cap_stmts_diags(items@, ps@, then_block.stmts@),
                            m,
                            cap_stmts_diags(items@, ps@, b.stmts@),
                        );
                    }
                },
                None => {
                    assert(cap_stmts_diags(items@, ps@, then_block.stmts@) =~= cap_stmts_diags(items@, ps@, then_block.stmts@) + Seq::empty());
                },
            }
        },
        _ => {},
    }
    out
}

/// The diagnostics of a statement list.
fn check_stmts(items: &Vec<Item>, ps: &Vec<Param>, ss: &Vec<Stmt>) -> (r: Vec<Diagnostic>)
    ensures
        errors_as(r@, cap_stmts_diags(items@, ps@, ss@)),
    decreases ss, 0int,
{
    let mut out: Vec<Diagnostic> = Vec::new();
    let n = ss.len();
    let mut i: usize = 0;
    while i < n
        invariant
            n == ss@.len(),
            i <= n,
            errors_as(out@, cap_stmts_diags(items@, ps@, ss@.subrange(0, i as int))),
        decreases n - i,
    {
        assert(ss@.subrange(0, i + 1).subrange(0, i as int) =~= ss@.subrange(0, i as int));
        let mut more = check_stmt(items, ps, &ss[i]);
        let ghost a = out@;
        let ghost m = more@;
        out.append(&mut more);
        proof {
            lemma_errors_append(
                a,
                cap_stmts_diags(items@, ps@, ss@.subrange(0, i as int)),
                m,
                cap_stmt_diags(items@, ps@, ss@[i as int]),
            );
        }
        i = i + 1;
    }
    assert(ss@.subrange(0, n as int) =~= ss@);
    out
}

/// The capability diagnostics of one function.
fn check_function(items: &Vec<Item>, f: &Function) -> (r: Vec<Diagnostic>)
    ensures
        errors_as(r@, function_cap_diags(items@, *f)),
{
    let sig = &f.signature;
    let mut out: Vec<Diagnostic> = Vec::new();
    match &sig.return_type {
        Some(rt) => {
            if type_contains_cap(rt) {
                push_error(
                    &mut out,
                    "E0201",
                    rt.span,
                    owned("a capability cannot be returned: `Cap<..>` is second-class (authority only flows downward, through parameters)"),
                );
            }
        },
        None => {},
    }
    let ghost head = out@;
    let mut more = check_stmts(items, &sig.params, &f.body.stmts);
    let ghost m = more@;
    out.append(&mut more);
    proof {
        let ret = return_type_diags(sig.return_type);
        assert(errors_as(head, ret)) by {
            if head.len() == 1 {
                assert(head[0]@ == ret[0]);
            }
        }
        lemma_errors_append(head, ret, m, cap_stmts_diags(items@, sig.params@, f.body.stmts@));
    }
    out
}

/// Check the capability rules over a module. The diagnostics come in source
/// order; none means every capability is parameter-only and never escapes.
pub fn check_capabilities(module: &Module) -> (r: Vec<Diagnostic>)
    ensures
        errors_as(r@, items_cap_diags(module.items@, module.items@)),
{
    let items = &module.items;
    let mut out: Vec<Diagnostic> = Vec::new();
    let n = items.len();
    let mut i: usize = 0;
    while i < n
        invariant
            n == items@.len(),
            i <= n,
            errors_as(out@, items_cap_diags(items@, items@.subrange(0, i as int))),
        decreases n - i,
    {
        let ghost prev = items_cap_diags(items@, items@.subrange(0, i as int));
        assert(items@.subrange(0, i + 1).drop_last() =~= items@.subrange(0, i as int));
        match &items[i] {
            Item::Function(f) => {
                let mut more = check_function(items, f);
                let ghost a = out@;
                let ghost b = more@;
                out.append(&mut more);
                proof {
                    lemma_errors_append(a, prev, b, function_cap_diags(items@, *f));
                }
            },
            Item::Type(_) => {
                assert(prev =~= prev + Seq::empty());
            },
        }
        i = i + 1;
    }
    assert(items@.subrange(0, n as int) =~= items@);
    out
}

// --- Laws -----------------------------------------------------------------------

/// What a statement that lets a capability escape must be reported with:
/// `E0202` for a `let` binding one, `E0201` for a `return` of one.
pub open spec fn escape_diag(items: Seq<Item>, ps: Seq<Param>, s: Stmt) -> Option<(Seq<char>, Span, Seq<char>)> {
    match s {
        Stmt::Let { name, value, span, .. } => if is_cap_expr(items, ps, value) {
            Some(("E0202"@, span, bound_msg(name@)))
        } else {
            None
        },
        Stmt::Return { value: Some(e), span } => if is_cap_expr(items, ps, e) {
            Some(("E0201"@, span, returned_msg()))
        } else {
            None
        },
        _ => None,
    }
}

proof fn lemma_escape_reported_stmts(items: Seq<Item>, ps: Seq<Param>, ss: Seq<Stmt>, s: Stmt)
    requires
        occurs_in(ss, s),
        escape_diag(items, ps, s) is Some,
    ensures
        cap_stmts_diags(items, ps, ss).contains(escape_diag(items, ps, s)->Some_0),
    decreases ss, 0int,
{
    let x = escape_diag(items, ps, s)->Some_0;
    let pre = ss.subrange(0, ss.len() - 1);
    let last = ss[ss.len() - 1];
    if occurs_in(pre, s) {
        lemma_escape_reported_stmts(items, ps, pre, s);
        crate::calls::lemma_contains_append(cap_stmts_diags(items, ps, pre), cap_stmt_diags(items, ps, last), x);
    } else {
        lemma_escape_reported_stmt(items, ps, last, s);
        crate::calls::lemma_contains_append(cap_stmts_diags(items, ps, pre), cap_stmt_diags(items, ps, last), x);
    }
}

proof fn lemma_escape_reported_stmt(items: Seq<Item>, ps: Seq<Param>, t: Stmt, s: Stmt)
    requires
        occurs_in_stmt(t, s),
        escape_diag(items, ps, s) is Some,
    ensures
        cap_stmt_diags(items, ps, t).contains(escape_diag(items, ps, s)->Some_0),
    decreases t, 1int,
{
    let x = escape_diag(items, ps, s)->Some_0;
    if t == s {
        assert(cap_stmt_diags(items, ps, t)[0] == x);
    } else {
        match t {
            Stmt::If { then_block, else_block, .. } => {
                let a = cap_stmts_diags(items, ps, then_block.stmts@);
                let b = match else_block {
                    Some(e) => cap_stmts_diags(items, ps, e.stmts@),
                    None => Seq::empty(),
                };
                if occurs_in(then_block.stmts@, s) {
                    lemma_escape_reported_stmts(items, ps, then_block.stmts@, s);
                } else {
                    match else_block {
                        Some(e) => lemma_escape_reported_stmts(items, ps, e.stmts@, s),
                        None => {},
                    }
                }
                crate::calls::lemma_contains_append(a, b, x);
            },
            _ => {},
        }
    }
}

/// Capabilities never escape unreported: every `let` that binds a
/// capability and every `return` of a capability anywhere in a function's
/// body (inside either branch of an `if` too) is reported, with `E0202` or
/// `E0201` at that statement.
pub proof fn law_capability_escapes_are_reported(items: Seq<Item>, f: Function, s: Stmt)
    requires
        occurs_in(f.body.stmts@, s),
        escape_diag(items, f.signature.params@, s) is Some,
    ensures
        function_cap_diags(items, f).contains(escape_diag(items, f.signature.params@, s)->Some_0),
{
    lemma_escape_reported_stmts(items, f.signature.params@, f.body.stmts@, s);
    crate::calls::lemma_contains_append(
        return_type_diags(f.signature.return_type),
        cap_stmts_diags(items, f.signature.params@, f.body.stmts@),
        escape_diag(items, f.signature.params@, s)->Some_0,
    );
}

} // verus!
