//! The taint pass: untrusted data cannot reach a sink without a `sanitize`
//! boundary.
//!
//! A value is tainted if it comes from a `Tainted<T>` parameter or a call
//! returning `Tainted<..>`, and it stays tainted through `let` bindings,
//! operators, constructors and `match` — until `sanitize(..)` strips it. A sink
//! is a function declaring `uses { Query }` or `uses { Shell }`; passing it a
//! tainted argument is refused (`E0401`).
//!
//! The pass keeps an environment of bindings in scope: a name marked tainted,
//! or a name bound to a function value whose call returns tainted data. Blocks
//! and match arms drop the bindings they introduced when they end.

use vstd::prelude::*;
use crate::ast::{Expr, Function, Item, MatchArm, Module, Param, Pattern, Stmt, TypeExpr};
use crate::capabilities::{ctor_declared, is_ctor};
use crate::diagnostic::{errors_as, lemma_errors_append, lemma_errors_push, push_error, Diagnostic};
use crate::span::Span;
use crate::text::{copy_string, push_str, string_is};

verus! {

/// A binding in scope: its name, and whether it is a tainted value (`true`)
/// or a function value whose call returns tainted data (`false`).
pub struct Binding {
    pub name: String,
    pub tainted: bool,
}

/// The (name, kind) pairs an environment stands for.
pub open spec fn env_view(v: Seq<Binding>) -> Seq<(Seq<char>, bool)> {
    v.map_values(|b: Binding| (b.name@, b.tainted))
}

/// Whether a written type marks untrusted data.
pub open spec fn is_tainted_type(ty: TypeExpr) -> bool {
    ty.name@ == "Tainted"@
}

/// Whether a written type is a function type returning `Tainted<..>`.
pub open spec fn fn_returns_tainted(ty: TypeExpr) -> bool {
    ty.name@ == "fn"@ && ty.args@.len() > 0 && is_tainted_type(ty.args@[ty.args@.len() - 1])
}

/// The position of the last function named `name`.
pub open spec fn last_fn_index(items: Seq<Item>, name: Seq<char>) -> Option<int>
    decreases items.len(),
{
    if items.len() == 0 {
        None
    } else {
        match items.last() {
            Item::Function(f) => if f.signature.name@ == name {
                Some(items.len() - 1)
            } else {
                last_fn_index(items.drop_last(), name)
            },
            Item::Type(_) => last_fn_index(items.drop_last(), name),
        }
    }
}

/// Whether the function named `name` is declared to return `Tainted<..>`.
pub open spec fn returns_tainted(items: Seq<Item>, name: Seq<char>) -> bool {
    match last_fn_index(items, name) {
        Some(k) => match items[k] {
            Item::Function(f) => match f.signature.return_type {
                Some(t) => is_tainted_type(t),
                None => false,
            },
            Item::Type(_) => false,
        },
        None => false,
    }
}

/// Whether the function named `name` is a sink: it declares `Query` or `Shell`.
pub open spec fn is_sink(items: Seq<Item>, name: Seq<char>) -> bool {
    match last_fn_index(items, name) {
        Some(k) => match items[k] {
            Item::Function(f) => exists|j: int|
                0 <= j < f.signature.effects.effects@.len() && (#[trigger] f.signature.effects.effects@[j].name@
                    == "Query"@ || f.signature.effects.effects@[j].name@ == "Shell"@),
            Item::Type(_) => false,
        },
        None => false,
    }
}

/// Whether calling the value named `name` yields tainted data.
pub open spec fn call_tainted(items: Seq<Item>, env: Seq<(Seq<char>, bool)>, name: Seq<char>) -> bool {
    returns_tainted(items, name) || env.contains((name, false))
}

/// Whether an expression evaluates to a tainted value.
pub open spec fn taint_expr(items: Seq<Item>, env: Seq<(Seq<char>, bool)>, e: Expr) -> bool
    decreases e, 1int,
{
    match e {
        Expr::Identifier { name, .. } => env.contains((name@, true)),
        Expr::Call { callee, args, .. } => match *callee {
            Expr::Identifier { name, .. } => if name@ == "sanitize"@ {
                false
            } else if is_ctor(items, name@) {
                taint_any(items, env, args@)
            } else {
                call_tainted(items, env, name@)
            },
            _ => false,
        },
        Expr::Match { scrutinee, arms, .. } => taint_expr(items, env, *scrutinee) || taint_any_arm(
            items,
            env,
            arms@,
        ),
        Expr::Binary { left, right, .. } => taint_expr(items, env, *left) || taint_expr(
            items,
            env,
            *right,
        ),
        Expr::Unary { operand, .. } => taint_expr(items, env, *operand),
        Expr::Member { base, .. } => taint_expr(items, env, *base),
        Expr::Literal(_) => false,
    }
}

/// Whether any expression of a list is tainted.
pub open spec fn taint_any(items: Seq<Item>, env: Seq<(Seq<char>, bool)>, es: Seq<Expr>) -> bool
    decreases es, 0int,
{
    if es.len() == 0 {
        false
    } else {
        taint_any(items, env, es.subrange(0, es.len() - 1)) || taint_expr(items, env, es[es.len() - 1])
    }
}

/// Whether any arm body of a list is tainted.
pub open spec fn taint_any_arm(items: Seq<Item>, env: Seq<(Seq<char>, bool)>, arms: Seq<MatchArm>) -> bool
    decreases arms, 0int,
{
    if arms.len() == 0 {
        false
    } else {
        proof {
            assert(decreases_to!(arms[arms.len() - 1] => arms[arms.len() - 1].body));
        }
        taint_any_arm(items, env, arms.subrange(0, arms.len() - 1)) || taint_expr(
            items,
            env,
            arms[arms.len() - 1].body,
        )
    }
}

/// The tainted bindings a pattern introduces (every name it binds).
pub open spec fn pattern_binds(items: Seq<Item>, p: Pattern) -> Seq<(Seq<char>, bool)>
    decreases p, 1int,
{
    match p {
        Pattern::Wildcard { .. } => Seq::empty(),
        Pattern::Ident { name, .. } => if is_ctor(items, name@) {
            Seq::empty()
        } else {
            seq![(name@, true)]
        },
        Pattern::Variant { args, .. } => patterns_binds(items, args@),
    }
}

/// The tainted bindings a list of patterns introduces, in order.
pub open spec fn patterns_binds(items: Seq<Item>, ps: Seq<Pattern>) -> Seq<(Seq<char>, bool)>
    decreases ps, 0int,
{
    if ps.len() == 0 {
        Seq::empty()
    } else {
        patterns_binds(items, ps.subrange(0, ps.len() - 1)) + pattern_binds(items, ps[ps.len() - 1])
    }
}

/// The message for a tainted value reaching a sink.
pub open spec fn sink_msg(name: Seq<char>) -> Seq<char> {
    "a tainted value reaches the sink `"@ + name + "` here without a `sanitize` boundary"@
}

/// One `E0401` per tainted argument of a call of the sink `name`.
pub open spec fn sink_arg_diags(
    items: Seq<Item>,
    env: Seq<(Seq<char>, bool)>,
    name: Seq<char>,
    span: Span,
    args: Seq<Expr>,
) -> Seq<(Seq<char>, Span, Seq<char>)>
    decreases args.len(),
{
    if args.len() == 0 {
        Seq::empty()
    } else {
        sink_arg_diags(items, env, name, span, args.drop_last()) + if taint_expr(
            items,
            env,
            args.last(),
        ) {
            seq![("E0401"@, span, sink_msg(name))]
        } else {
            Seq::empty()
        }
    }
}

/// The sink diagnostics of an expression: at each sink call its tainted
/// arguments, then those nested in the callee and arguments. A match arm is
/// checked with its pattern's bindings marked tainted when the scrutinee is.
pub open spec fn sink_diags(items: Seq<Item>, env: Seq<(Seq<char>, bool)>, e: Expr) -> Seq<(Seq<char>, Span, Seq<char>)>
    decreases e, 1int,
{
    match e {
        Expr::Call { callee, args, span, .. } => {
            sink_here(items, env, *callee, span, args@) + sink_diags(items, env, *callee) + sinks_list(
                items,
                env,
                args@,
            )
        },
        Expr::Unary { operand, .. } => sink_diags(items, env, *operand),
        Expr::Binary { left, right, .. } => sink_diags(items, env, *left) + sink_diags(
            items,
            env,
            *right,
        ),
        Expr::Match { scrutinee, arms, .. } => sink_diags(items, env, *scrutinee) + arms_sinks(
            items,
            env,
            taint_expr(items, env, *scrutinee),
            arms@,
        ),
        Expr::Member { base, .. } => sink_diags(items, env, *base),
        Expr::Literal(_) => Seq::empty(),
        Expr::Identifier { .. } => Seq::empty(),
    }
}

/// The diagnostics of a call itself: its tainted arguments when the callee
/// names a sink.
pub open spec fn sink_here(
    items: Seq<Item>,
    env: Seq<(Seq<char>, bool)>,
    callee: Expr,
    span: Span,
    args: Seq<Expr>,
) -> Seq<(Seq<char>, Span, Seq<char>)> {
    match callee {
        Expr::Identifier { name, .. } => if is_sink(items, name@) {
            sink_arg_diags(items, env, name@, span, args)
        } else {
            Seq::empty()
        },
        _ => Seq::empty(),
    }
}

/// The sink diagnostics of a list of expressions, in order.
pub open spec fn sinks_list(items: Seq<Item>, env: Seq<(Seq<char>, bool)>, es: Seq<Expr>) -> Seq<(Seq<char>, Span, Seq<char>)>
    decreases es, 0int,
{
    if es.len() == 0 {
        Seq::empty()
    } else {
        sinks_list(items, env, es.subrange(0, es.len() - 1)) + sink_diags(items, env, es[es.len() - 1])
    }
}

/// The environment an arm body is checked in.
pub open spec fn arm_env(items: Seq<Item>, env: Seq<(Seq<char>, bool)>, tainted: bool, p: Pattern) -> Seq<(Seq<char>, bool)> {
    if tainted {
        env + pattern_binds(items, p)
    } else {
        env
    }
}

/// The sink diagnostics of a list of match arms, in order.
pub open spec fn arms_sinks(
    items: Seq<Item>,
    env: Seq<(Seq<char>, bool)>,
    tainted: bool,
    arms: Seq<MatchArm>,
) -> Seq<(Seq<char>, Span, Seq<char>)>
    decreases arms, 0int,
{
    if arms.len() == 0 {
        Seq::empty()
    } else {
        proof {
            assert(decreases_to!(arms[arms.len() - 1] => arms[arms.len() - 1].body));
        }
        let arm = arms[arms.len() - 1];
        arms_sinks(items, env, tainted, arms.subrange(0, arms.len() - 1)) + sink_diags(
            items,
            arm_env(items, env, tainted, arm.pattern),
            arm.body,
        )
    }
}

/// The bindings a statement adds to the environment: a `let` of a tainted
/// value is tainted, and a `let` aliasing a tainting function value taints its
/// calls.
pub open spec fn stmt_extra(items: Seq<Item>, env: Seq<(Seq<char>, bool)>, s: Stmt) -> Seq<(Seq<char>, bool)> {
    match s {
        Stmt::Let { name, value, .. } => {
            let t = if taint_expr(items, env, value) {
                seq![(name@, true)]
            } else {
                Seq::empty()
            };
            let f = match value {
                Expr::Identifier { name: rhs, .. } => if call_tainted(items, env, rhs@) {
                    seq![(name@, false)]
                } else {
                    Seq::empty()
                },
                _ => Seq::empty(),
            };
            t + f
        },
        _ => Seq::empty(),
    }
}

/// The sink diagnostics of one statement.
pub open spec fn stmt_sinks(items: Seq<Item>, env: Seq<(Seq<char>, bool)>, s: Stmt) -> Seq<(Seq<char>, Span, Seq<char>)>
    decreases s, 1int,
{
    match s {
        Stmt::Let { value, .. } => sink_diags(items, env, value),
        Stmt::Expr(e) => sink_diags(items, env, e),
        Stmt::Return { value, .. } => match value {
            Some(e) => sink_diags(items, env, e),
            None => Seq::empty(),
        },
        Stmt::Check { predicate, .. } => sink_diags(items, env, predicate),
        Stmt::If { cond, then_block, else_block, .. } => sink_diags(items, env, cond) + stmts_sinks(
            items,
            env,
            then_block.stmts@,
        ) + match else_block {
            Some(b) => stmts_sinks(items, env, b.stmts@),
            None => Seq::empty(),
        },
    }
}

/// The sink diagnostics of a statement list run from `env`, each statement
/// seeing the bindings of those before it.
pub open spec fn stmts_sinks(items: Seq<Item>, env: Seq<(Seq<char>, bool)>, ss: Seq<Stmt>) -> Seq<(Seq<char>, Span, Seq<char>)>
    decreases ss, 0int,
{
    if ss.len() == 0 {
        Seq::empty()
    } else {
        stmt_sinks(items, env, ss[0]) + stmts_sinks(
            items,
            env + stmt_extra(items, env, ss[0]),
            ss.subrange(1, ss.len() as int),
        )
    }
}

/// The bindings a parameter list starts a body with.
pub open spec fn param_binds(ps: Seq<Param>) -> Seq<(Seq<char>, bool)>
    decreases ps.len(),
{
    if ps.len() == 0 {
        Seq::empty()
    } else {
        let p = ps.last();
        param_binds(ps.drop_last()) + (if is_tainted_type(p.ty) {
            seq![(p.name@, true)]
        } else {
            Seq::empty()
        }) + (if fn_returns_tainted(p.ty) {
            seq![(p.name@, false)]
        } else {
            Seq::empty()
        })
    }
}

/// The taint diagnostics of one function.
pub open spec fn function_taint_diags(items: Seq<Item>, f: Function) -> Seq<(Seq<char>, Span, Seq<char>)> {
    stmts_sinks(items, param_binds(f.signature.params@), f.body.stmts@)
}

/// The taint diagnostics of the functions among `fs`, in order.
pub open spec fn items_taint_diags(items: Seq<Item>, fs: Seq<Item>) -> Seq<(Seq<char>, Span, Seq<char>)>
    decreases fs.len(),
{
    if fs.len() == 0 {
        Seq::empty()
    } else {
        items_taint_diags(items, fs.drop_last()) + match fs.last() {
            Item::Function(f) => function_taint_diags(items, f),
            Item::Type(_) => Seq::empty(),
        }
    }
}

proof fn lemma_env_push(v: Seq<Binding>, b: Binding)
    ensures
        env_view(v.push(b)) == env_view(v) + seq![(b.name@, b.tainted)],
{
    assert(env_view(v.push(b)) =~= env_view(v) + seq![(b.name@, b.tainted)]);
}

fn push_binding(env: &mut Vec<Binding>, name: &String, tainted: bool)
    ensures
        env_view(final(env)@) == env_view(old(env)@) + seq![(name@, tainted)],
        final(env)@.len() == old(env)@.len() + 1,
{
    let ghost before = env@;
    env.push(Binding { name: copy_string(name), tainted });
    proof {
        lemma_env_push(before, env@.last());
    }
}

/// Drop the bindings introduced after position `mark`.
fn restore(env: &mut Vec<Binding>, mark: usize, Ghost(saved): Ghost<Seq<(Seq<char>, bool)>>)
    requires
        mark <= old(env)@.len(),
        env_view(old(env)@).subrange(0, mark as int) == saved,
    ensures
        env_view(final(env)@) == saved,
        final(env)@.len() == mark,
{
    let ghost before = env@;
    env.truncate(mark);
    assert(env_view(env@) =~= env_view(before).subrange(0, mark as int));
}

fn has_binding(env: &Vec<Binding>, name: &str, tainted: bool) -> (r: bool)
    ensures
        r == env_view(env@).contains((name@, tainted)),
{
    let n = env.len();
    let mut i: usize = 0;
    while i < n
        invariant
            n == env@.len(),
            i <= n,
            forall|j: int| 0 <= j < i ==> env_view(env@)[j] != (name@, tainted),
        decreases n - i,
    {
        if env[i].tainted == tainted && string_is(&env[i].name, name) {
            assert(env_view(env@)[i as int] == (name@, tainted));
            return true;
        }
        i = i + 1;
    }
    false
}

/// The position of the last function named `name`.
fn last_function(items: &Vec<Item>, name: &str) -> (r: Option<usize>)
    ensures
        match r {
            Some(k) => last_fn_index(items@, name@) == Some(k as int) && k < items@.len(),
            None => last_fn_index(items@, name@) is None,
        },
{
    let mut i: usize = items.len();
    assert(items@.subrange(0, i as int) =~= items@);
    while i > 0
        invariant
            i <= items@.len(),
            last_fn_index(items@, name@) == last_fn_index(items@.subrange(0, i as int), name@),
        decreases i,
    {
        i = i - 1;
        assert(items@.subrange(0, i + 1).drop_last() =~= items@.subrange(0, i as int));
        match &items[i] {
            Item::Function(f) => {
                if string_is(&f.signature.name, name) {
                    return Some(i);
                }
            },
            Item::Type(_) => {},
        }
    }
    None
}

fn function_returns_tainted(items: &Vec<Item>, name: &str) -> (r: bool)
    ensures
        r == returns_tainted(items@, name@),
{
    match last_function(items, name) {
        Some(k) => match &items[k] {
            Item::Function(f) => match &f.signature.return_type {
                Some(t) => string_is(&t.name, "Tainted"),
                None => false,
            },
            Item::Type(_) => false,
        },
        None => false,
    }
}

/// Whether a list of declared effects names `Query` or `Shell`.
fn declares_sink_effect(es: &Vec<crate::ast::Effect>) -> (r: bool)
    ensures
        r == exists|j: int|
            0 <= j < es@.len() && (#[trigger] es@[j].name@ == "Query"@ || es@[j].name@ == "Shell"@),
{
    let n = es.len();
    let mut j: usize = 0;
    while j < n
        invariant
            n == es@.len(),
            j <= n,
            forall|q: int|
                0 <= q < j ==> !(#[trigger] es@[q].name@ == "Query"@ || es@[q].name@ == "Shell"@),
        decreases n - j,
    {
        if string_is(&es[j].name, "Query") || string_is(&es[j].name, "Shell") {
            assert(es@[j as int].name@ == "Query"@ || es@[j as int].name@ == "Shell"@);
            return true;
        }
        j = j + 1;
    }
    false
}

fn function_is_sink(items: &Vec<Item>, name: &str) -> (r: bool)
    ensures
        r == is_sink(items@, name@),
{
    match last_function(items, name) {
        Some(k) => match &items[k] {
            Item::Function(f) => declares_sink_effect(&f.signature.effects.effects),
            Item::Type(_) => false,
        },
        None => false,
    }
}

fn calling_taints(items: &Vec<Item>, env: &Vec<Binding>, name: &str) -> (r: bool)
    ensures
        r == call_tainted(items@, env_view(env@), name@),
{
    function_returns_tainted(items, name) || has_binding(env, name, false)
}

/// Whether an expression evaluates to a tainted value.
fn tainted(items: &Vec<Item>, env: &Vec<Binding>, e: &Expr) -> (r: bool)
    ensures
        r == taint_expr(items@, env_view(env@), *e),
    decreases e, 1int,
{
    match e {
        Expr::Identifier { name, .. } => has_binding(env, name.as_str(), true),
        Expr::Call { callee, args, .. } => match &**callee {
            Expr::Identifier { name, .. } => {
                if string_is(name, "sanitize") {
                    false
                } else if ctor_declared(items, name.as_str()) {
                    any_tainted(items, env, args)
                } else {
                    calling_taints(items, env, name.as_str())
                }
            },
            _ => false,
        },
        Expr::Match { scrutinee, arms, .. } => {
            let s = tainted(items, env, scrutinee);
            let a = any_tainted_arm(items, env, arms);
            s || a
        },
        Expr::Binary { left, right, .. } => {
            let l = tainted(items, env, left);
            let r = tainted(items, env, right);
            l || r
        },
        Expr::Unary { operand, .. } => tainted(items, env, operand),
        Expr::Member { base, .. } => tainted(items, env, base),
        Expr::Literal(_) => false,
    }
}

fn any_tainted(items: &Vec<Item>, env: &Vec<Binding>, es: &Vec<Expr>) -> (r: bool)
    ensures
        r == taint_any(items@, env_view(env@), es@),
    decreases es, 0int,
{
    let n = es.len();
    let mut found = false;
    let mut i: usize = 0;
    while i < n
        invariant
            n == es@.len(),
            i <= n,
            found == taint_any(items@, env_view(env@), es@.subrange(0, i as int)),
        decreases n - i,
    {
        let c = tainted(items, env, &es[i]);
        assert(es@.subrange(0, i + 1).subrange(0, i as int) =~= es@.subrange(0, i as int));
        found = found || c;
        i = i + 1;
    }
    assert(es@.subrange(0, n as int) =~= es@);
    found
}

fn any_tainted_arm(items: &Vec<Item>, env: &Vec<Binding>, arms: &Vec<MatchArm>) -> (r: bool)
    ensures
        r == taint_any_arm(items@, env_view(env@), arms@),
    decreases arms, 0int,
{
    let n = arms.len();
    let mut found = false;
    let mut i: usize = 0;
    while i < n
        invariant
            n == arms@.len(),
            i <= n,
            found == taint_any_arm(items@, env_view(env@), arms@.subrange(0, i as int)),
        decreases n - i,
    {
        proof {
            assert(decreases_to!(arms@[i as int] => arms@[i as int].body));
        }
        let c = tainted(items, env, &arms[i].body);
        assert(arms@.subrange(0, i + 1).subrange(0, i as int) =~= arms@.subrange(0, i as int));
        found = found || c;
        i = i + 1;
    }
    assert(arms@.subrange(0, n as int) =~= arms@);
    found
}

/// Bind every name a pattern introduces as tainted.
fn bind_pattern(items: &Vec<Item>, p: &Pattern, env: &mut Vec<Binding>)
    ensures
        env_view(final(env)@) == env_view(old(env)@) + pattern_binds(items@, *p),
        final(env)@.len() >= old(env)@.len(),
    decreases p, 1int,
{
    match p {
        Pattern::Wildcard { .. } => {
            assert(env_view(env@) =~= env_view(env@) + pattern_binds(items@, *p));
        },
        Pattern::Ident { name, .. } => {
            if !ctor_declared(items, name.as_str()) {
                push_binding(env, name, true);
            } else {
                assert(env_view(env@) =~= env_view(env@) + pattern_binds(items@, *p));
            }
        },
        Pattern::Variant { args, .. } => bind_patterns(items, args, env),
    }
}

fn bind_patterns(items: &Vec<Item>, ps: &Vec<Pattern>, env: &mut Vec<Binding>)
    ensures
        env_view(final(env)@) == env_view(old(env)@) + patterns_binds(items@, ps@),
        final(env)@.len() >= old(env)@.len(),
    decreases ps, 0int,
{
    let ghost o = env_view(env@);
    let ghost olen = env@.len();
    let n = ps.len();
    let mut i: usize = 0;
    assert(o =~= o + patterns_binds(items@, ps@.subrange(0, 0)));
    while i < n
        invariant
            n == ps@.len(),
            i <= n,
            env_view(env@) == o + patterns_binds(items@, ps@.subrange(0, i as int)),
            env@.len() >= olen,
        decreases n - i,
    {
        bind_pattern(items, &ps[i], env);
        assert(ps@.subrange(0, i + 1).subrange(0, i as int) =~= ps@.subrange(0, i as int));
        assert(env_view(env@) =~= o + patterns_binds(items@, ps@.subrange(0, i + 1)));
        i = i + 1;
    }
    assert(ps@.subrange(0, n as int) =~= ps@);
}

fn sink_message(name: &str) -> (s: String)
    ensures
        s@ == sink_msg(name@),
{
    let mut s = String::new();
    push_str(&mut s, "a tainted value reaches the sink `");
    push_str(&mut s, name);
    push_str(&mut s, "` here without a `sanitize` boundary");
    assert(s@ =~= sink_msg(name@));
    s
}

/// One `E0401` per tainted argument of a call of the sink `name`.
fn check_sink_args(
    items: &Vec<Item>,
    env: &Vec<Binding>,
    name: &str,
    span: Span,
    args: &Vec<Expr>,
) -> (r: Vec<Diagnostic>)
    ensures
        errors_as(r@, sink_arg_diags(items@, env_view(env@), name@, span, args@)),
{
    let mut out: Vec<Diagnostic> = Vec::new();
    let n = args.len();
    let mut i: usize = 0;
    while i < n
        invariant
            n == args@.len(),
            i <= n,
            errors_as(out@, sink_arg_diags(items@, env_view(env@), name@, span, args@.subrange(0, i as int))),
        decreases n - i,
    {
        let ghost prev = sink_arg_diags(items@, env_view(env@), name@, span, args@.subrange(0, i as int));
        assert(args@.subrange(0, i + 1).drop_last() =~= args@.subrange(0, i as int));
        if tainted(items, env, &args[i]) {
            let ghost before = out@;
            push_error(&mut out, "E0401", span, sink_message(name));
            proof {
                lemma_errors_push(before, prev, out@.last());
            }
            assert(prev.push(("E0401"@, span, sink_msg(name@))) =~= prev + seq![("E0401"@, span, sink_msg(name@))]);
        } else {
            assert(prev =~= prev + Seq::empty());
        }
        i = i + 1;
    }
    assert(args@.subrange(0, n as int) =~= args@);
    out
}

/// The sink diagnostics of an expression; the environment comes back as it
/// was.
fn check_sinks(items: &Vec<Item>, env: &mut Vec<Binding>, e: &Expr) -> (r: Vec<Diagnostic>)
    ensures
        env_view(final(env)@) == env_view(old(env)@),
        errors_as(r@, sink_diags(items@, env_view(old(env)@), *e)),
    decreases e, 1int,
{
    let ghost env0 = env_view(env@);
    match e {
        Expr::Call { callee, args, span, .. } => {
            let mut out: Vec<Diagnostic> = Vec::new();
            let ghost here = sink_here(items@, env0, **callee, *span, args@);
            match &**callee {
                Expr::Identifier { name, .. } => {
                    if function_is_sink(items, name.as_str()) {
                        out = check_sink_args(items, env, name.as_str(), *span, args);
                    }
                },
                _ => {},
            }
            let mut c = check_sinks(items, env, callee);
            let ghost a = out@;
            let ghost b = c@;
            out.append(&mut c);
            proof {
                lemma_errors_append(a, here, b, sink_diags(items@, env0, **callee));
            }
            let mut d = check_sinks_list(items, env, args);
            let ghost a2 = out@;
            let ghost b2 = d@;
            out.append(&mut d);
            proof {
                lemma_errors_append(a2, here + sink_diags(items@, env0, **callee), b2, sinks_list(items@, env0, args@));
            }
            out
        },
        Expr::Unary { operand, .. } => check_sinks(items, env, operand),
        Expr::Binary { left, right, .. } => {
            let mut out = check_sinks(items, env, left);
            let mut more = check_sinks(items, env, right);
            let ghost a = out@;
            let ghost b = more@;
            out.append(&mut more);
            proof {
                lemma_errors_append(a, sink_diags(items@, env0, **left), b, sink_diags(items@, env0, **right));
            }
            out
        },
        Expr::Match { scrutinee, arms, .. } => {
            let mut out = check_sinks(items, env, scrutinee);
            let t = tainted(items, env, scrutinee);
            let mut more = check_arms(items, env, t, arms);
            let ghost a = out@;
            let ghost b = more@;
            out.append(&mut more);
            proof {
                lemma_errors_append(a, sink_diags(items@, env0, **scrutinee), b, arms_sinks(items@, env0, t, arms@));
            }
            out
        },
        Expr::Member { base, .. } => check_sinks(items, env, base),
        Expr::Literal(_) => Vec::new(),
        Expr::Identifier { .. } => Vec::new(),
    }
}

fn check_sinks_list(items: &Vec<Item>, env: &mut Vec<Binding>, es: &Vec<Expr>) -> (r: Vec<Diagnostic>)
    ensures
        env_view(final(env)@) == env_view(old(env)@),
        errors_as(r@, sinks_list(items@, env_view(old(env)@), es@)),
    decreases es, 0int,
{
    let ghost env0 = env_view(env@);
    let mut out: Vec<Diagnostic> = Vec::new();
    let n = es.len();
    let mut i: usize = 0;
    while i < n
        invariant
            n == es@.len(),
            i <= n,
            env_view(env@) == env0,
            errors_as(out@, sinks_list(items@, env0, es@.subrange(0, i as int))),
        decreases n - i,
    {
        assert(es@.subrange(0, i + 1).subrange(0, i as int) =~= es@.subrange(0, i as int));
        let mut more = check_sinks(items, env, &es[i]);
        let ghost a = out@;
        let ghost b = more@;
        out.append(&mut more);
        proof {
            lemma_errors_append(a, sinks_list(items@, env0, es@.subrange(0, i as int)), b, sink_diags(items@, env0, es@[i as int]));
        }
        i = i + 1;
    }
    assert(es@.subrange(0, n as int) =~= es@);
    out
}

fn check_arms(items: &Vec<Item>, env: &mut Vec<Binding>, t: bool, arms: &Vec<MatchArm>) -> (r: Vec<Diagnostic>)
    ensures
        env_view(final(env)@) == env_view(old(env)@),
        errors_as(r@, arms_sinks(items@, env_view(old(env)@), t, arms@)),
    decreases arms, 0int,
{
    let ghost env0 = env_view(env@);
    let mut out: Vec<Diagnostic> = Vec::new();
    let n = arms.len();
    let mut i: usize = 0;
    while i < n
        invariant
            n == arms@.len(),
            i <= n,
            env_view(env@) == env0,
            errors_as(out@, arms_sinks(items@, env0, t, arms@.subrange(0, i as int))),
        decreases n - i,
    {
        proof {
            assert(decreases_to!(arms@[i as int] => arms@[i as int].body));
        }
        assert(arms@.subrange(0, i + 1).subrange(0, i as int) =~= arms@.subrange(0, i as int));
        let arm = &arms[i];
        let mark = env.len();
        if t {
            bind_pattern(items, &arm.pattern, env);
        }
        assert(env_view(env@) == arm_env(items@, env0, t, arm.pattern)) by {
            if !t {
                assert(arm_env(items@, env0, t, arm.pattern) == env0);
            }
        }
        let ghost inner = env_view(env@);
        assert(inner.len() >= mark);
        let mut more = check_sinks(items, env, &arm.body);
        assert(env_view(env@).len() == env@.len());
        assert(env_view(env@).subrange(0, mark as int) =~= env0);
        restore(env, mark, Ghost(env0));
        let ghost a = out@;
        let ghost b = more@;
        out.append(&mut more);
        proof {
            lemma_errors_append(a, arms_sinks(items@, env0, t, arms@.subrange(0, i as int)), b, sink_diags(items@, inner, arm.body));
        }
        i = i + 1;
    }
    assert(arms@.subrange(0, n as int) =~= arms@);
    out
}

/// The sink diagnostics of one statement; the environment gains the bindings
/// the statement introduces.
fn check_stmt(items: &Vec<Item>, env: &mut Vec<Binding>, s: &Stmt) -> (r: Vec<Diagnostic>)
    ensures
        env_view(final(env)@) == env_view(old(env)@) + stmt_extra(items@, env_view(old(env)@), *s),
        final(env)@.len() >= old(env)@.len(),
        errors_as(r@, stmt_sinks(items@, env_view(old(env)@), *s)),
    decreases s, 1int,
{
    let ghost env0 = env_view(env@);
    match s {
        Stmt::Let { name, value, .. } => {
            let out = check_sinks(items, env, value);
            let t = tainted(items, env, value);
            let alias = match value {
                Expr::Identifier { name: rhs, .. } => calling_taints(items, env, rhs.as_str()),
                _ => false,
            };
            if t {
                push_binding(env, name, true);
            }
            if alias {
                push_binding(env, name, false);
            }
            assert(env_view(env@) =~= env0 + stmt_extra(items@, env0, *s));
            out
        },
        Stmt::Expr(e) => {
            let out = check_sinks(items, env, e);
            assert(env_view(env@) =~= env0 + stmt_extra(items@, env0, *s));
            out
        },
        Stmt::Return { value, .. } => {
            let out = match value {
                Some(e) => check_sinks(items, env, e),
                None => Vec::new(),
            };
            assert(env_view(env@) =~= env0 + stmt_extra(items@, env0, *s));
            out
        },
        Stmt::Check { predicate, .. } => {
            let out = check_sinks(items, env, predicate);
            assert(env_view(env@) =~= env0 + stmt_extra(items@, env0, *s));
            out
        },
        Stmt::If { cond, then_block, else_block, .. } => {
            let mut out = check_sinks(items, env, cond);
            let mut more = check_block(items, env, &then_block.stmts);
            let ghost a = out@;
            let ghost b = more@;
            out.append(&mut more);
            proof {
                lemma_errors_append(a, sink_diags(items@, env0, *cond), b, stmts_sinks(items@, env0, then_block.stmts@));
            }
            let ghost head = sink_diags(items@, env0, *cond) + stmts_sinks(items@, env0, then_block.stmts@);
            match else_block {
                Some(eb) => {
                    let mut more2 = check_block(items, env, &eb.stmts);
                    let ghost a2 = out@;
                    let ghost b2 = more2@;
                    out.append(&mut more2);
                    proof {
                        lemma_errors_append(a2, head, b2, stmts_sinks(items@, env0, eb.stmts@));
                    }
                },
                None => {
                    assert(head =~= head + Seq::empty());
                },
            }
            assert(env_view(env@) =~= env0 + stmt_extra(items@, env0, *s));
            out
        },
    }
}

/// The sink diagnostics of a block; its bindings end with it.
fn check_block(items: &Vec<Item>, env: &mut Vec<Binding>, ss: &Vec<Stmt>) -> (r: Vec<Diagnostic>)
    ensures
        env_view(final(env)@) == env_view(old(env)@),
        errors_as(r@, stmts_sinks(items@, env_view(old(env)@), ss@)),
    decreases ss, 0int,
{
    let ghost env0 = env_view(env@);
    let mark = env.len();
    let mut out: Vec<Diagnostic> = Vec::new();
    let n = ss.len();
    let mut i: usize = 0;
    let ghost mut cur = env0;
    assert(ss@.subrange(0, n as int) =~= ss@);
    assert(stmts_sinks(items@, env0, ss@) =~= Seq::empty() + stmts_sinks(items@, env0, ss@.subrange(0, n as int)));
    while i < n
        invariant
            n == ss@.len(),
            i <= n,
            mark == env0.len(),
            env@.len() >= mark,
            env_view(env@) == cur,
            cur.subrange(0, mark as int) == env0,
            errors_as(out@, out@.map_values(|d: Diagnostic| d@)),
            stmts_sinks(items@, env0, ss@) == out@.map_values(|d: Diagnostic| d@) + stmts_sinks(items@, cur, ss@.subrange(i as int, n as int)),
        decreases n - i,
    {
        let ghost tail = ss@.subrange(i as int, n as int);
        assert(tail[0] == ss@[i as int]);
        assert(tail.subrange(1, tail.len() as int) =~= ss@.subrange(i + 1, n as int));
        let mut more = check_stmt(items, env, &ss[i]);
        let ghost a = out@;
        let ghost b = more@;
        out.append(&mut more);
        proof {
            lemma_errors_append(a, a.map_values(|d: Diagnostic| d@), b, stmt_sinks(items@, cur, ss@[i as int]));
            assert(out@.map_values(|d: Diagnostic| d@) =~= a.map_values(|d: Diagnostic| d@) + stmt_sinks(items@, cur, ss@[i as int]));
            let next = cur + stmt_extra(items@, cur, ss@[i as int]);
            assert(next.subrange(0, mark as int) =~= env0);
            cur = next;
        }
        i = i + 1;
    }
    assert(out@.map_values(|d: Diagnostic| d@) =~= stmts_sinks(items@, env0, ss@));
    assert(env_view(env@).subrange(0, mark as int) == env0);
    restore(env, mark, Ghost(env0));
    out
}

/// The bindings a function's parameters start its body with.
fn bind_params(params: &Vec<Param>) -> (r: Vec<Binding>)
    ensures
        env_view(r@) == param_binds(params@),
{
    let mut env: Vec<Binding> = Vec::new();
    let n = params.len();
    let mut i: usize = 0;
    assert(env_view(env@) =~= param_binds(params@.subrange(0, 0)));
    while i < n
        invariant
            n == params@.len(),
            i <= n,
            env_view(env@) == param_binds(params@.subrange(0, i as int)),
        decreases n - i,
    {
        let p = &params[i];
        assert(params@.subrange(0, i + 1).drop_last() =~= params@.subrange(0, i as int));
        let ghost e0 = env_view(env@);
        if string_is(&p.ty.name, "Tainted") {
            push_binding(&mut env, &p.name, true);
        }
        let ghost e1 = env_view(env@);
        let k = p.ty.args.len();
        if string_is(&p.ty.name, "fn") && k > 0 && string_is(&p.ty.args[k - 1].name, "Tainted") {
            push_binding(&mut env, &p.name, false);
        }
        assert(env_view(env@) =~= param_binds(params@.subrange(0, i + 1)));
        i = i + 1;
    }
    assert(params@.subrange(0, n as int) =~= params@);
    env
}

/// Check that no tainted value reaches a sink unsanitized. The diagnostics
/// come in source order; none means every sink argument is trusted.
pub fn check_taint(module: &Module) -> (r: Vec<Diagnostic>)
    ensures
        errors_as(r@, items_taint_diags(module.items@, module.items@)),
{
    let items = &module.items;
    let mut out: Vec<Diagnostic> = Vec::new();
    let n = items.len();
    let mut i: usize = 0;
    while i < n
        invariant
            n == items@.len(),
            i <= n,
            errors_as(out@, items_taint_diags(items@, items@.subrange(0, i as int))),
        decreases n - i,
    {
        let ghost prev = items_taint_diags(items@, items@.subrange(0, i as int));
        assert(items@.subrange(0, i + 1).drop_last() =~= items@.subrange(0, i as int));
        match &items[i] {
            Item::Function(f) => {
                let mut env = bind_params(&f.signature.params);
                let mut more = check_block(items, &mut env, &f.body.stmts);
                let ghost a = out@;
                let ghost b = more@;
                out.append(&mut more);
                proof {
                    lemma_errors_append(a, prev, b, function_taint_diags(items@, *f));
                }
            },
            Item::Type(_) => {
                assert(prev =~= prev + Seq::empty());
            },
        }
        i = i + 1;
    }
    assert(items@.subrange(0, n as int) =~= items@);
    out
}

} // verus!
