//! The evaluation semantics the interpreter implements, as spec functions.
//!
//! Evaluation is over plain values (`Val`) and runs with a budget of call
//! depth (`fuel`): each call spends one unit, and a call with none left is the
//! error "call depth limit exceeded". The interpreter starts from the whole
//! `u64` range (`MAX_CALL_DEPTH`), which no run exhausts. An expression reads the bindings in
//! scope and may print; a statement may also bind, in the innermost scope,
//! which starts at `start`. The module's functions and constructors come from
//! its items.

use vstd::prelude::*;
use crate::ast::{BinaryOp, Expr, Function, Item, LiteralKind, MatchArm, Param, Pattern, Stmt};
use crate::codegen::{authority, ctor_lookup, module_ctors};
use crate::diagnostic::Blame;
use crate::env::{define_v, lookup_v, Bind};
use crate::lower::{is_ensures_check, is_requires_check};
use crate::ast::Contract;
use crate::ops::{arith_v, compare_v, eq_error, is_arith, is_order, is_text_builtin, text_builtin_v, unary_v, val_eq};
use crate::span::Span;
use crate::text::decimal;
use crate::value::{plain_err, val_label, val_text, ErrV, Val};

verus! {

/// Printed lines, oldest first.
pub type Out = Seq<Seq<char>>;

/// How a statement completes: on with a value, or out of the body with a
/// returned value.
pub enum CtlV {
    Normal(Val),
    Return(Val),
}

/// The module's functions, each with its position among the items.
pub open spec fn fn_entries(items: Seq<Item>) -> Seq<(Seq<char>, int)>
    decreases items.len(),
{
    if items.len() == 0 {
        Seq::empty()
    } else {
        fn_entries(items.drop_last()) + match items.last() {
            Item::Function(f) => seq![(f.signature.name@, items.len() - 1)],
            Item::Type(_) => Seq::empty(),
        }
    }
}

/// The position recorded with the first entry named `name`.
pub open spec fn first_entry(es: Seq<(Seq<char>, int)>, name: Seq<char>) -> Option<int>
    decreases es.len(),
{
    if es.len() == 0 {
        None
    } else {
        match first_entry(es.drop_last(), name) {
            Some(k) => Some(k),
            None => if es.last().0 == name {
                Some(es.last().1)
            } else {
                None
            },
        }
    }
}

/// The position of the function named `name`.
pub open spec fn fn_pos(items: Seq<Item>, name: Seq<char>) -> Option<int> {
    first_entry(fn_entries(items), name)
}

/// The value of a literal.
pub open spec fn lit_val(k: LiteralKind) -> Val {
    match k {
        LiteralKind::Int(n) => Val::Int(n),
        LiteralKind::Bool(b) => Val::Bool(b),
        LiteralKind::Text(s) => Val::Text(s@),
    }
}

/// A binding in the scope starting at `start`; a refused rebinding leaves
/// the bindings as they were.
pub open spec fn bind_or_keep(bs: Seq<Bind>, start: int, name: Seq<char>, v: Val) -> Seq<Bind> {
    match define_v(bs, start, name, v, false) {
        Ok(b) => b,
        Err(_) => bs,
    }
}

/// Matching a pattern against a value, binding captured names in the scope
/// starting at `start`. A bare name tests for a payload-free variant when it
/// names one (the last declaration of a name wins), and binds otherwise.
pub open spec fn tm(items: Seq<Item>, p: Pattern, v: Val, bs: Seq<Bind>, start: int) -> (bool, Seq<Bind>)
    decreases p, 1int,
{
    match p {
        Pattern::Wildcard { .. } => (true, bs),
        Pattern::Ident { name, .. } => if ctor_lookup(module_ctors(items), name@) == Some(0nat) {
            (v matches Val::Variant(n, fs) && n == name@ && fs.len() == 0, bs)
        } else {
            (true, bind_or_keep(bs, start, name@, v))
        },
        Pattern::Variant { name, args, .. } => match v {
            Val::Variant(n, fs) => if n != name@ || fs.len() != args@.len() {
                (false, bs)
            } else {
                tms(items, args@, fs, bs, start)
            },
            _ => (false, bs),
        },
    }
}

/// Matching sub-patterns against fields, left to right, stopping at the
/// first that fails.
pub open spec fn tms(items: Seq<Item>, ps: Seq<Pattern>, vs: Seq<Val>, bs: Seq<Bind>, start: int) -> (bool, Seq<Bind>)
    decreases ps, 0int,
{
    if ps.len() == 0 {
        (true, bs)
    } else {
        let (ok, b1) = tms(items, ps.subrange(0, ps.len() - 1), vs.subrange(0, ps.len() - 1), bs, start);
        if !ok {
            (false, b1)
        } else {
            tm(items, ps[ps.len() - 1], vs[ps.len() - 1], b1, start)
        }
    }
}

/// The error a failed check raises, blaming the side its blame names.
pub open spec fn check_error(blame: Blame, span: Span) -> ErrV {
    match blame {
        Blame::Caller => ("C0001"@, "precondition violated (blame: caller)"@, span, Some(Blame::Caller)),
        Blame::Implementation => ("C0002"@, "postcondition violated (blame: implementation)"@, span, Some(Blame::Implementation)),
    }
}

/// A strict binary operator on two values.
pub open spec fn binary_v(op: BinaryOp, l: Val, r: Val, span: Span) -> Result<Val, ErrV> {
    if is_arith(op) {
        arith_v(op, l, r, span)
    } else if is_order(op) {
        compare_v(op, l, r, span)
    } else if op is Eq {
        match val_eq(l, r) {
            Ok(b) => Ok(Val::Bool(b)),
            Err(p) => Err(eq_error(p, span)),
        }
    } else {
        match val_eq(l, r) {
            Ok(b) => Ok(Val::Bool(!b)),
            Err(p) => Err(eq_error(p, span)),
        }
    }
}

/// Evaluate an expression under the bindings `bs`, after `out` was printed.
pub open spec fn ev_expr(items: Seq<Item>, fuel: nat, e: Expr, bs: Seq<Bind>, out: Out) -> (Result<Val, ErrV>, Out)
    decreases fuel, crate::ast::expr_size(e), 5int,
{
    match e {
        Expr::Literal(lit) => (Ok(lit_val(lit.kind)), out),
        Expr::Unary { op, operand, span } => {
            let (r, o1) = ev_expr(items, fuel, *operand, bs, out);
            match r {
                Ok(v) => (unary_v(op, v, span), o1),
                Err(x) => (Err(x), o1),
            }
        },
        Expr::Binary { op, left, right, span } => if op is And || op is Or {
            let (rl, o1) = ev_bool(items, fuel, *left, bs, out);
            match rl {
                Err(x) => (Err(x), o1),
                Ok(l) => if (op is And && !l) || (op is Or && l) {
                    (Ok(Val::Bool(l)), o1)
                } else {
                    let (rr, o2) = ev_bool(items, fuel, *right, bs, o1);
                    match rr {
                        Ok(b) => (Ok(Val::Bool(b)), o2),
                        Err(x) => (Err(x), o2),
                    }
                },
            }
        } else {
            let (rl, o1) = ev_expr(items, fuel, *left, bs, out);
            match rl {
                Err(x) => (Err(x), o1),
                Ok(l) => {
                    let (rr, o2) = ev_expr(items, fuel, *right, bs, o1);
                    match rr {
                        Err(x) => (Err(x), o2),
                        Ok(r) => (binary_v(op, l, r, span), o2),
                    }
                },
            }
        },
        Expr::Identifier { name, span } => (match lookup_v(bs, name@) {
            Some(v) => Ok(v),
            None => if ctor_lookup(module_ctors(items), name@) == Some(0nat) {
                Ok(Val::Variant(name@, Seq::empty()))
            } else if fn_pos(items, name@) is Some {
                Ok(Val::Func(name@))
            } else {
                Err(plain_err(span, "unbound variable `"@ + name@ + "`"@))
            },
        }, out),
        Expr::Call { callee, type_args, args, span } => match *callee {
            Expr::Identifier { name, .. } => {
                let (ra, o1) = ev_args(items, fuel, args@, bs, out);
                match ra {
                    Err(x) => (Err(x), o1),
                    Ok(vals) => if name@ == "grant"@ {
                        (Ok(Val::Cap(authority(type_args@))), o1)
                    } else {
                        match ctor_lookup(module_ctors(items), name@) {
                            Some(k) => if vals.len() != k {
                                (Err(plain_err(span, "constructor `"@ + name@ + "` expects "@ + decimal(k) + " argument(s), got "@
                                    + decimal(vals.len()))), o1)
                            } else {
                                (Ok(Val::Variant(name@, vals)), o1)
                            },
                            None => match lookup_v(bs, name@) {
                                Some(Val::Func(f)) => ev_call(items, fuel, crate::ast::expr_size(e), f, vals, span, o1),
                                Some(other) => (Err(plain_err(span, "`"@ + name@ + "` is not a function (it is a "@ + val_label(other)
                                    + ")"@)), o1),
                                None => ev_call(items, fuel, crate::ast::expr_size(e), name@, vals, span, o1),
                            },
                        }
                    },
                }
            },
            _ => (Err(plain_err(span, "only named functions can be called"@)), out),
        },
        Expr::Match { scrutinee, arms, span } => {
            let (rs, o1) = ev_expr(items, fuel, *scrutinee, bs, out);
            match rs {
                Err(x) => (Err(x), o1),
                Ok(v) => ev_arms(items, fuel, arms@, v, span, bs, o1),
            }
        },
        Expr::Member { span, .. } => (Err(plain_err(span, "module member access is not resolved yet"@)), out),
    }
}

/// Evaluate an expression that must be a `Bool`.
pub open spec fn ev_bool(items: Seq<Item>, fuel: nat, e: Expr, bs: Seq<Bind>, out: Out) -> (Result<bool, ErrV>, Out)
    decreases fuel, crate::ast::expr_size(e), 6int,
{
    let (r, o1) = ev_expr(items, fuel, e, bs, out);
    match r {
        Ok(Val::Bool(b)) => (Ok(b), o1),
        Ok(other) => (Err(plain_err(e.spec_span(), "expected a Bool, found "@ + val_label(other))), o1),
        Err(x) => (Err(x), o1),
    }
}

/// Evaluate arguments left to right, stopping at the first error.
pub open spec fn ev_args(items: Seq<Item>, fuel: nat, args: Seq<Expr>, bs: Seq<Bind>, out: Out) -> (Result<Seq<Val>, ErrV>, Out)
    decreases fuel, crate::ast::exprs_size(args), 4int,
{
    if args.len() == 0 {
        (Ok(Seq::empty()), out)
    } else {
        proof {
            crate::ast::exprs_size_positive(args.subrange(0, args.len() - 1));
            assert(crate::ast::expr_size(args[args.len() - 1]) >= 1);
        }
        let (ra, o1) = ev_args(items, fuel, args.subrange(0, args.len() - 1), bs, out);
        match ra {
            Err(x) => (Err(x), o1),
            Ok(vs) => {
                let (rv, o2) = ev_expr(items, fuel, args[args.len() - 1], bs, o1);
                match rv {
                    Ok(v) => (Ok(vs.push(v)), o2),
                    Err(x) => (Err(x), o2),
                }
            },
        }
    }
}

/// The first arm whose pattern matches `v`, evaluated in a scope of its
/// own: `None` when no arm matches.
pub open spec fn try_arms(items: Seq<Item>, fuel: nat, arms: Seq<MatchArm>, v: Val, bs: Seq<Bind>, out: Out) -> Option<(Result<Val, ErrV>, Out)>
    decreases fuel, crate::ast::arms_size(arms), 3int,
{
    if arms.len() == 0 {
        None
    } else {
        proof {
            crate::ast::arms_size_positive(arms.subrange(0, arms.len() - 1));
            assert(decreases_to!(arms[arms.len() - 1] => arms[arms.len() - 1].body));
            assert(crate::ast::expr_size(arms[arms.len() - 1].body) >= 1);
        }
        match try_arms(items, fuel, arms.subrange(0, arms.len() - 1), v, bs, out) {
            Some(r) => Some(r),
            None => {
                let a = arms[arms.len() - 1];
                let (ok, b1) = tm(items, a.pattern, v, bs, bs.len() as int);
                if ok {
                    Some(ev_expr(items, fuel, a.body, b1, out))
                } else {
                    None
                }
            },
        }
    }
}

/// Evaluate the first matching arm; a value no arm covers is an error.
pub open spec fn ev_arms(items: Seq<Item>, fuel: nat, arms: Seq<MatchArm>, v: Val, span: Span, bs: Seq<Bind>, out: Out) -> (Result<Val, ErrV>, Out)
    decreases fuel, crate::ast::arms_size(arms), 4int,
{
    match try_arms(items, fuel, arms, v, bs, out) {
        Some(r) => r,
        None => (Err(plain_err(span, "no match arm covers the value `"@ + val_text(v) + "`"@)), out),
    }
}

/// Run a statement: its completion, the bindings after it, and what was
/// printed.
pub open spec fn ev_stmt(items: Seq<Item>, fuel: nat, s: Stmt, bs: Seq<Bind>, start: int, out: Out) -> (Result<CtlV, ErrV>, Seq<Bind>, Out)
    decreases fuel, crate::ast::stmt_size(s), 2int,
{
    match s {
        Stmt::Let { name, mutable, value, span, .. } => {
            let (r, o1) = ev_expr(items, fuel, value, bs, out);
            match r {
                Err(x) => (Err(x), bs, o1),
                Ok(v) => match define_v(bs, start, name@, v, mutable) {
                    Ok(b) => (Ok(CtlV::Normal(Val::Unit)), b, o1),
                    Err(m) => (Err(plain_err(span, m)), bs, o1),
                },
            }
        },
        Stmt::Expr(e) => {
            let (r, o1) = ev_expr(items, fuel, e, bs, out);
            match r {
                Ok(v) => (Ok(CtlV::Normal(v)), bs, o1),
                Err(x) => (Err(x), bs, o1),
            }
        },
        Stmt::Return { value, .. } => match value {
            Some(e) => {
                let (r, o1) = ev_expr(items, fuel, e, bs, out);
                match r {
                    Ok(v) => (Ok(CtlV::Return(v)), bs, o1),
                    Err(x) => (Err(x), bs, o1),
                }
            },
            None => (Ok(CtlV::Return(Val::Unit)), bs, out),
        },
        Stmt::If { cond, then_block, else_block, .. } => {
            let (rc, o1) = ev_bool(items, fuel, cond, bs, out);
            match rc {
                Err(x) => (Err(x), bs, o1),
                Ok(true) => {
                    let (r, o2) = ev_block(items, fuel, then_block.stmts@, bs, o1);
                    (r, bs, o2)
                },
                Ok(false) => match else_block {
                    Some(b) => {
                        let (r, o2) = ev_block(items, fuel, b.stmts@, bs, o1);
                        (r, bs, o2)
                    },
                    None => (Ok(CtlV::Normal(Val::Unit)), bs, o1),
                },
            }
        },
        Stmt::Check { predicate, blame, span } => {
            let (rc, o1) = ev_bool(items, fuel, predicate, bs, out);
            match rc {
                Err(x) => (Err(x), bs, o1),
                Ok(true) => (Ok(CtlV::Normal(Val::Unit)), bs, o1),
                Ok(false) => (Err(check_error(blame, span)), bs, o1),
            }
        },
    }
}

/// Run statements in order, stopping at a `return` or an error; a list that
/// runs to its end completes with its last statement's value (`Unit` when
/// empty). A block drops that value (see `ev_block`).
pub open spec fn ev_stmts(items: Seq<Item>, fuel: nat, ss: Seq<Stmt>, bs: Seq<Bind>, start: int, out: Out) -> (Result<CtlV, ErrV>, Seq<Bind>, Out)
    decreases fuel, crate::ast::stmts_size(ss), 0int,
{
    if ss.len() == 0 {
        (Ok(CtlV::Normal(Val::Unit)), bs, out)
    } else {
        proof {
            crate::ast::stmts_size_positive(ss.subrange(0, ss.len() - 1));
            assert(crate::ast::stmt_size(ss[ss.len() - 1]) >= 1);
        }
        let (r, b1, o1) = ev_stmts(items, fuel, ss.subrange(0, ss.len() - 1), bs, start, out);
        match r {
            Ok(CtlV::Normal(_)) => ev_stmt(items, fuel, ss[ss.len() - 1], b1, start, o1),
            _ => (r, b1, o1),
        }
    }
}

/// Run a block in a scope of its own; its bindings end with it. A block
/// that runs to its end without a `return` completes with `Unit`.
pub open spec fn ev_block(items: Seq<Item>, fuel: nat, ss: Seq<Stmt>, bs: Seq<Bind>, out: Out) -> (Result<CtlV, ErrV>, Out)
    decreases fuel, crate::ast::stmts_size(ss), 1int,
{
    let (r, _, o1) = ev_stmts(items, fuel, ss, bs, bs.len() as int, out);
    match r {
        Ok(CtlV::Normal(_)) => (Ok(CtlV::Normal(Val::Unit)), o1),
        _ => (r, o1),
    }
}

/// Bind parameters to arguments in a fresh scope, in order.
pub open spec fn bind_params(ps: Seq<Param>, vs: Seq<Val>) -> Result<Seq<Bind>, ErrV>
    decreases ps.len(),
{
    if ps.len() == 0 {
        Ok(Seq::empty())
    } else {
        match bind_params(ps.drop_last(), vs.subrange(0, ps.len() - 1)) {
            Ok(b) => match define_v(b, 0, ps.last().name@, vs[ps.len() - 1], false) {
                Ok(b2) => Ok(b2),
                Err(m) => Err(plain_err(ps.last().span, m)),
            },
            Err(x) => Err(x),
        }
    }
}

/// Call a function of the module with evaluated arguments.
pub open spec fn ev_function(items: Seq<Item>, fuel: nat, site: nat, f: Function, args: Seq<Val>, span: Span, out: Out) -> (Result<Val, ErrV>, Out)
    decreases fuel, site, 2int,
{
    let ps = f.signature.params@;
    if args.len() != ps.len() {
        (Err(plain_err(span, "function `"@ + f.signature.name@ + "` expects "@ + decimal(ps.len()) + " argument(s), got "@
            + decimal(args.len()))), out)
    } else if fuel == 0 {
        (Err(plain_err(span, "call depth limit exceeded"@)), out)
    } else {
        match bind_params(ps, args) {
            Err(x) => (Err(x), out),
            Ok(b) => {
                let (r, o1) = ev_block(items, (fuel - 1) as nat, f.body.stmts@, b, out);
                match r {
                    Ok(CtlV::Normal(v)) => (Ok(v), o1),
                    Ok(CtlV::Return(v)) => (Ok(v), o1),
                    Err(x) => (Err(x), o1),
                }
            },
        }
    }
}

/// Call a name: a function of the module, else `print`, `sanitize` or a
/// text built-in; anything else is unknown.
pub open spec fn ev_call(items: Seq<Item>, fuel: nat, site: nat, name: Seq<char>, args: Seq<Val>, span: Span, out: Out) -> (Result<Val, ErrV>, Out)
    decreases fuel, site, 3int,
{
    let builtin = if name == "print"@ {
        if args.len() != 1 {
            (Err(plain_err(span, "`print` expects 1 argument, got "@ + decimal(args.len()))), out)
        } else {
            (Ok(Val::Unit), out.push(val_text(args[0])))
        }
    } else if name == "sanitize"@ {
        if args.len() != 2 {
            (Err(plain_err(span, "`sanitize` expects 2 arguments, got "@ + decimal(args.len()))), out)
        } else {
            match args[1] {
                Val::Func(vname) => match fn_pos(items, vname) {
                    Some(k) => match items[k] {
                        Item::Function(g) => {
                            let (r, o1) = ev_function(items, fuel, site, g, seq![args[0]], span, out);
                            match r {
                                Ok(Val::Bool(true)) => (Ok(Val::Variant("Some"@, seq![args[0]])), o1),
                                Ok(Val::Bool(false)) => (Ok(Val::Variant("None"@, Seq::empty())), o1),
                                Ok(other) => (Err(plain_err(span, "`sanitize` validator must return a Bool, found "@ + val_label(other))), o1),
                                Err(x) => (Err(x), o1),
                            }
                        },
                        Item::Type(_) => (Err(plain_err(span, "`sanitize` validator is not a function"@)), out),
                    },
                    None => (Err(plain_err(span, "unknown function `"@ + vname + "`"@)), out),
                },
                other => (Err(plain_err(span, "`sanitize` expects a validator function, got "@ + val_label(other))), out),
            }
        }
    } else if is_text_builtin(name) {
        (text_builtin_v(name, args, span), out)
    } else {
        (Err(plain_err(span, "unknown function `"@ + name + "`"@)), out)
    };
    match fn_pos(items, name) {
        Some(k) => match items[k] {
            Item::Function(f) => ev_function(items, fuel, site, f, args, span, out),
            Item::Type(_) => builtin,
        },
        None => builtin,
    }
}

/// Every function entry names a function item at its position.
pub proof fn lemma_fn_entries(items: Seq<Item>)
    ensures
        forall|j: int|
            0 <= j < fn_entries(items).len() ==> {
                &&& 0 <= (#[trigger] fn_entries(items)[j]).1 < items.len()
                &&& items[fn_entries(items)[j].1] matches Item::Function(f) && f.signature.name@ == fn_entries(items)[j].0
            },
    decreases items.len(),
{
    if items.len() > 0 {
        let pre = items.drop_last();
        lemma_fn_entries(pre);
        assert forall|j: int| 0 <= j < fn_entries(items).len() implies {
            &&& 0 <= (#[trigger] fn_entries(items)[j]).1 < items.len()
            &&& items[fn_entries(items)[j].1] matches Item::Function(f) && f.signature.name@ == fn_entries(items)[j].0
        } by {
            if j < fn_entries(pre).len() {
                assert(fn_entries(items)[j] == fn_entries(pre)[j]);
                assert(items[fn_entries(pre)[j].1] == pre[fn_entries(pre)[j].1]);
            }
        }
    }
}

/// Once a prefix of the entries holds `name`, its first entry is the first
/// of the whole list.
pub proof fn lemma_first_entry_stable(es: Seq<(Seq<char>, int)>, name: Seq<char>, k: int)
    requires
        0 <= k <= es.len(),
        first_entry(es.subrange(0, k), name) is Some,
    ensures
        first_entry(es, name) == first_entry(es.subrange(0, k), name),
    decreases es.len() - k,
{
    if k < es.len() {
        assert(es.subrange(0, k + 1).drop_last() =~= es.subrange(0, k));
        lemma_first_entry_stable(es, name, k + 1);
    } else {
        assert(es.subrange(0, k) =~= es);
    }
}

/// The first entry of a name is one of the entries.
pub proof fn lemma_first_entry_in(es: Seq<(Seq<char>, int)>, name: Seq<char>)
    ensures
        first_entry(es, name) matches Some(k) ==> exists|j: int| 0 <= j < es.len() && #[trigger] es[j] == (name, k),
    decreases es.len(),
{
    if es.len() > 0 {
        lemma_first_entry_in(es.drop_last(), name);
        if first_entry(es.drop_last(), name) is Some {
            let k = first_entry(es, name)->Some_0;
            let j = choose|j: int| 0 <= j < es.drop_last().len() && #[trigger] es.drop_last()[j] == (name, k);
            assert(es[j] == (name, k));
        } else if es.last().0 == name {
            assert(es[es.len() - 1] == (name, es.last().1));
        }
    }
}

/// An argument error ends the evaluation of the list.
pub proof fn lemma_args_stable(items: Seq<Item>, fuel: nat, args: Seq<Expr>, bs: Seq<Bind>, out: Out, k: int)
    requires
        0 <= k <= args.len(),
        ev_args(items, fuel, args.subrange(0, k), bs, out).0 is Err,
    ensures
        ev_args(items, fuel, args, bs, out) == ev_args(items, fuel, args.subrange(0, k), bs, out),
    decreases args.len() - k,
{
    if k < args.len() {
        let q = args.subrange(0, k + 1);
        assert(q.subrange(0, q.len() - 1) =~= args.subrange(0, k));
        lemma_args_stable(items, fuel, args, bs, out, k + 1);
    } else {
        assert(args.subrange(0, k) =~= args);
    }
}

/// The first matching arm decides.
pub proof fn lemma_try_arms_stable(items: Seq<Item>, fuel: nat, arms: Seq<MatchArm>, v: Val, bs: Seq<Bind>, out: Out, k: int)
    requires
        0 <= k <= arms.len(),
        try_arms(items, fuel, arms.subrange(0, k), v, bs, out) is Some,
    ensures
        try_arms(items, fuel, arms, v, bs, out) == try_arms(items, fuel, arms.subrange(0, k), v, bs, out),
    decreases arms.len() - k,
{
    if k < arms.len() {
        let q = arms.subrange(0, k + 1);
        assert(q.subrange(0, q.len() - 1) =~= arms.subrange(0, k));
        lemma_try_arms_stable(items, fuel, arms, v, bs, out, k + 1);
    } else {
        assert(arms.subrange(0, k) =~= arms);
    }
}

/// A `return` or an error ends a statement list.
pub proof fn lemma_stmts_stable(items: Seq<Item>, fuel: nat, ss: Seq<Stmt>, bs: Seq<Bind>, start: int, out: Out, k: int)
    requires
        0 <= k <= ss.len(),
        !(ev_stmts(items, fuel, ss.subrange(0, k), bs, start, out).0 matches Ok(CtlV::Normal(_))),
    ensures
        ev_stmts(items, fuel, ss, bs, start, out) == ev_stmts(items, fuel, ss.subrange(0, k), bs, start, out),
    decreases ss.len() - k,
{
    if k < ss.len() {
        let q = ss.subrange(0, k + 1);
        assert(q.subrange(0, q.len() - 1) =~= ss.subrange(0, k));
        lemma_stmts_stable(items, fuel, ss, bs, start, out, k + 1);
    } else {
        assert(ss.subrange(0, k) =~= ss);
    }
}

/// A failed sub-pattern ends the match.
pub proof fn lemma_tms_stable(items: Seq<Item>, ps: Seq<Pattern>, vs: Seq<Val>, bs: Seq<Bind>, start: int, k: int)
    requires
        0 <= k <= ps.len(),
        ps.len() <= vs.len(),
        !tms(items, ps.subrange(0, k), vs.subrange(0, k), bs, start).0,
    ensures
        tms(items, ps, vs.subrange(0, ps.len() as int), bs, start) == tms(items, ps.subrange(0, k), vs.subrange(0, k), bs, start),
    decreases ps.len() - k,
{
    if k < ps.len() {
        let q = ps.subrange(0, k + 1);
        let w = vs.subrange(0, k + 1);
        assert(q.subrange(0, q.len() - 1) =~= ps.subrange(0, k));
        assert(w.subrange(0, q.len() - 1) =~= vs.subrange(0, k));
        lemma_tms_stable(items, ps, vs, bs, start, k + 1);
    } else {
        assert(ps.subrange(0, k) =~= ps);
    }
}

/// A refused parameter binding ends the binding of the list.
pub proof fn lemma_bind_params_err(ps: Seq<Param>, vs: Seq<Val>, k: int)
    requires
        0 <= k <= ps.len(),
        ps.len() <= vs.len(),
        bind_params(ps.subrange(0, k), vs.subrange(0, k)) is Err,
    ensures
        bind_params(ps, vs.subrange(0, ps.len() as int)) == bind_params(ps.subrange(0, k), vs.subrange(0, k)),
    decreases ps.len() - k,
{
    if k < ps.len() {
        let q = ps.subrange(0, k + 1);
        let w = vs.subrange(0, k + 1);
        assert(q.drop_last() =~= ps.subrange(0, k));
        assert(w.subrange(0, q.len() - 1) =~= vs.subrange(0, k));
        lemma_bind_params_err(ps, vs, k + 1);
    } else {
        assert(ps.subrange(0, k) =~= ps);
    }
}

/// Blame follows the clause: when the check that lowering makes of a
/// `requires` clause fails, the run stops with the caller-blamed error
/// `C0001`; when that of an `ensures` clause fails, with the
/// implementation-blamed error `C0002`. Either way at the clause's span.
pub proof fn law_blame_follows_the_clause(
    items: Seq<Item>,
    fuel: nat,
    s: Stmt,
    c: Contract,
    bs: Seq<Bind>,
    start: int,
    out: Out,
)
    requires
        is_requires_check(s, c) || is_ensures_check(s, c),
        s matches Stmt::Check { predicate, .. } && ev_bool(items, fuel, predicate, bs, out).0 == Ok::<bool, ErrV>(false),
    ensures
        is_requires_check(s, c) ==> ev_stmt(items, fuel, s, bs, start, out).0 == Err::<CtlV, ErrV>(
            ("C0001"@, "precondition violated (blame: caller)"@, c.span, Some(Blame::Caller)),
        ),
        is_ensures_check(s, c) ==> ev_stmt(items, fuel, s, bs, start, out).0 == Err::<CtlV, ErrV>(
            ("C0002"@, "postcondition violated (blame: implementation)"@, c.span, Some(Blame::Implementation)),
        ),
{
}

/// Swapping the branches of an `if` and negating its condition changes
/// nothing: the `else` branch runs exactly when the condition is false.
pub proof fn law_if_branches_swap_under_negation(
    items: Seq<Item>,
    fuel: nat,
    cond: Expr,
    a: crate::ast::Block,
    b: crate::ast::Block,
    sp: Span,
    nsp: Span,
    bs: Seq<Bind>,
    start: int,
    out: Out,
)
    requires
        ev_bool(items, fuel, cond, bs, out).0 is Ok,
    ensures
        ev_stmt(
            items,
            fuel,
            Stmt::If {
                cond: Expr::Unary { op: crate::ast::UnaryOp::Not, operand: Box::new(cond), span: nsp },
                then_block: b,
                else_block: Some(a),
                span: sp,
            },
            bs,
            start,
            out,
        ) == ev_stmt(items, fuel, Stmt::If { cond: cond, then_block: a, else_block: Some(b), span: sp }, bs, start, out),
{
    let n = Expr::Unary { op: crate::ast::UnaryOp::Not, operand: Box::new(cond), span: nsp };
    assert(ev_expr(items, fuel, n, bs, out) == (
        unary_v(crate::ast::UnaryOp::Not, ev_expr(items, fuel, cond, bs, out).0->Ok_0, nsp),
        ev_expr(items, fuel, cond, bs, out).1,
    ));
}

/// Well-typed integer arithmetic goes right at run time too: an expression
/// that the type checker gives type `Int` (built from `Int` literals with
/// `-` and the five arithmetic operators) evaluates to an `Int`, or stops
/// with a runtime error (overflow, a zero divisor), and prints nothing.
pub proof fn law_integer_arithmetic_evaluates_to_an_int(items: Seq<Item>, fuel: nat, e: Expr, bs: Seq<Bind>, out: Out)
    requires
        crate::typing::int_arith_expr(e),
    ensures
        ev_expr(items, fuel, e, bs, out).1 == out,
        ev_expr(items, fuel, e, bs, out).0 matches Ok(v) ==> v is Int,
    decreases e,
{
    match e {
        Expr::Unary { operand, .. } => {
            law_integer_arithmetic_evaluates_to_an_int(items, fuel, *operand, bs, out);
        },
        Expr::Binary { left, right, .. } => {
            law_integer_arithmetic_evaluates_to_an_int(items, fuel, *left, bs, out);
            law_integer_arithmetic_evaluates_to_an_int(items, fuel, *right, bs, out);
        },
        _ => {},
    }
}

} // verus!
