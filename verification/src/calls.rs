//! Call sites: every call whose callee is a plain name, in source order
//! (pre-order: a call is listed before the calls nested in its callee and
//! arguments). The effect-honesty and authority passes both read this list.

use vstd::prelude::*;
use crate::ast::{Block, Contract, Effect, Expr, Item, MatchArm, Stmt};
use crate::span::Span;
use crate::text::{copy_string, owned, str_eq, string_is};

verus! {

/// A call of a named function: the name called and the span of the call.
pub struct CallSite {
    pub name: String,
    pub span: Span,
}

/// The (name, span) pairs a list of call sites stands for.
pub open spec fn sites_view(v: Seq<CallSite>) -> Seq<(Seq<char>, Span)> {
    v.map_values(|c: CallSite| (c.name@, c.span))
}

/// The named calls of an expression, in pre-order.
pub open spec fn expr_calls(e: Expr) -> Seq<(Seq<char>, Span)>
    decreases e, 2int,
{
    match e {
        Expr::Call { callee, args, span, .. } => {
            let here = match *callee {
                Expr::Identifier { name, .. } => seq![(name@, span)],
                _ => Seq::empty(),
            };
            here + expr_calls(*callee) + exprs_calls(args@)
        },
        Expr::Unary { operand, .. } => expr_calls(*operand),
        Expr::Binary { left, right, .. } => expr_calls(*left) + expr_calls(*right),
        Expr::Match { scrutinee, arms, .. } => expr_calls(*scrutinee) + arms_calls(arms@),
        Expr::Member { base, .. } => expr_calls(*base),
        Expr::Literal(_) => Seq::empty(),
        Expr::Identifier { .. } => Seq::empty(),
    }
}

/// The named calls of a list of expressions, in order.
pub open spec fn exprs_calls(s: Seq<Expr>) -> Seq<(Seq<char>, Span)>
    decreases s, 1int,
{
    if s.len() == 0 {
        Seq::empty()
    } else {
        exprs_calls(s.subrange(0, s.len() - 1)) + expr_calls(s[s.len() - 1])
    }
}

/// The named calls of the bodies of a list of match arms, in order.
pub open spec fn arms_calls(s: Seq<MatchArm>) -> Seq<(Seq<char>, Span)>
    decreases s, 1int,
{
    if s.len() == 0 {
        Seq::empty()
    } else {
        proof {
            assert(decreases_to!(s[s.len() - 1] => s[s.len() - 1].body));
        }
        arms_calls(s.subrange(0, s.len() - 1)) + expr_calls(s[s.len() - 1].body)
    }
}

/// The named calls of a statement: its expressions, then nested blocks.
pub open spec fn stmt_calls(s: Stmt) -> Seq<(Seq<char>, Span)>
    decreases s, 1int,
{
    match s {
        Stmt::Let { value, .. } => expr_calls(value),
        Stmt::Expr(e) => expr_calls(e),
        Stmt::Return { value, .. } => match value {
            Some(e) => expr_calls(e),
            None => Seq::empty(),
        },
        Stmt::Check { predicate, .. } => expr_calls(predicate),
        Stmt::If { cond, then_block, else_block, .. } => {
            expr_calls(cond) + stmts_calls(then_block.stmts@) + match else_block {
                Some(b) => stmts_calls(b.stmts@),
                None => Seq::empty(),
            }
        },
    }
}

/// The named calls of a statement list, in order.
pub open spec fn stmts_calls(s: Seq<Stmt>) -> Seq<(Seq<char>, Span)>
    decreases s, 0int,
{
    if s.len() == 0 {
        Seq::empty()
    } else {
        stmts_calls(s.subrange(0, s.len() - 1)) + stmt_calls(s[s.len() - 1])
    }
}

proof fn lemma_sites_push(v: Seq<CallSite>, c: CallSite)
    ensures
        sites_view(v.push(c)) == sites_view(v).push((c.name@, c.span)),
{
    assert(sites_view(v.push(c)) =~= sites_view(v).push((c.name@, c.span)));
}

/// Append the named calls of an expression.
pub fn collect_expr(e: &Expr, out: &mut Vec<CallSite>)
    ensures
        sites_view(final(out)@) == sites_view(old(out)@) + expr_calls(*e),
    decreases e, 2int,
{
    let ghost o = sites_view(out@);
    match e {
        Expr::Call { callee, args, span, .. } => {
            match &**callee {
                Expr::Identifier { name, .. } => {
                    let ghost before = out@;
                    out.push(CallSite { name: copy_string(name), span: *span });
                    proof {
                        lemma_sites_push(before, out@.last());
                    }
                },
                _ => {},
            }
            collect_expr(callee, out);
            collect_exprs(args, out);
            assert(sites_view(out@) =~= o + expr_calls(*e));
        },
        Expr::Unary { operand, .. } => collect_expr(operand, out),
        Expr::Binary { left, right, .. } => {
            collect_expr(left, out);
            collect_expr(right, out);
            assert(sites_view(out@) =~= o + expr_calls(*e));
        },
        Expr::Match { scrutinee, arms, .. } => {
            collect_expr(scrutinee, out);
            collect_arms(arms, out);
            assert(sites_view(out@) =~= o + expr_calls(*e));
        },
        Expr::Member { base, .. } => collect_expr(base, out),
        Expr::Literal(_) => {
            assert(sites_view(out@) =~= o + expr_calls(*e));
        },
        Expr::Identifier { .. } => {
            assert(sites_view(out@) =~= o + expr_calls(*e));
        },
    }
}

/// Append the named calls of a list of expressions.
pub fn collect_exprs(v: &Vec<Expr>, out: &mut Vec<CallSite>)
    ensures
        sites_view(final(out)@) == sites_view(old(out)@) + exprs_calls(v@),
    decreases v, 1int,
{
    let ghost o = sites_view(out@);
    let n = v.len();
    let mut i: usize = 0;
    assert(o =~= o + exprs_calls(v@.subrange(0, 0)));
    while i < n
        invariant
            n == v@.len(),
            i <= n,
            sites_view(out@) == o + exprs_calls(v@.subrange(0, i as int)),
        decreases n - i,
    {
        collect_expr(&v[i], out);
        assert(v@.subrange(0, i + 1).subrange(0, i as int) =~= v@.subrange(0, i as int));
        assert(sites_view(out@) =~= o + exprs_calls(v@.subrange(0, i + 1)));
        i = i + 1;
    }
    assert(v@.subrange(0, n as int) =~= v@);
}

/// Append the named calls of the bodies of a list of match arms.
pub fn collect_arms(v: &Vec<MatchArm>, out: &mut Vec<CallSite>)
    ensures
        sites_view(final(out)@) == sites_view(old(out)@) + arms_calls(v@),
    decreases v, 1int,
{
    let ghost o = sites_view(out@);
    let n = v.len();
    let mut i: usize = 0;
    assert(o =~= o + arms_calls(v@.subrange(0, 0)));
    while i < n
        invariant
            n == v@.len(),
            i <= n,
            sites_view(out@) == o + arms_calls(v@.subrange(0, i as int)),
        decreases n - i,
    {
        proof {
            assert(decreases_to!(v@[i as int] => v@[i as int].body));
        }
        collect_expr(&v[i].body, out);
        assert(v@.subrange(0, i + 1).subrange(0, i as int) =~= v@.subrange(0, i as int));
        assert(sites_view(out@) =~= o + arms_calls(v@.subrange(0, i + 1)));
        i = i + 1;
    }
    assert(v@.subrange(0, n as int) =~= v@);
}

/// Append the named calls of a statement.
pub fn collect_stmt(s: &Stmt, out: &mut Vec<CallSite>)
    ensures
        sites_view(final(out)@) == sites_view(old(out)@) + stmt_calls(*s),
    decreases s, 1int,
{
    let ghost o = sites_view(out@);
    match s {
        Stmt::Let { value, .. } => collect_expr(value, out),
        Stmt::Expr(e) => collect_expr(e, out),
        Stmt::Return { value, .. } => match value {
            Some(e) => collect_expr(e, out),
            None => {
                assert(sites_view(out@) =~= o + stmt_calls(*s));
            },
        },
        Stmt::Check { predicate, .. } => collect_expr(predicate, out),
        Stmt::If { cond, then_block, else_block, .. } => {
            collect_expr(cond, out);
            collect_stmts(&then_block.stmts, out);
            match else_block {
                Some(b) => collect_stmts(&b.stmts, out),
                None => {},
            }
            assert(sites_view(out@) =~= o + stmt_calls(*s));
        },
    }
}

/// Append the named calls of a statement list.
pub fn collect_stmts(v: &Vec<Stmt>, out: &mut Vec<CallSite>)
    ensures
        sites_view(final(out)@) == sites_view(old(out)@) + stmts_calls(v@),
    decreases v, 0int,
{
    let ghost o = sites_view(out@);
    let n = v.len();
    let mut i: usize = 0;
    assert(o =~= o + stmts_calls(v@.subrange(0, 0)));
    while i < n
        invariant
            n == v@.len(),
            i <= n,
            sites_view(out@) == o + stmts_calls(v@.subrange(0, i as int)),
        decreases n - i,
    {
        collect_stmt(&v[i], out);
        assert(v@.subrange(0, i + 1).subrange(0, i as int) =~= v@.subrange(0, i as int));
        assert(sites_view(out@) =~= o + stmts_calls(v@.subrange(0, i + 1)));
        i = i + 1;
    }
    assert(v@.subrange(0, n as int) =~= v@);
}

/// The named calls of a block, in source order.
pub fn block_calls(b: &Block) -> (r: Vec<CallSite>)
    ensures
        sites_view(r@) == stmts_calls(b.stmts@),
{
    let mut out: Vec<CallSite> = Vec::new();
    assert(sites_view(out@) =~= Seq::empty());
    collect_stmts(&b.stmts, &mut out);
    assert(sites_view(out@) =~= stmts_calls(b.stmts@));
    out
}

/// The named calls of a list of contract predicates, in order.
pub open spec fn contracts_calls(cs: Seq<Contract>) -> Seq<(Seq<char>, Span)>
    decreases cs.len(),
{
    if cs.len() == 0 {
        Seq::empty()
    } else {
        contracts_calls(cs.drop_last()) + expr_calls(cs.last().predicate)
    }
}

/// Append the named calls of a list of contract predicates.
pub fn collect_contracts(cs: &Vec<Contract>, out: &mut Vec<CallSite>)
    ensures
        sites_view(final(out)@) == sites_view(old(out)@) + contracts_calls(cs@),
{
    let ghost o = sites_view(out@);
    let n = cs.len();
    let mut i: usize = 0;
    assert(o =~= o + contracts_calls(cs@.subrange(0, 0)));
    while i < n
        invariant
            n == cs@.len(),
            i <= n,
            sites_view(out@) == o + contracts_calls(cs@.subrange(0, i as int)),
        decreases n - i,
    {
        collect_expr(&cs[i].predicate, out);
        assert(cs@.subrange(0, i + 1).drop_last() =~= cs@.subrange(0, i as int));
        assert(sites_view(out@) =~= o + contracts_calls(cs@.subrange(0, i + 1)));
        i = i + 1;
    }
    assert(cs@.subrange(0, n as int) =~= cs@);
}

/// The names of a list of declared effects.
pub open spec fn effect_names(es: Seq<Effect>) -> Seq<Seq<char>> {
    es.map_values(|e: Effect| e.name@)
}

/// The effects declared by the function named `name`; where several share the
/// name, the last one's.
pub open spec fn declared_effects(items: Seq<Item>, name: Seq<char>) -> Option<Seq<Seq<char>>>
    decreases items.len(),
{
    if items.len() == 0 {
        None
    } else {
        match items.last() {
            Item::Function(f) => if f.signature.name@ == name {
                Some(effect_names(f.signature.effects.effects@))
            } else {
                declared_effects(items.drop_last(), name)
            },
            Item::Type(_) => declared_effects(items.drop_last(), name),
        }
    }
}

/// The effects a built-in performs: file reading is `Read`, file writing is
/// `Write`; every other built-in is pure.
pub open spec fn builtin_effects_of(name: Seq<char>) -> Option<Seq<Seq<char>>> {
    if name == "read_file"@ {
        Some(seq!["Read"@])
    } else if name == "write_file"@ {
        Some(seq!["Write"@])
    } else {
        None
    }
}

/// The effects a call of `name` performs: those a function of the module of
/// that name declares, else those of the built-in of that name. A call with
/// effects is an effect site.
pub open spec fn callee_effects(items: Seq<Item>, name: Seq<char>) -> Option<Seq<Seq<char>>> {
    match declared_effects(items, name) {
        Some(es) => Some(es),
        None => builtin_effects_of(name),
    }
}

/// The effects of the built-in `name`, as effect entries (at an empty span).
pub fn builtin_effects(name: &str) -> (r: Option<Vec<Effect>>)
    ensures
        match r {
            Some(v) => builtin_effects_of(name@) == Some(effect_names(v@)),
            None => builtin_effects_of(name@) is None,
        },
{
    let effect = if str_eq(name, "read_file") {
        "Read"
    } else if str_eq(name, "write_file") {
        "Write"
    } else {
        return None;
    };
    let mut v: Vec<Effect> = Vec::new();
    v.push(Effect { name: owned(effect), span: Span::new(0, 0) });
    proof {
        assert(effect_names(v@) =~= seq![effect@]);
    }
    Some(v)
}

/// The position of the function whose effects `declared_effects` reports.
pub fn find_declared(items: &Vec<Item>, name: &str) -> (r: Option<usize>)
    ensures
        match r {
            Some(k) => k < items@.len() && match items@[k as int] {
                Item::Function(f) => declared_effects(items@, name@) == Some(
                    effect_names(f.signature.effects.effects@),
                ),
                Item::Type(_) => false,
            },
            None => declared_effects(items@, name@) is None,
        },
{
    let mut i: usize = items.len();
    assert(items@.subrange(0, i as int) =~= items@);
    while i > 0
        invariant
            i <= items@.len(),
            declared_effects(items@, name@) == declared_effects(items@.subrange(0, i as int), name@),
        decreases i,
    {
        i = i - 1;
        assert(items@.subrange(0, i + 1).drop_last() =~= items@.subrange(0, i as int));
        match &items[i] {
            Item::Function(f) => {
                if string_is(&f.signature.name, name) {
                    return Some(i);
                }
            },
            Item::Type(_) => {},
        }
    }
    None
}

/// Whether a list of declared effects names `name`.
pub fn declares(es: &Vec<Effect>, name: &str) -> (r: bool)
    ensures
        r == effect_names(es@).contains(name@),
{
    let n = es.len();
    let mut i: usize = 0;
    while i < n
        invariant
            n == es@.len(),
            i <= n,
            forall|j: int| 0 <= j < i ==> es@[j].name@ != name@,
        decreases n - i,
    {
        if string_is(&es[i].name, name) {
            assert(effect_names(es@)[i as int] == name@);
            return true;
        }
        i = i + 1;
    }
    assert(!effect_names(es@).contains(name@));
    false
}

/// `s` occurs among the statements `ss`, at any depth: in the list itself or
/// inside either branch of an `if` in it.
pub open spec fn occurs_in(ss: Seq<Stmt>, s: Stmt) -> bool
    decreases ss, 0int,
{
    if ss.len() == 0 {
        false
    } else {
        occurs_in(ss.subrange(0, ss.len() - 1), s) || occurs_in_stmt(ss[ss.len() - 1], s)
    }
}

/// `s` is `t`, or occurs inside a branch of `t`.
pub open spec fn occurs_in_stmt(t: Stmt, s: Stmt) -> bool
    decreases t, 1int,
{
    t == s || match t {
        Stmt::If { then_block, else_block, .. } => occurs_in(then_block.stmts@, s) || match else_block {
            Some(b) => occurs_in(b.stmts@, s),
            None => false,
        },
        _ => false,
    }
}

/// Appending keeps what either part holds.
pub proof fn lemma_contains_append<T>(a: Seq<T>, b: Seq<T>, x: T)
    ensures
        a.contains(x) ==> (a + b).contains(x),
        b.contains(x) ==> (a + b).contains(x),
{
    if a.contains(x) {
        let i = choose|i: int| 0 <= i < a.len() && a[i] == x;
        assert((a + b)[i] == x);
    }
    if b.contains(x) {
        let i = choose|i: int| 0 <= i < b.len() && b[i] == x;
        assert((a + b)[a.len() + i] == x);
    }
}

/// The calls a statement makes itself, outside any block nested in it.
pub open spec fn own_calls(s: Stmt) -> Seq<(Seq<char>, Span)> {
    match s {
        Stmt::Let { value, .. } => expr_calls(value),
        Stmt::Expr(e) => expr_calls(e),
        Stmt::Return { value, .. } => match value {
            Some(e) => expr_calls(e),
            None => Seq::empty(),
        },
        Stmt::Check { predicate, .. } => expr_calls(predicate),
        Stmt::If { cond, .. } => expr_calls(cond),
    }
}

proof fn lemma_own_calls_listed_stmts(ss: Seq<Stmt>, s: Stmt, c: (Seq<char>, Span))
    requires
        occurs_in(ss, s),
        own_calls(s).contains(c),
    ensures
        stmts_calls(ss).contains(c),
    decreases ss, 0int,
{
    let pre = ss.subrange(0, ss.len() - 1);
    let last = ss[ss.len() - 1];
    if occurs_in(pre, s) {
        lemma_own_calls_listed_stmts(pre, s, c);
    } else {
        lemma_own_calls_listed_stmt(last, s, c);
    }
    lemma_contains_append(stmts_calls(pre), stmt_calls(last), c);
}

proof fn lemma_own_calls_listed_stmt(t: Stmt, s: Stmt, c: (Seq<char>, Span))
    requires
        occurs_in_stmt(t, s),
        own_calls(s).contains(c),
    ensures
        stmt_calls(t).contains(c),
    decreases t, 1int,
{
    match t {
        Stmt::If { cond, then_block, else_block, .. } => {
            let a = expr_calls(cond);
            let b = stmts_calls(then_block.stmts@);
            let e = match else_block {
                Some(x) => stmts_calls(x.stmts@),
                None => Seq::empty(),
            };
            if t == s {
                lemma_contains_append(a, b, c);
            } else if occurs_in(then_block.stmts@, s) {
                lemma_own_calls_listed_stmts(then_block.stmts@, s, c);
                lemma_contains_append(a, b, c);
            } else {
                match else_block {
                    Some(x) => lemma_own_calls_listed_stmts(x.stmts@, s, c),
                    None => {},
                }
            }
            lemma_contains_append(a + b, e, c);
        },
        _ => {},
    }
}

/// No call is overlooked: every call made by any statement of a body, at any
/// depth (inside either branch of an `if` too), is among the body's listed
/// call sites, which the honesty and authority passes check one by one.
pub proof fn law_every_nested_call_is_listed(ss: Seq<Stmt>, s: Stmt, c: (Seq<char>, Span))
    requires
        occurs_in(ss, s),
        own_calls(s).contains(c),
    ensures
        stmts_calls(ss).contains(c),
{
    lemma_own_calls_listed_stmts(ss, s, c);
}

} // verus!
