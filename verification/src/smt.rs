//! Contracts as SMT-LIB2 verification queries.
//!
//! For each `ensures` clause a query is built that is unsatisfiable exactly
//! when the postcondition holds for all inputs: assume the `requires`, model
//! the body's `result`, and assert the negation of the clause. A solver
//! answering `unsat` has proved the clause; `sat` exhibits a counterexample.
//!
//! The supported fragment is small and sound: parameters of type `Int` or
//! `Bool`; bodies of `let` / `if` / `return` over `+ - *`, comparisons,
//! boolean operators, equality and unary `-` / `!`. Division and remainder are
//! left out (SMT integer division rounds differently from Writ's truncation),
//! as are calls, `match` and text. A function outside the fragment yields no
//! queries. Integers are modelled as unbounded; overflow, which traps at run
//! time, is not modelled.

use vstd::prelude::*;
use crate::ast::{BinaryOp, Contract, Expr, Function, LiteralKind, Param, Stmt, UnaryOp};
use crate::span::Span;
use crate::value::Val;
use crate::text::{copy_string, decimal, owned, push_str, push_u64, string_is};

verus! {

/// One verification query: the SMT-LIB2 script, and the `ensures` clause it
/// proves, so a failure is reported at that clause.
#[derive(Debug, Clone, PartialEq, Eq)]
pub struct Query {
    pub clause_span: Span,
    pub script: String,
}

impl View for Query {
    type V = (Span, Seq<char>);

    open spec fn view(&self) -> (Span, Seq<char>) {
        (self.clause_span, self.script@)
    }
}

/// What names stand for: each name with its SMT term. A later entry for a
/// name hides an earlier one.
pub type SmtEnv = Seq<(Seq<char>, Seq<char>)>;

/// The view of an executable environment.
pub open spec fn env_view(v: Seq<(String, String)>) -> SmtEnv {
    v.map_values(|b: (String, String)| (b.0@, b.1@))
}

/// The term a name stands for: its latest entry.
pub open spec fn env_lookup(env: SmtEnv, n: Seq<char>) -> Option<Seq<char>>
    decreases env.len(),
{
    if env.len() == 0 {
        None
    } else if env.last().0 == n {
        Some(env.last().1)
    } else {
        env_lookup(env.drop_last(), n)
    }
}

/// The SMT-LIB2 operator of a binary operator in the fragment.
pub open spec fn smt_op(op: BinaryOp) -> Option<Seq<char>> {
    match op {
        BinaryOp::Add => Some("+"@),
        BinaryOp::Sub => Some("-"@),
        BinaryOp::Mul => Some("*"@),
        BinaryOp::Lt => Some("<"@),
        BinaryOp::Le => Some("<="@),
        BinaryOp::Gt => Some(">"@),
        BinaryOp::Ge => Some(">="@),
        BinaryOp::Eq => Some("="@),
        BinaryOp::Ne => Some("distinct"@),
        BinaryOp::And => Some("and"@),
        BinaryOp::Or => Some("or"@),
        BinaryOp::Div => None,
        BinaryOp::Rem => None,
    }
}

/// An integer literal as an SMT term; a negative one as `(- n)`.
pub open spec fn smt_int(n: i64) -> Seq<char> {
    if n < 0 {
        "(- "@ + decimal((-(n as int)) as nat) + ")"@
    } else {
        decimal(n as nat)
    }
}

/// An expression as an SMT term, or `None` outside the fragment.
pub open spec fn smt_term(e: Expr, env: SmtEnv) -> Option<Seq<char>>
    decreases e,
{
    match e {
        Expr::Literal(lit) => match lit.kind {
            LiteralKind::Int(n) => Some(smt_int(n)),
            LiteralKind::Bool(b) => Some(if b { "true"@ } else { "false"@ }),
            LiteralKind::Text(_) => None,
        },
        Expr::Identifier { name, .. } => env_lookup(env, name@),
        Expr::Unary { op, operand, .. } => match smt_term(*operand, env) {
            Some(x) => Some(match op {
                UnaryOp::Neg => "(- "@ + x + ")"@,
                UnaryOp::Not => "(not "@ + x + ")"@,
            }),
            None => None,
        },
        Expr::Binary { op, left, right, .. } => match (smt_term(*left, env), smt_term(*right, env), smt_op(op)) {
            (Some(l), Some(r), Some(sym)) => Some("("@ + sym + " "@ + l + " "@ + r + ")"@),
            _ => None,
        },
        _ => None,
    }
}

/// The result of running `ss` from position `i`, as an SMT term over the
/// parameters, or `None` outside the fragment. A `let` extends the
/// environment; an `if` becomes an `ite` whose false branch, without an
/// `else`, is the rest of the list; statements without a value are skipped.
pub open spec fn smt_result(ss: Seq<Stmt>, i: int, env: SmtEnv) -> Option<Seq<char>>
    decreases ss, ss.len() - i,
{
    if i < 0 || i >= ss.len() {
        None
    } else {
        match ss[i] {
            Stmt::Let { name, value, .. } => match smt_term(value, env) {
                Some(v) => smt_result(ss, i + 1, env.push((name@, v))),
                None => None,
            },
            Stmt::Return { value, .. } => match value {
                Some(e) => smt_term(e, env),
                None => smt_result(ss, i + 1, env),
            },
            Stmt::If { cond, then_block, else_block, .. } => {
                proof {
                    assert(decreases_to!(ss => ss[i]));
                }
                match smt_term(cond, env) {
                    Some(c) => match smt_result(then_block.stmts@, 0, env) {
                        Some(t) => match (match else_block {
                            Some(b) => smt_result(b.stmts@, 0, env),
                            None => smt_result(ss, i + 1, env),
                        }) {
                            Some(u) => Some("(ite "@ + c + " "@ + t + " "@ + u + ")"@),
                            None => None,
                        },
                        None => None,
                    },
                    None => None,
                }
            },
            _ => smt_result(ss, i + 1, env),
        }
    }
}

fn lookup(env: &Vec<(String, String)>, n: &str) -> (r: Option<String>)
    ensures
        match r {
            Some(t) => env_lookup(env_view(env@), n@) == Some(t@),
            None => env_lookup(env_view(env@), n@) is None,
        },
{
    let ghost ev = env_view(env@);
    let mut i = env.len();
    assert(ev.subrange(0, i as int) =~= ev);
    while i > 0
        invariant
            i <= env@.len(),
            ev == env_view(env@),
            env_lookup(ev, n@) == env_lookup(ev.subrange(0, i as int), n@),
        decreases i,
    {
        assert(ev.subrange(0, i as int).drop_last() =~= ev.subrange(0, i - 1));
        assert(ev[i - 1] == (env@[i - 1].0@, env@[i - 1].1@));
        if string_is(&env[i - 1].0, n) {
            return Some(copy_string(&env[i - 1].1));
        }
        i = i - 1;
    }
    None
}

fn copy_env(env: &Vec<(String, String)>) -> (r: Vec<(String, String)>)
    ensures
        env_view(r@) == env_view(env@),
{
    let mut out: Vec<(String, String)> = Vec::new();
    let n = env.len();
    let mut i: usize = 0;
    while i < n
        invariant
            n == env@.len(),
            i <= n,
            env_view(out@) == env_view(env@.subrange(0, i as int)),
        decreases n - i,
    {
        let ghost before = env_view(out@);
        out.push((copy_string(&env[i].0), copy_string(&env[i].1)));
        assert(env_view(out@) =~= before.push((env@[i as int].0@, env@[i as int].1@)));
        assert(env_view(env@.subrange(0, i + 1)) =~= env_view(env@.subrange(0, i as int)).push((env@[i as int].0@, env@[i as int].1@)));
        i = i + 1;
    }
    assert(env@.subrange(0, n as int) =~= env@);
    out
}

/// Whether an optional string agrees with an optional text.
pub open spec fn opt_text(r: Option<String>, s: Option<Seq<char>>) -> bool {
    match (r, s) {
        (Some(a), Some(b)) => a@ == b,
        (None, None) => true,
        _ => false,
    }
}

fn push_int(out: &mut String, n: i64)
    ensures
        final(out)@ == old(out)@ + smt_int(n),
{
    if n < 0 {
        push_str(out, "(- ");
        let m: u64 = (0i128 - (n as i128)) as u64;
        push_u64(out, m);
        push_str(out, ")");
        assert(final(out)@ =~= old(out)@ + smt_int(n));
    } else {
        push_u64(out, n as u64);
    }
}

/// Translate an expression to an SMT term, or `None` outside the fragment.
fn translate(e: &Expr, env: &Vec<(String, String)>) -> (r: Option<String>)
    ensures
        opt_text(r, smt_term(*e, env_view(env@))),
    decreases crate::ast::expr_size(*e),
{
    match e {
        Expr::Literal(lit) => match &lit.kind {
            LiteralKind::Int(n) => {
                let mut out = String::new();
                push_int(&mut out, *n);
                assert(out@ =~= smt_int(*n));
                Some(out)
            },
            LiteralKind::Bool(b) => Some(if *b { owned("true") } else { owned("false") }),
            LiteralKind::Text(_) => None,
        },
        Expr::Identifier { name, .. } => lookup(env, name.as_str()),
        Expr::Unary { op, operand, .. } => {
            let x = match translate(operand, env) {
                Some(x) => x,
                None => return None,
            };
            let mut out = String::new();
            match op {
                UnaryOp::Neg => push_str(&mut out, "(- "),
                UnaryOp::Not => push_str(&mut out, "(not "),
            }
            push_str(&mut out, x.as_str());
            push_str(&mut out, ")");
            assert(opt_text(Some(out), smt_term(*e, env_view(env@))));
            Some(out)
        },
        Expr::Binary { op, left, right, .. } => {
            let l = match translate(left, env) {
                Some(l) => l,
                None => return None,
            };
            let r = match translate(right, env) {
                Some(r) => r,
                None => return None,
            };
            let sym = match op {
                BinaryOp::Add => "+",
                BinaryOp::Sub => "-",
                BinaryOp::Mul => "*",
                BinaryOp::Lt => "<",
                BinaryOp::Le => "<=",
                BinaryOp::Gt => ">",
                BinaryOp::Ge => ">=",
                BinaryOp::Eq => "=",
                BinaryOp::Ne => "distinct",
                BinaryOp::And => "and",
                BinaryOp::Or => "or",
                BinaryOp::Div | BinaryOp::Rem => return None,
            };
            assert(smt_op(*op) == Some(sym@));
            let mut out = String::new();
            push_str(&mut out, "(");
            push_str(&mut out, sym);
            push_str(&mut out, " ");
            push_str(&mut out, l.as_str());
            push_str(&mut out, " ");
            push_str(&mut out, r.as_str());
            push_str(&mut out, ")");
            assert(out@ =~= "("@ + sym@ + " "@ + l@ + " "@ + r@ + ")"@);
            Some(out)
        },
        _ => None,
    }
}

/// Model the result of `ss` from position `start`.
fn model(ss: &Vec<Stmt>, start: usize, init: &Vec<(String, String)>) -> (r: Option<String>)
    requires
        start <= ss@.len(),
    ensures
        opt_text(r, smt_result(ss@, start as int, env_view(init@))),
    decreases crate::ast::stmts_size(ss@), ss@.len() - start,
{
    let ghost env0 = env_view(init@);
    let mut env = copy_env(init);
    let n = ss.len();
    let mut i = start;
    while i < n
        invariant
            n == ss@.len(),
            start <= i <= n,
            env0 == env_view(init@),
            smt_result(ss@, start as int, env0) == smt_result(ss@, i as int, env_view(env@)),
        decreases n - i,
    {
        proof {
            crate::ast::lemma_stmts_size(ss@, i as int);
        }
        match &ss[i] {
            Stmt::Let { name, value, .. } => {
                let v = match translate(value, &env) {
                    Some(v) => v,
                    None => return None,
                };
                let ghost before = env_view(env@);
                let ghost vv = v@;
                env.push((copy_string(name), v));
                assert(env_view(env@) =~= before.push((name@, vv)));
            },
            Stmt::Return { value, .. } => {
                match value {
                    Some(e) => return translate(e, &env),
                    None => {},
                }
            },
            Stmt::If { cond, then_block, else_block, .. } => {
                let c = match translate(cond, &env) {
                    Some(c) => c,
                    None => return None,
                };
                let t = match model(&then_block.stmts, 0, &env) {
                    Some(t) => t,
                    None => return None,
                };
                let u = match else_block {
                    Some(b) => model(&b.stmts, 0, &env),
                    None => model(ss, i + 1, &env),
                };
                let u = match u {
                    Some(u) => u,
                    None => return None,
                };
                let mut out = String::new();
                push_str(&mut out, "(ite ");
                push_str(&mut out, c.as_str());
                push_str(&mut out, " ");
                push_str(&mut out, t.as_str());
                push_str(&mut out, " ");
                push_str(&mut out, u.as_str());
                push_str(&mut out, ")");
                assert(out@ =~= "(ite "@ + c@ + " "@ + t@ + " "@ + u@ + ")"@);
                return Some(out);
            },
            _ => {},
        }
        i = i + 1;
    }
    None
}

/// The SMT sort of a parameter: `Int` or `Bool` without type arguments,
/// else `None`.
pub open spec fn param_sort(p: Param) -> Option<Seq<char>> {
    if p.ty.args@.len() == 0 && p.ty.name@ == "Int"@ {
        Some("Int"@)
    } else if p.ty.args@.len() == 0 && p.ty.name@ == "Bool"@ {
        Some("Bool"@)
    } else {
        None
    }
}

/// Every parameter has a sort.
pub open spec fn params_in_fragment(ps: Seq<Param>) -> bool {
    forall|i: int| 0 <= i < ps.len() ==> (#[trigger] param_sort(ps[i])) is Some
}

/// The declarations of the parameters as SMT constants.
pub open spec fn param_decls(ps: Seq<Param>) -> Seq<char>
    decreases ps.len(),
{
    if ps.len() == 0 {
        Seq::empty()
    } else {
        param_decls(ps.drop_last()) + "(declare-const "@ + ps.last().name@ + " "@ + param_sort(ps.last()).unwrap_or(
            Seq::empty(),
        ) + ")\n"@
    }
}

/// Each parameter stands for the constant of its own name.
pub open spec fn param_env(ps: Seq<Param>) -> SmtEnv {
    ps.map_values(|p: Param| (p.name@, p.name@))
}

/// The `requires` clauses as assumptions, or `None` when one lies outside
/// the fragment (then none can be soundly assumed).
pub open spec fn assumptions(cs: Seq<Contract>, env: SmtEnv) -> Option<Seq<char>>
    decreases cs.len(),
{
    if cs.len() == 0 {
        Some(Seq::empty())
    } else {
        match (assumptions(cs.drop_last(), env), smt_term(cs.last().predicate, env)) {
            (Some(a), Some(p)) => Some(a + "(assert "@ + p + ")\n"@),
            _ => None,
        }
    }
}

/// One query per `ensures` clause inside the fragment, each after the common
/// `prefix` (declarations and assumptions); other clauses are skipped.
pub open spec fn clause_queries(cs: Seq<Contract>, env: SmtEnv, prefix: Seq<char>) -> Seq<(Span, Seq<char>)>
    decreases cs.len(),
{
    if cs.len() == 0 {
        Seq::empty()
    } else {
        clause_queries(cs.drop_last(), env, prefix) + match smt_term(cs.last().predicate, env) {
            Some(p) => seq![(cs.last().span, prefix + "(assert (not "@ + p + "))\n(check-sat)\n"@)],
            None => Seq::empty(),
        }
    }
}

/// The verification queries of a function: none without `ensures`, none
/// outside the fragment, else one per `ensures` clause in the fragment, with
/// `result` standing for the modelled body.
pub open spec fn queries_of(f: Function) -> Seq<(Span, Seq<char>)> {
    let sig = f.signature;
    if sig.ensures@.len() == 0 || !params_in_fragment(sig.params@) {
        Seq::empty()
    } else {
        let env = param_env(sig.params@);
        match (smt_result(f.body.stmts@, 0, env), assumptions(sig.requires@, env)) {
            (Some(res), Some(a)) => clause_queries(sig.ensures@, env.push(("result"@, res)), param_decls(sig.params@) + a),
            _ => Seq::empty(),
        }
    }
}

/// The spans of the `ensures` clauses outside the fragment, in order.
pub open spec fn skipped_clauses(cs: Seq<Contract>, env: SmtEnv) -> Seq<Span>
    decreases cs.len(),
{
    if cs.len() == 0 {
        Seq::empty()
    } else {
        skipped_clauses(cs.drop_last(), env) + match smt_term(cs.last().predicate, env) {
            Some(_) => Seq::empty(),
            None => seq![cs.last().span],
        }
    }
}

/// The `ensures` clauses of a function that no query covers although the
/// function itself is within the fragment: those whose predicate lies
/// outside it. None when the whole function is outside the fragment.
pub open spec fn skipped_of(f: Function) -> Seq<Span> {
    let sig = f.signature;
    if sig.ensures@.len() == 0 || !params_in_fragment(sig.params@) {
        Seq::empty()
    } else {
        let env = param_env(sig.params@);
        match (smt_result(f.body.stmts@, 0, env), assumptions(sig.requires@, env)) {
            (Some(res), Some(a)) => skipped_clauses(sig.ensures@, env.push(("result"@, res))),
            _ => Seq::empty(),
        }
    }
}

/// Each `ensures` clause is either queried or skipped.
pub proof fn lemma_clauses_split(cs: Seq<Contract>, env: SmtEnv, prefix: Seq<char>)
    ensures
        clause_queries(cs, env, prefix).len() + skipped_clauses(cs, env).len() == cs.len(),
    decreases cs.len(),
{
    if cs.len() > 0 {
        lemma_clauses_split(cs.drop_last(), env, prefix);
    }
}

/// Within the fragment, a function's `ensures` clauses are split between its
/// queries and its skipped clauses.
pub proof fn lemma_queries_and_skipped_cover(f: Function)
    ensures
        queries_of(f).len() > 0 ==> queries_of(f).len() + skipped_of(f).len() == f.signature.ensures@.len(),
{
    let sig = f.signature;
    if sig.ensures@.len() > 0 && params_in_fragment(sig.params@) {
        let env = param_env(sig.params@);
        match (smt_result(f.body.stmts@, 0, env), assumptions(sig.requires@, env)) {
            (Some(res), Some(a)) => lemma_clauses_split(sig.ensures@, env.push(("result"@, res)), param_decls(sig.params@) + a),
            _ => {},
        }
    }
}

/// The views of a list of queries.
pub open spec fn queries_view(v: Seq<Query>) -> Seq<(Span, Seq<char>)> {
    v.map_values(|q: Query| q@)
}

/// Build the verification queries of `f`: one per `ensures` clause within
/// the supported fragment, none when it has no `ensures` or its parameters,
/// body or `requires` fall outside the fragment.
pub fn function_queries(f: &Function) -> (r: Vec<Query>)
    ensures
        queries_view(r@) == queries_of(*f),
{
    queries_and_skipped(f).0
}

/// The verification queries of `f`, and the spans of the `ensures` clauses
/// they leave out (see `skipped_of`).
pub fn queries_and_skipped(f: &Function) -> (r: (Vec<Query>, Vec<Span>))
    ensures
        queries_view(r.0@) == queries_of(*f),
        r.1@ == skipped_of(*f),
{
    let sig = &f.signature;
    if sig.ensures.len() == 0 {
        let none: Vec<Query> = Vec::new();
        assert(queries_view(none@) =~= Seq::<(Span, Seq<char>)>::empty());
        return (none, Vec::new());
    }
    // Parameters: each `Int` or `Bool`.
    let ps = &sig.params;
    let mut decls = String::new();
    let mut env: Vec<(String, String)> = Vec::new();
    let n = ps.len();
    let mut i: usize = 0;
    assert(ps@.subrange(0, 0) =~= Seq::<Param>::empty());
    assert(env_view(env@) =~= param_env(ps@.subrange(0, 0)));
    while i < n
        invariant
            n == ps@.len(),
            i <= n,
            params_in_fragment(ps@.subrange(0, i as int)),
            decls@ == param_decls(ps@.subrange(0, i as int)),
            env_view(env@) == param_env(ps@.subrange(0, i as int)),
            ps == &f.signature.params,
            sig == &f.signature,
            sig.ensures@.len() > 0,
        decreases n - i,
    {
        let p = &ps[i];
        let sort = if p.ty.args.len() == 0 && string_is(&p.ty.name, "Int") {
            "Int"
        } else if p.ty.args.len() == 0 && string_is(&p.ty.name, "Bool") {
            "Bool"
        } else {
            assert(param_sort(ps@[i as int]) is None);
            assert(!params_in_fragment(ps@));
            let none: Vec<Query> = Vec::new();
            assert(queries_view(none@) =~= Seq::<(Span, Seq<char>)>::empty());
            return (none, Vec::new());
        };
        assert(param_sort(*p) == Some(sort@));
        push_str(&mut decls, "(declare-const ");
        push_str(&mut decls, p.name.as_str());
        push_str(&mut decls, " ");
        push_str(&mut decls, sort);
        push_str(&mut decls, ")\n");
        let ghost before = env_view(env@);
        env.push((copy_string(&p.name), copy_string(&p.name)));
        proof {
            let q = ps@.subrange(0, i + 1);
            assert(q.drop_last() =~= ps@.subrange(0, i as int));
            assert(q.last() == ps@[i as int]);
            assert(env_view(env@) =~= before.push((p.name@, p.name@)));
            assert(param_env(q) =~= param_env(ps@.subrange(0, i as int)).push((p.name@, p.name@)));
            assert forall|j: int| 0 <= j < q.len() implies (#[trigger] param_sort(q[j])) is Some by {
                if j < i {
                    assert(q[j] == ps@.subrange(0, i as int)[j]);
                }
            }
        }
        i = i + 1;
    }
    assert(ps@.subrange(0, n as int) =~= ps@);
    let ghost penv = param_env(ps@);
    // The body's result.
    let result = match model(&f.body.stmts, 0, &env) {
        Some(t) => t,
        None => {
            let none: Vec<Query> = Vec::new();
            assert(queries_view(none@) =~= Seq::<(Span, Seq<char>)>::empty());
            return (none, Vec::new());
        },
    };
    // Every `requires` is an assumption, or no query can soundly be made.
    let rs = &sig.requires;
    let mut prefix = copy_string(&decls);
    let m = rs.len();
    let mut j: usize = 0;
    assert(rs@.subrange(0, 0) =~= Seq::<Contract>::empty());
    assert(prefix@ =~= decls@ + Seq::<char>::empty());
    while j < m
        invariant
            m == rs@.len(),
            j <= m,
            assumptions(rs@.subrange(0, j as int), env_view(env@)) matches Some(a) && prefix@ == decls@ + a,
            env_view(env@) == penv,
            penv == param_env(ps@),
            params_in_fragment(ps@),
            sig.ensures@.len() > 0,
            smt_result(f.body.stmts@, 0, penv) == Some(result@),
            ps == &f.signature.params,
            rs == &f.signature.requires,
            sig == &f.signature,
        decreases m - j,
    {
        let ghost q = rs@.subrange(0, j + 1);
        assert(q.drop_last() =~= rs@.subrange(0, j as int));
        assert(q.last() == rs@[j as int]);
        let pred = match translate(&rs[j].predicate, &env) {
            Some(p) => p,
            None => {
                proof {
                    lemma_assumptions_none(rs@, env_view(env@), j + 1);
                }
                let none: Vec<Query> = Vec::new();
                assert(queries_view(none@) =~= Seq::<(Span, Seq<char>)>::empty());
                return (none, Vec::new());
            },
        };
        push_str(&mut prefix, "(assert ");
        push_str(&mut prefix, pred.as_str());
        push_str(&mut prefix, ")\n");
        j = j + 1;
    }
    assert(rs@.subrange(0, m as int) =~= rs@);
    let ghost a = assumptions(rs@, penv)->Some_0;
    assert(prefix@ == param_decls(ps@) + a);
    // One query per `ensures` clause, with `result` bound to the model.
    let ghost res = result@;
    let ghost before_env = env_view(env@);
    env.push((owned("result"), result));
    assert(env_view(env@) =~= before_env.push(("result"@, res)));
    assert(queries_of(*f) == clause_queries(sig.ensures@, penv.push(("result"@, res)), param_decls(ps@) + a));
    assert(skipped_of(*f) == skipped_clauses(sig.ensures@, penv.push(("result"@, res))));
    let es = &sig.ensures;
    let mut out: Vec<Query> = Vec::new();
    let mut skipped: Vec<Span> = Vec::new();
    let k = es.len();
    let mut j: usize = 0;
    assert(es@.subrange(0, 0) =~= Seq::<Contract>::empty());
    assert(queries_view(out@) =~= Seq::<(Span, Seq<char>)>::empty());
    while j < k
        invariant
            k == es@.len(),
            j <= k,
            queries_view(out@) == clause_queries(es@.subrange(0, j as int), env_view(env@), prefix@),
            skipped@ == skipped_clauses(es@.subrange(0, j as int), env_view(env@)),
        decreases k - j,
    {
        let ghost q = es@.subrange(0, j + 1);
        assert(q.drop_last() =~= es@.subrange(0, j as int));
        assert(q.last() == es@[j as int]);
        let ghost before = queries_view(out@);
        match translate(&es[j].predicate, &env) {
            Some(p) => {
                let mut script = copy_string(&prefix);
                push_str(&mut script, "(assert (not ");
                push_str(&mut script, p.as_str());
                push_str(&mut script, "))\n(check-sat)\n");
                let query = Query { clause_span: es[j].span, script };
                let ghost qv = query@;
                out.push(query);
                assert(queries_view(out@) =~= before.push(qv));
                assert(qv == (es@[j as int].span, prefix@ + "(assert (not "@ + p@ + "))\n(check-sat)\n"@));
            },
            None => {
                let ghost sb = skipped@;
                skipped.push(es[j].span);
                assert(skipped@ =~= sb + seq![es@[j as int].span]);
            },
        }
        j = j + 1;
    }
    assert(es@.subrange(0, k as int) =~= es@);
    (out, skipped)
}

proof fn lemma_assumptions_none(cs: Seq<Contract>, env: SmtEnv, k: int)
    requires
        0 <= k <= cs.len(),
        assumptions(cs.subrange(0, k), env) is None,
    ensures
        assumptions(cs, env) is None,
    decreases cs.len() - k,
{
    if k < cs.len() {
        assert(cs.subrange(0, k + 1).drop_last() =~= cs.subrange(0, k));
        lemma_assumptions_none(cs, env, k + 1);
    } else {
        assert(cs.subrange(0, k) =~= cs);
    }
}

// --- What the SMT operators mean -----------------------------------------------

/// What an SMT-LIB integer operator computes (theory of `Int`), if `sym` is
/// one.
pub open spec fn smtlib_int_op(sym: Seq<char>, a: int, b: int) -> Option<int> {
    if sym == "+"@ {
        Some(a + b)
    } else if sym == "-"@ {
        Some(a - b)
    } else if sym == "*"@ {
        Some(a * b)
    } else {
        None
    }
}

/// What an SMT-LIB relation between integers says (theories `Int` and
/// core), if `sym` is one.
pub open spec fn smtlib_int_rel(sym: Seq<char>, a: int, b: int) -> Option<bool> {
    if sym == "<"@ {
        Some(a < b)
    } else if sym == "<="@ {
        Some(a <= b)
    } else if sym == ">"@ {
        Some(a > b)
    } else if sym == ">="@ {
        Some(a >= b)
    } else if sym == "="@ {
        Some(a == b)
    } else if sym == "distinct"@ {
        Some(a != b)
    } else {
        None
    }
}

/// What an SMT-LIB boolean connective says (core theory), if `sym` is one.
pub open spec fn smtlib_bool_op(sym: Seq<char>, p: bool, q: bool) -> Option<bool> {
    if sym == "and"@ {
        Some(p && q)
    } else if sym == "or"@ {
        Some(p || q)
    } else if sym == "="@ {
        Some(p == q)
    } else if sym == "distinct"@ {
        Some(p != q)
    } else {
        None
    }
}

/// Each operator in the fragment is sent to the solver as the SMT-LIB
/// operator that means what the interpreter computes: on `Int`s `a` and `b`,
/// `+`, `-`, `*` give the interpreter's result wherever it has one, the
/// orderings and `==`/`!=` hold exactly when the interpreter says `true`, and
/// `&&`/`||`/`==`/`!=` on `Bool`s are the matching connectives. Division and
/// remainder stay outside the fragment.
pub proof fn law_smt_operators_mean_what_the_interpreter_computes(op: BinaryOp, a: i64, b: i64, p: bool, q: bool, span: Span)
    ensures
        (op is Div || op is Rem) <==> smt_op(op) is None,
        (op is Add || op is Sub || op is Mul) ==> (crate::ops::arith_v(op, Val::Int(a), Val::Int(b), span) matches Ok(
            Val::Int(c),
        ) ==> smtlib_int_op(smt_op(op)->Some_0, a as int, b as int) == Some(c as int)),
        (op is Lt || op is Le || op is Gt || op is Ge) ==> smtlib_int_rel(smt_op(op)->Some_0, a as int, b as int) == Some(
            crate::ops::order_holds(op, a, b),
        ),
        op is Eq ==> smtlib_int_rel(smt_op(op)->Some_0, a as int, b as int) == Some(
            crate::ops::val_eq(Val::Int(a), Val::Int(b))->Ok_0,
        ),
        op is Ne ==> smtlib_int_rel(smt_op(op)->Some_0, a as int, b as int) == Some(
            !crate::ops::val_eq(Val::Int(a), Val::Int(b))->Ok_0,
        ),
        op is Eq ==> smtlib_bool_op(smt_op(op)->Some_0, p, q) == Some(crate::ops::val_eq(Val::Bool(p), Val::Bool(q))->Ok_0),
        op is Ne ==> smtlib_bool_op(smt_op(op)->Some_0, p, q) == Some(!crate::ops::val_eq(Val::Bool(p), Val::Bool(q))->Ok_0),
        op is And ==> smtlib_bool_op(smt_op(op)->Some_0, p, q) == Some(p && q),
        op is Or ==> smtlib_bool_op(smt_op(op)->Some_0, p, q) == Some(p || q),
{
    reveal_strlit("+");
    reveal_strlit("-");
    reveal_strlit("*");
    reveal_strlit("<");
    reveal_strlit("<=");
    reveal_strlit(">");
    reveal_strlit(">=");
    reveal_strlit("=");
    reveal_strlit("distinct");
    reveal_strlit("and");
    reveal_strlit("or");
    let syms = seq!["+"@, "-"@, "*"@, "<"@, "<="@, ">"@, ">="@, "="@, "distinct"@, "and"@, "or"@];
    assert forall|i: int, j: int| 0 <= i < j < syms.len() implies syms[i] != syms[j] by {
        if syms[i].len() == syms[j].len() {
            assert(syms[i][0] != syms[j][0] || syms[i][syms[i].len() - 1] != syms[j][syms[j].len() - 1]);
        }
    }
    assert(syms[0] == "+"@ && syms[1] == "-"@ && syms[2] == "*"@ && syms[3] == "<"@ && syms[4] == "<="@ && syms[5] == ">"@);
    assert(syms[6] == ">="@ && syms[7] == "="@ && syms[8] == "distinct"@ && syms[9] == "and"@ && syms[10] == "or"@);
}

} // verus!
