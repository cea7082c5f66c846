//! Contract desugaring: the one place where `requires` / `ensures` become
//! executable checks.
//!
//! Every contract clause is lowered once into the shared `Stmt::Check` form
//! (a run-time assertion carrying blame), so each back end implements only
//! `Check`:
//!
//! - each `requires` clause becomes a `Check` blaming the caller, prepended to
//!   the body;
//! - each `ensures` clause becomes a `Check` blaming the implementation, run on
//!   every exit path with `result` bound to the returned value;
//! - the signature's clauses are then cleared, so lowering an already-lowered
//!   module changes nothing.

use vstd::prelude::*;
use crate::ast::{
    copy_expr, copy_opt_type_expr, copy_stmt, copy_type_expr, copy_type_exprs, same_expr,
    same_opt_texpr, same_stmt, same_stmts, same_texpr, same_texprs, Block, Contract, Effect, EffectSet, Expr,
    Function, Import, Item, Module, Param, Signature, Stmt, TypeDecl, Variant,
};
use crate::diagnostic::Blame;

use crate::text::{copy_string, owned};

verus! {

// --- Sameness of the remaining node kinds ---------------------------------

/// Two parameters alike.
pub open spec fn same_param(a: Param, b: Param) -> bool {
    a.name@ == b.name@ && a.span == b.span && same_texpr(a.ty, b.ty)
}

/// Two effect sets alike: the same names and spans, in order.
pub open spec fn same_effects(a: EffectSet, b: EffectSet) -> bool {
    &&& a.span == b.span
    &&& a.effects@.len() == b.effects@.len()
    &&& forall|i: int|
        0 <= i < a.effects@.len() ==> (#[trigger] a.effects@[i]).name@ == b.effects@[i].name@
            && a.effects@[i].span == b.effects@[i].span
}

/// Two contract lists alike.
pub open spec fn same_contracts(a: Seq<Contract>, b: Seq<Contract>) -> bool {
    &&& a.len() == b.len()
    &&& forall|i: int|
        0 <= i < a.len() ==> (#[trigger] a[i]).span == b[i].span && same_expr(a[i].predicate, b[i].predicate)
}

/// Two signatures alike, contracts aside.
pub open spec fn same_header(a: Signature, b: Signature) -> bool {
    &&& a.name@ == b.name@
    &&& a.span == b.span
    &&& a.params@.len() == b.params@.len()
    &&& forall|i: int| 0 <= i < a.params@.len() ==> same_param(#[trigger] a.params@[i], b.params@[i])
    &&& same_opt_texpr(a.return_type, b.return_type)
    &&& same_effects(a.effects, b.effects)
}

/// Two sum-type declarations alike.
pub open spec fn same_decl(a: TypeDecl, b: TypeDecl) -> bool {
    &&& a.exported == b.exported
    &&& a.name@ == b.name@
    &&& a.span == b.span
    &&& a.generics@.len() == b.generics@.len()
    &&& forall|i: int| 0 <= i < a.generics@.len() ==> (#[trigger] a.generics@[i])@ == b.generics@[i]@
    &&& a.variants@.len() == b.variants@.len()
    &&& forall|i: int|
        0 <= i < a.variants@.len() ==> (#[trigger] a.variants@[i]).name@ == b.variants@[i].name@
            && a.variants@[i].span == b.variants@[i].span && same_texprs(
            a.variants@[i].fields@,
            b.variants@[i].fields@,
        )
}

/// Two functions alike at every node.
pub open spec fn same_function(a: Function, b: Function) -> bool {
    &&& a.exported == b.exported
    &&& a.span == b.span
    &&& same_header(a.signature, b.signature)
    &&& same_contracts(a.signature.requires@, b.signature.requires@)
    &&& same_contracts(a.signature.ensures@, b.signature.ensures@)
    &&& a.body.span == b.body.span
    &&& same_stmts(a.body.stmts@, b.body.stmts@)
}

/// Two items alike.
pub open spec fn same_item(a: Item, b: Item) -> bool {
    match a {
        Item::Function(f) => match b {
            Item::Function(g) => same_function(f, g),
            _ => false,
        },
        Item::Type(d) => match b {
            Item::Type(e) => same_decl(d, e),
            _ => false,
        },
    }
}

/// Two import lists alike.
pub open spec fn same_imports(a: Seq<Import>, b: Seq<Import>) -> bool {
    &&& a.len() == b.len()
    &&& forall|i: int| 0 <= i < a.len() ==> (#[trigger] a[i]).name@ == b[i].name@ && a[i].span == b[i].span
}

/// Two modules alike at every node.
pub open spec fn same_module(a: Module, b: Module) -> bool {
    &&& same_imports(a.imports@, b.imports@)
    &&& a.items@.len() == b.items@.len()
    &&& forall|i: int| 0 <= i < a.items@.len() ==> same_item(#[trigger] a.items@[i], b.items@[i])
}

/// No function of the module has a contract clause left.
pub open spec fn no_contracts(m: Module) -> bool {
    forall|i: int|
        0 <= i < m.items@.len() ==> match #[trigger] m.items@[i] {
            Item::Function(f) => f.signature.requires@.len() == 0 && f.signature.ensures@.len() == 0,
            Item::Type(_) => true,
        }
}

// --- What lowering produces -------------------------------------------------

/// `s` is the check of a `requires` clause: caller-blamed.
pub open spec fn is_requires_check(s: Stmt, c: Contract) -> bool {
    match s {
        Stmt::Check { predicate, blame, span } => blame == Blame::Caller && span == c.span && same_expr(
            predicate,
            c.predicate,
        ),
        _ => false,
    }
}

/// `s` is the check of an `ensures` clause: implementation-blamed.
pub open spec fn is_ensures_check(s: Stmt, c: Contract) -> bool {
    match s {
        Stmt::Check { predicate, blame, span } => blame == Blame::Implementation && span == c.span
            && same_expr(predicate, c.predicate),
        _ => false,
    }
}

/// `out` is the list of `ensures` checks, in clause order.
pub open spec fn ensures_checks(out: Seq<Stmt>, ens: Seq<Contract>) -> bool {
    out.len() == ens.len() && forall|i: int| 0 <= i < out.len() ==> is_ensures_check(#[trigger] out[i], ens[i])
}

/// How many statements one statement becomes when `ensures` has `n` clauses.
pub open spec fn piece_len(s: Stmt, n: nat) -> nat {
    match s {
        Stmt::Return { value, .. } => match value {
            Some(_) => n + 2,
            None => n + 1,
        },
        _ => 1,
    }
}

/// `piece` is what statement `s` is rewritten to: a valued `return` becomes
/// `let result = <value>; <ensures checks>; return result;`, a bare `return`
/// becomes `<ensures checks>; return;`, an `if` has its branches rewritten,
/// and anything else is kept.
pub open spec fn piece_ok(piece: Seq<Stmt>, s: Stmt, ens: Seq<Contract>) -> bool
    decreases s, 1int,
{
    let n = ens.len();
    piece.len() == piece_len(s, n) && match s {
        Stmt::Return { value, span } => match value {
            Some(e) => {
                &&& match piece[0] {
                    Stmt::Let { name, mutable, ty, value: v, span: sp } => name@ == "result"@ && !mutable
                        && ty is None && same_expr(v, e) && sp == span,
                    _ => false,
                }
                &&& ensures_checks(piece.subrange(1, n + 1 as int), ens)
                &&& match piece[n + 1 as int] {
                    Stmt::Return { value: Some(r), span: sp } => sp == span && match r {
                        Expr::Identifier { name, span: isp } => name@ == "result"@ && isp == span,
                        _ => false,
                    },
                    _ => false,
                }
            },
            None => {
                &&& ensures_checks(piece.subrange(0, n as int), ens)
                &&& match piece[n as int] {
                    Stmt::Return { value: None, span: sp } => sp == span,
                    _ => false,
                }
            },
        },
        Stmt::If { cond, then_block, else_block, span } => match piece[0] {
            Stmt::If { cond: c2, then_block: t2, else_block: e2, span: s2 } => {
                &&& s2 == span
                &&& same_expr(c2, cond)
                &&& t2.span == then_block.span
                &&& rewritten(t2.stmts@, then_block.stmts@, ens)
                &&& match else_block {
                    Some(b) => match e2 {
                        Some(b2) => b2.span == b.span && rewritten(b2.stmts@, b.stmts@, ens),
                        None => false,
                    },
                    None => e2 is None,
                }
            },
            _ => false,
        },
        _ => same_stmt(piece[0], s),
    }
}

/// `out` is the statement list `ins` with every statement rewritten in place.
pub open spec fn rewritten(out: Seq<Stmt>, ins: Seq<Stmt>, ens: Seq<Contract>) -> bool
    decreases ins, 0int,
{
    if ins.len() == 0 {
        out.len() == 0
    } else {
        let k = piece_len(ins[ins.len() - 1], ens.len()) as int;
        &&& out.len() >= k
        &&& rewritten(out.subrange(0, out.len() - k), ins.subrange(0, ins.len() - 1), ens)
        &&& piece_ok(out.subrange(out.len() - k, out.len() as int), ins[ins.len() - 1], ens)
    }
}

/// `body` is the lowered body of `f`: the `requires` checks, then the body
/// with `ensures` run on every `return` (unchanged when there is no `ensures`),
/// then — when there is an `ensures` and that part does not end in a
/// `return` — the `ensures` checks once more for the fall-off path.
pub open spec fn lowered_body(body: Seq<Stmt>, f: Function) -> bool {
    let req = f.signature.requires@;
    let ens = f.signature.ensures@;
    let r = req.len() as int;
    &&& body.len() >= r
    &&& forall|i: int| 0 <= i < r ==> is_requires_check(#[trigger] body[i], req[i])
    &&& if ens.len() == 0 {
        same_stmts(body.subrange(r, body.len() as int), f.body.stmts@)
    } else {
        exists|m: int| {
            &&& r <= m <= body.len()
            &&& #[trigger] rewritten(body.subrange(r, m), f.body.stmts@, ens)
            &&& if m > r && body[m - 1] is Return {
                m == body.len()
            } else {
                ensures_checks(body.subrange(m, body.len() as int), ens)
            }
        }
    }
}

/// `g` is `f` lowered: same header and spans, no contracts, lowered body.
pub open spec fn lowered_function(g: Function, f: Function) -> bool {
    &&& g.exported == f.exported
    &&& g.span == f.span
    &&& same_header(g.signature, f.signature)
    &&& g.signature.requires@.len() == 0
    &&& g.signature.ensures@.len() == 0
    &&& g.body.span == f.body.span
    &&& lowered_body(g.body.stmts@, f)
}

/// `r` is module `m` lowered item by item.
pub open spec fn lowered_module(r: Module, m: Module) -> bool {
    &&& same_imports(r.imports@, m.imports@)
    &&& r.items@.len() == m.items@.len()
    &&& forall|i: int|
        0 <= i < m.items@.len() ==> match #[trigger] m.items@[i] {
            Item::Function(f) => match r.items@[i] {
                Item::Function(g) => lowered_function(g, f),
                _ => false,
            },
            Item::Type(d) => match r.items@[i] {
                Item::Type(e) => same_decl(e, d),
                _ => false,
            },
        }
}

// --- Copies -----------------------------------------------------------------

pub(crate) fn copy_params(v: &Vec<Param>) -> (r: Vec<Param>)
    ensures
        r@.len() == v@.len(),
        forall|i: int| 0 <= i < v@.len() ==> same_param(#[trigger] r@[i], v@[i]),
{
    let mut out: Vec<Param> = Vec::new();
    let n = v.len();
    let mut i: usize = 0;
    while i < n
        invariant
            n == v@.len(),
            i <= n,
            out@.len() == i,
            forall|j: int| 0 <= j < i ==> same_param(#[trigger] out@[j], v@[j]),
        decreases n - i,
    {
        let p = &v[i];
        out.push(Param { name: copy_string(&p.name), ty: copy_type_expr(&p.ty), span: p.span });
        i = i + 1;
    }
    out
}

pub(crate) fn copy_effects(e: &EffectSet) -> (r: EffectSet)
    ensures
        same_effects(r, *e),
{
    let mut out: Vec<Effect> = Vec::new();
    let n = e.effects.len();
    let mut i: usize = 0;
    while i < n
        invariant
            n == e.effects@.len(),
            i <= n,
            out@.len() == i,
            forall|j: int|
                0 <= j < i ==> (#[trigger] out@[j]).name@ == e.effects@[j].name@ && out@[j].span
                    == e.effects@[j].span,
        decreases n - i,
    {
        out.push(Effect { name: copy_string(&e.effects[i].name), span: e.effects[i].span });
        i = i + 1;
    }
    EffectSet { effects: out, span: e.span }
}

fn copy_strings(v: &Vec<String>) -> (r: Vec<String>)
    ensures
        r@.len() == v@.len(),
        forall|i: int| 0 <= i < v@.len() ==> (#[trigger] r@[i])@ == v@[i]@,
{
    let mut out: Vec<String> = Vec::new();
    let n = v.len();
    let mut i: usize = 0;
    while i < n
        invariant
            n == v@.len(),
            i <= n,
            out@.len() == i,
            forall|j: int| 0 <= j < i ==> (#[trigger] out@[j])@ == v@[j]@,
        decreases n - i,
    {
        out.push(copy_string(&v[i]));
        i = i + 1;
    }
    out
}

/// A copy of a sum-type declaration.
pub fn copy_decl(d: &TypeDecl) -> (r: TypeDecl)
    ensures
        same_decl(r, *d),
{
    let mut vs: Vec<Variant> = Vec::new();
    let n = d.variants.len();
    let mut i: usize = 0;
    while i < n
        invariant
            n == d.variants@.len(),
            i <= n,
            vs@.len() == i,
            forall|j: int|
                0 <= j < i ==> (#[trigger] vs@[j]).name@ == d.variants@[j].name@ && vs@[j].span
                    == d.variants@[j].span && same_texprs(vs@[j].fields@, d.variants@[j].fields@),
        decreases n - i,
    {
        let v = &d.variants[i];
        vs.push(Variant { name: copy_string(&v.name), fields: copy_type_exprs(&v.fields), span: v.span });
        i = i + 1;
    }
    TypeDecl {
        exported: d.exported,
        name: copy_string(&d.name),
        generics: copy_strings(&d.generics),
        variants: vs,
        span: d.span,
    }
}

/// A copy of a list of imports.
pub fn copy_imports(v: &Vec<Import>) -> (r: Vec<Import>)
    ensures
        same_imports(r@, v@),
{
    let mut out: Vec<Import> = Vec::new();
    let n = v.len();
    let mut i: usize = 0;
    while i < n
        invariant
            n == v@.len(),
            i <= n,
            out@.len() == i,
            forall|j: int| 0 <= j < i ==> (#[trigger] out@[j]).name@ == v@[j].name@ && out@[j].span == v@[j].span,
        decreases n - i,
    {
        out.push(Import { name: copy_string(&v[i].name), span: v[i].span });
        i = i + 1;
    }
    out
}

/// A copy of a signature's header with no contract clauses.
fn copy_header(sig: &Signature) -> (r: Signature)
    ensures
        same_header(r, *sig),
        r.requires@.len() == 0,
        r.ensures@.len() == 0,
{
    Signature {
        name: copy_string(&sig.name),
        params: copy_params(&sig.params),
        return_type: copy_opt_type_expr(&sig.return_type),
        effects: copy_effects(&sig.effects),
        requires: Vec::new(),
        ensures: Vec::new(),
        span: sig.span,
    }
}

// --- Lowering ---------------------------------------------------------------

fn check_of(c: &Contract, blame: Blame) -> (s: Stmt)
    ensures
        blame == Blame::Caller ==> is_requires_check(s, *c),
        blame == Blame::Implementation ==> is_ensures_check(s, *c),
{
    Stmt::Check { predicate: copy_expr(&c.predicate), blame, span: c.span }
}

/// Append the `ensures` checks.
fn push_ensures(out: &mut Vec<Stmt>, ens: &Vec<Contract>)
    ensures
        final(out)@.len() == old(out)@.len() + ens@.len(),
        final(out)@.subrange(0, old(out)@.len() as int) == old(out)@,
        ensures_checks(final(out)@.subrange(old(out)@.len() as int, final(out)@.len() as int), ens@),
{
    let ghost o = out@;
    let n = ens.len();
    let mut i: usize = 0;
    while i < n
        invariant
            n == ens@.len(),
            i <= n,
            out@.len() == o.len() + i,
            out@.subrange(0, o.len() as int) == o,
            forall|j: int| 0 <= j < i ==> is_ensures_check(#[trigger] out@[o.len() + j], ens@[j]),
        decreases n - i,
    {
        out.push(check_of(&ens[i], Blame::Implementation));
        assert(out@.subrange(0, o.len() as int) =~= o);
        i = i + 1;
    }
    let ghost tail = out@.subrange(o.len() as int, out@.len() as int);
    assert forall|j: int| 0 <= j < tail.len() implies is_ensures_check(#[trigger] tail[j], ens@[j]) by {
        assert(tail[j] == out@[o.len() + j]);
    }
}

/// The rewriting of one statement.
fn rewrite_one(s: &Stmt, ens: &Vec<Contract>) -> (r: Vec<Stmt>)
    requires
        ens@.len() > 0,
    ensures
        piece_ok(r@, *s, ens@),
    decreases s, 1int,
{
    let mut out: Vec<Stmt> = Vec::new();
    match s {
        Stmt::Return { value, span } => match value {
            Some(e) => {
                out.push(Stmt::Let { name: owned("result"), mutable: false, ty: None, value: copy_expr(e), span: *span });
                let ghost first = out@[0];
                push_ensures(&mut out, ens);
                let ghost mid = out@;
                out.push(Stmt::Return {
                    value: Some(Expr::Identifier { name: owned("result"), span: *span }),
                    span: *span,
                });
                assert(out@.subrange(1, ens@.len() + 1 as int) =~= mid.subrange(1, mid.len() as int));
                assert(out@[0] == first);
            },
            None => {
                push_ensures(&mut out, ens);
                let ghost mid = out@;
                out.push(Stmt::Return { value: None, span: *span });
                assert(out@.subrange(0, ens@.len() as int) =~= mid.subrange(0, mid.len() as int));
            },
        },
        Stmt::If { cond, then_block, else_block, span } => {
            let t = rewrite_stmts(&then_block.stmts, ens);
            let e = match else_block {
                Some(b) => Some(Block { stmts: rewrite_stmts(&b.stmts, ens), span: b.span }),
                None => None,
            };
            out.push(Stmt::If {
                cond: copy_expr(cond),
                then_block: Block { stmts: t, span: then_block.span },
                else_block: e,
                span: *span,
            });
        },
        _ => {
            out.push(copy_stmt(s));
        },
    }
    out
}

/// Rewrite a statement list so each `return` runs the `ensures` checks.
fn rewrite_stmts(v: &Vec<Stmt>, ens: &Vec<Contract>) -> (r: Vec<Stmt>)
    requires
        ens@.len() > 0,
    ensures
        rewritten(r@, v@, ens@),
    decreases v, 0int,
{
    let mut out: Vec<Stmt> = Vec::new();
    let n = v.len();
    let mut i: usize = 0;
    while i < n
        invariant
            n == v@.len(),
            i <= n,
            ens@.len() > 0,
            rewritten(out@, v@.subrange(0, i as int), ens@),
        decreases n - i,
    {
        let mut piece = rewrite_one(&v[i], ens);
        let ghost a = out@;
        let ghost b = piece@;
        out.append(&mut piece);
        assert(v@.subrange(0, i + 1).subrange(0, i as int) =~= v@.subrange(0, i as int));
        assert(v@.subrange(0, i + 1)[i as int] == v@[i as int]);
        assert(out@.subrange(0, a.len() as int) =~= a);
        assert(out@.subrange(a.len() as int, out@.len() as int) =~= b);
        i = i + 1;
    }
    assert(v@.subrange(0, n as int) =~= v@);
    out
}

fn lower_function(f: &Function) -> (g: Function)
    ensures
        lowered_function(g, *f),
{
    let sig = &f.signature;
    let mut stmts: Vec<Stmt> = Vec::new();
    let nr = sig.requires.len();
    let mut i: usize = 0;
    while i < nr
        invariant
            nr == sig.requires@.len(),
            i <= nr,
            stmts@.len() == i,
            forall|j: int| 0 <= j < i ==> is_requires_check(#[trigger] stmts@[j], sig.requires@[j]),
        decreases nr - i,
    {
        stmts.push(check_of(&sig.requires[i], Blame::Caller));
        i = i + 1;
    }
    let ghost head = stmts@;
    if sig.ensures.len() == 0 {
        let mut body = crate::ast::copy_stmts(&f.body.stmts);
        let ghost b = body@;
        stmts.append(&mut body);
        assert(stmts@.subrange(nr as int, stmts@.len() as int) =~= b);
        assert forall|j: int| 0 <= j < nr implies is_requires_check(#[trigger] stmts@[j], sig.requires@[j]) by {
            assert(stmts@[j] == head[j]);
        }
        assert(lowered_body(stmts@, *f));
    } else {
        let mut body = rewrite_stmts(&f.body.stmts, &sig.ensures);
        let k = body.len();
        let ends_in_return = k > 0 && match &body[k - 1] {
            Stmt::Return { .. } => true,
            _ => false,
        };
        let ghost b = body@;
        stmts.append(&mut body);
        let ghost m = stmts@.len() as int;
        assert(stmts@.subrange(nr as int, m) =~= b);
        assert(forall|j: int| 0 <= j < nr ==> stmts@[j] == head[j]);
        assert(b.len() > 0 ==> stmts@[m - 1] == b[b.len() - 1]);
        if !ends_in_return {
            push_ensures(&mut stmts, &sig.ensures);
            assert(stmts@.subrange(nr as int, m) =~= b);
            assert(forall|j: int| 0 <= j < nr ==> stmts@[j] == head[j]);
        } else {
            assert(stmts@.subrange(m, stmts@.len() as int) =~= Seq::<Stmt>::empty());
        }
        assert forall|j: int| 0 <= j < nr implies is_requires_check(#[trigger] stmts@[j], sig.requires@[j]) by {
            assert(stmts@[j] == head[j]);
        }
        assert(rewritten(stmts@.subrange(nr as int, m), f.body.stmts@, sig.ensures@));
        assert(if m > nr && stmts@[m - 1] is Return {
            m == stmts@.len()
        } else {
            ensures_checks(stmts@.subrange(m, stmts@.len() as int), sig.ensures@)
        });
        assert(lowered_body(stmts@, *f));
    }
    Function {
        exported: f.exported,
        signature: copy_header(sig),
        body: Block { stmts, span: f.body.span },
        span: f.span,
    }
}

/// Desugar every function's contracts into `Check` statements, returning a
/// new module. Imports and sum types are kept.
pub fn lower(module: &Module) -> (r: Module)
    ensures
        lowered_module(r, *module),
        no_contracts(r),
{
    let mut items: Vec<Item> = Vec::new();
    let n = module.items.len();
    let mut i: usize = 0;
    while i < n
        invariant
            n == module.items@.len(),
            i <= n,
            items@.len() == i,
            forall|j: int|
                0 <= j < i ==> match #[trigger] module.items@[j] {
                    Item::Function(f) => match items@[j] {
                        Item::Function(g) => lowered_function(g, f),
                        _ => false,
                    },
                    Item::Type(d) => match items@[j] {
                        Item::Type(e) => same_decl(e, d),
                        _ => false,
                    },
                },
        decreases n - i,
    {
        match &module.items[i] {
            Item::Function(f) => items.push(Item::Function(lower_function(f))),
            Item::Type(d) => items.push(Item::Type(copy_decl(d))),
        }
        i = i + 1;
    }
    let r = Module { imports: copy_imports(&module.imports), items };
    assert forall|j: int| 0 <= j < r.items@.len() implies match #[trigger] r.items@[j] {
        Item::Function(f) => f.signature.requires@.len() == 0 && f.signature.ensures@.len() == 0,
        Item::Type(_) => true,
    } by {
        match module.items@[j] {
            Item::Function(f) => {},
            Item::Type(d) => {},
        }
    }
    r
}

/// Lowering is idempotent: lowering a module with no contract clauses left —
/// such as one already lowered — gives back a module alike at every node.
pub proof fn law_lower_idempotent(m: Module, r: Module)
    requires
        no_contracts(m),
        lowered_module(r, m),
    ensures
        same_module(r, m),
{
    assert forall|i: int| 0 <= i < r.items@.len() implies same_item(#[trigger] r.items@[i], m.items@[i]) by {
        match m.items@[i] {
            Item::Function(f) => match r.items@[i] {
                Item::Function(g) => {
                    assert(f.signature.requires@.len() == 0 && f.signature.ensures@.len() == 0);
                    assert(g.body.stmts@.subrange(0, g.body.stmts@.len() as int) =~= g.body.stmts@);
                },
                _ => {},
            },
            Item::Type(d) => {},
        }
    }
}

} // verus!
