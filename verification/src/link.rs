//! Linking: flatten a multi-module program into one module that the checkers
//! and every back end consume.
//!
//! Each non-root module's functions are renamed `module.name` and every call
//! site is rewritten to match, so a cross-module call `m.f(..)` becomes a call
//! of the function named `m.f`. The root module keeps unqualified names. The
//! prelude sum types `Option<T>` and `Result<T, E>` are prepended unless the
//! program already declares a type or constructor of the same name.

use vstd::prelude::*;
use std::collections::BTreeMap;
use crate::ast::{
    copy_expr, copy_opt_type_expr, copy_pattern, copy_type_exprs, same_expr, same_opt_texpr, same_pattern,
    same_texprs, Block, Expr, Function, Item, MatchArm, Module, Stmt, TypeDecl, TypeExpr, Variant,
};
use crate::lower::{copy_decl, same_decl};
use crate::resolve::{keys_ascend, key_less, lists_map, map_entries, program_view};
use crate::span::Span;
use crate::text::{cat, contains_str, copy_string, names_view, owned, str_eq};
use crate::types::{all_variant_names, fn_names};

verus! {

/// The name a function of `module` is linked under.
pub open spec fn qualified(module: Seq<char>, name: Seq<char>, is_root: bool) -> Seq<char> {
    if is_root {
        name
    } else {
        module + "."@ + name
    }
}

/// `o` is `e` with its calls linked: `m.f` becomes the name `m.f`, and in a
/// non-root module a call of one of its own functions `f` becomes a call of
/// `module.f`; everything else is kept.
pub open spec fn linked_expr(o: Expr, e: Expr, module: Seq<char>, locals: Seq<Seq<char>>, is_root: bool) -> bool
    decreases e, 2int,
{
    match e {
        Expr::Call { callee, type_args, args, span } => match o {
            Expr::Call { callee: c2, type_args: t2, args: a2, span: s2 } => {
                &&& s2 == span
                &&& same_texprs(t2@, type_args@)
                &&& linked_exprs(a2@, args@, module, locals, is_root)
                &&& linked_callee(*c2, *callee, module, locals, is_root)
            },
            _ => false,
        },
        Expr::Unary { op, operand, span } => match o {
            Expr::Unary { op: o2, operand: x2, span: s2 } => o2 == op && s2 == span && linked_expr(
                *x2,
                *operand,
                module,
                locals,
                is_root,
            ),
            _ => false,
        },
        Expr::Binary { op, left, right, span } => match o {
            Expr::Binary { op: o2, left: l2, right: r2, span: s2 } => o2 == op && s2 == span
                && linked_expr(*l2, *left, module, locals, is_root) && linked_expr(
                *r2,
                *right,
                module,
                locals,
                is_root,
            ),
            _ => false,
        },
        Expr::Match { scrutinee, arms, span } => match o {
            Expr::Match { scrutinee: x2, arms: a2, span: s2 } => s2 == span && linked_expr(
                *x2,
                *scrutinee,
                module,
                locals,
                is_root,
            ) && linked_arms(a2@, arms@, module, locals, is_root),
            _ => false,
        },
        Expr::Member { base, name, span } => match *base {
            Expr::Identifier { name: b, .. } => o == Expr::Identifier {
                name: o->Identifier_name,
                span,
            } && o->Identifier_name@ == b@ + "."@ + name@,
            _ => match o {
                Expr::Member { base: b2, name: n2, span: s2 } => n2@ == name@ && s2 == span
                    && linked_expr(*b2, *base, module, locals, is_root),
                _ => false,
            },
        },
        _ => same_expr(o, e),
    }
}

/// The linked form of a call's callee.
pub open spec fn linked_callee(o: Expr, c: Expr, module: Seq<char>, locals: Seq<Seq<char>>, is_root: bool) -> bool
    decreases c, 3int,
{
    match c {
        Expr::Member { base, name, span } => match *base {
            Expr::Identifier { name: b, .. } => match o {
                Expr::Identifier { name: n2, span: s2 } => n2@ == b@ + "."@ + name@ && s2 == span,
                _ => false,
            },
            _ => linked_expr(o, c, module, locals, is_root),
        },
        Expr::Identifier { name, span } => if !is_root && locals.contains(name@) {
            match o {
                Expr::Identifier { name: n2, span: s2 } => n2@ == module + "."@ + name@ && s2 == span,
                _ => false,
            }
        } else {
            same_expr(o, c)
        },
        _ => linked_expr(o, c, module, locals, is_root),
    }
}

/// Pairwise linking of expressions.
pub open spec fn linked_exprs(os: Seq<Expr>, es: Seq<Expr>, module: Seq<char>, locals: Seq<Seq<char>>, is_root: bool) -> bool
    decreases es, 1int,
{
    if os.len() != es.len() {
        false
    } else if es.len() == 0 {
        true
    } else {
        linked_exprs(os.subrange(0, os.len() - 1), es.subrange(0, es.len() - 1), module, locals, is_root)
            && linked_expr(os[os.len() - 1], es[es.len() - 1], module, locals, is_root)
    }
}

/// Pairwise linking of match arms: patterns and spans kept, bodies linked.
pub open spec fn linked_arms(os: Seq<MatchArm>, es: Seq<MatchArm>, module: Seq<char>, locals: Seq<Seq<char>>, is_root: bool) -> bool
    decreases es, 1int,
{
    if os.len() != es.len() {
        false
    } else if es.len() == 0 {
        true
    } else {
        proof {
            assert(decreases_to!(es[es.len() - 1] => es[es.len() - 1].body));
        }
        let a = os[os.len() - 1];
        let b = es[es.len() - 1];
        linked_arms(os.subrange(0, os.len() - 1), es.subrange(0, es.len() - 1), module, locals, is_root)
            && a.span == b.span && same_pattern(a.pattern, b.pattern) && linked_expr(
            a.body,
            b.body,
            module,
            locals,
            is_root,
        )
    }
}

/// `o` is statement `s` with its expressions linked.
pub open spec fn linked_stmt(o: Stmt, s: Stmt, module: Seq<char>, locals: Seq<Seq<char>>, is_root: bool) -> bool
    decreases s, 1int,
{
    match s {
        Stmt::Let { name, mutable, ty, value, span } => match o {
            Stmt::Let { name: n2, mutable: m2, ty: t2, value: v2, span: s2 } => n2@ == name@ && m2
                == mutable && s2 == span && same_opt_texpr(t2, ty) && linked_expr(
                v2,
                value,
                module,
                locals,
                is_root,
            ),
            _ => false,
        },
        Stmt::Expr(e) => match o {
            Stmt::Expr(e2) => linked_expr(e2, e, module, locals, is_root),
            _ => false,
        },
        Stmt::Return { value, span } => match o {
            Stmt::Return { value: v2, span: s2 } => s2 == span && match value {
                Some(e) => match v2 {
                    Some(e2) => linked_expr(e2, e, module, locals, is_root),
                    None => false,
                },
                None => v2 is None,
            },
            _ => false,
        },
        Stmt::If { cond, then_block, else_block, span } => match o {
            Stmt::If { cond: c2, then_block: t2, else_block: e2, span: s2 } => {
                &&& s2 == span
                &&& linked_expr(c2, cond, module, locals, is_root)
                &&& t2.span == then_block.span
                &&& linked_stmts(t2.stmts@, then_block.stmts@, module, locals, is_root)
                &&& match else_block {
                    Some(b) => match e2 {
                        Some(b2) => b2.span == b.span && linked_stmts(b2.stmts@, b.stmts@, module, locals, is_root),
                        None => false,
                    },
                    None => e2 is None,
                }
            },
            _ => false,
        },
        Stmt::Check { predicate, blame, span } => match o {
            Stmt::Check { predicate: p2, blame: b2, span: s2 } => b2 == blame && s2 == span
                && linked_expr(p2, predicate, module, locals, is_root),
            _ => false,
        },
    }
}

/// Pairwise linking of statements.
pub open spec fn linked_stmts(os: Seq<Stmt>, ss: Seq<Stmt>, module: Seq<char>, locals: Seq<Seq<char>>, is_root: bool) -> bool
    decreases ss, 0int,
{
    if os.len() != ss.len() {
        false
    } else if ss.len() == 0 {
        true
    } else {
        linked_stmts(os.subrange(0, os.len() - 1), ss.subrange(0, ss.len() - 1), module, locals, is_root)
            && linked_stmt(os[os.len() - 1], ss[ss.len() - 1], module, locals, is_root)
    }
}

/// `gs` are the contracts `fs` linked: each predicate linked, spans kept.
pub open spec fn linked_contracts(
    gs: Seq<crate::ast::Contract>,
    fs: Seq<crate::ast::Contract>,
    module: Seq<char>,
    locals: Seq<Seq<char>>,
    is_root: bool,
) -> bool {
    &&& gs.len() == fs.len()
    &&& forall|i: int|
        0 <= i < fs.len() ==> (#[trigger] gs[i]).span == fs[i].span && linked_expr(gs[i].predicate, fs[i].predicate, module, locals, is_root)
}

/// `g` is function `f` of module `module` linked: renamed, contracts and body
/// linked, everything else kept.
pub open spec fn linked_function(g: Function, f: Function, module: Seq<char>, locals: Seq<Seq<char>>, is_root: bool) -> bool {
    &&& g.exported == f.exported
    &&& g.span == f.span
    &&& g.signature.name@ == qualified(module, f.signature.name@, is_root)
    &&& g.signature.span == f.signature.span
    &&& linked_contracts(g.signature.requires@, f.signature.requires@, module, locals, is_root)
    &&& linked_contracts(g.signature.ensures@, f.signature.ensures@, module, locals, is_root)
    &&& g.body.span == f.body.span
    &&& linked_stmts(g.body.stmts@, f.body.stmts@, module, locals, is_root)
}

/// `os` is the item list `items` of module `module` linked, item by item.
pub open spec fn linked_items(os: Seq<Item>, items: Seq<Item>, module: Seq<char>, is_root: bool) -> bool {
    &&& os.len() == items.len()
    &&& forall|i: int|
        0 <= i < items.len() ==> match #[trigger] items[i] {
            Item::Function(f) => match os[i] {
                Item::Function(g) => linked_function(g, f, module, fn_names(items), is_root),
                _ => false,
            },
            Item::Type(d) => match os[i] {
                Item::Type(e) => same_decl(e, d),
                _ => false,
            },
        }
}

/// How many items the modules of `p` have together.
pub open spec fn item_count(p: Seq<(Seq<char>, Module)>) -> nat
    decreases p.len(),
{
    if p.len() == 0 {
        0
    } else {
        item_count(p.drop_last()) + p.last().1.items@.len()
    }
}

/// `os` is the modules of `p` linked in order, root named `root`.
pub open spec fn linked_program(os: Seq<Item>, p: Seq<(Seq<char>, Module)>, root: Seq<char>) -> bool
    decreases p.len(),
{
    if p.len() == 0 {
        os.len() == 0
    } else {
        let (name, m) = p.last();
        let k = m.items@.len() as int;
        &&& os.len() >= k
        &&& linked_program(os.subrange(0, os.len() - k), p.drop_last(), root)
        &&& linked_items(os.subrange(os.len() - k, os.len() as int), m.items@, name, name == root)
    }
}

/// A written type with no arguments, at the empty span.
pub open spec fn is_plain_type(t: TypeExpr, name: Seq<char>) -> bool {
    t.name@ == name && t.args@.len() == 0 && t.span == Span { start: 0, end: 0 }
}

/// A prelude variant: its name and the one plain field type, if any.
pub open spec fn is_prelude_variant(v: Variant, name: Seq<char>, field: Option<Seq<char>>) -> bool {
    &&& v.name@ == name
    &&& v.span == Span { start: 0, end: 0 }
    &&& match field {
        Some(f) => v.fields@.len() == 1 && is_plain_type(v.fields@[0], f),
        None => v.fields@.len() == 0,
    }
}

/// `type Option<T> = Some(T) | None`.
pub open spec fn is_option_decl(d: TypeDecl) -> bool {
    &&& !d.exported
    &&& d.name@ == "Option"@
    &&& d.span == Span { start: 0, end: 0 }
    &&& d.generics@.len() == 1 && d.generics@[0]@ == "T"@
    &&& d.variants@.len() == 2
    &&& is_prelude_variant(d.variants@[0], "Some"@, Some("T"@))
    &&& is_prelude_variant(d.variants@[1], "None"@, None)
}

/// `type Result<T, E> = Ok(T) | Err(E)`.
pub open spec fn is_result_decl(d: TypeDecl) -> bool {
    &&& !d.exported
    &&& d.name@ == "Result"@
    &&& d.span == Span { start: 0, end: 0 }
    &&& d.generics@.len() == 2 && d.generics@[0]@ == "T"@ && d.generics@[1]@ == "E"@
    &&& d.variants@.len() == 2
    &&& is_prelude_variant(d.variants@[0], "Ok"@, Some("T"@))
    &&& is_prelude_variant(d.variants@[1], "Err"@, Some("E"@))
}

/// The names of the sum types declared by a list of items.
pub open spec fn type_names(items: Seq<Item>) -> Seq<Seq<char>>
    decreases items.len(),
{
    if items.len() == 0 {
        Seq::empty()
    } else {
        type_names(items.drop_last()) + match items.last() {
            Item::Type(d) => seq![d.name@],
            Item::Function(_) => Seq::empty(),
        }
    }
}

/// Whether a prelude type would collide with what `items` declares.
pub open spec fn collides(items: Seq<Item>, ty: Seq<char>, v1: Seq<char>, v2: Seq<char>) -> bool {
    type_names(items).contains(ty) || all_variant_names(items).contains(v1) || all_variant_names(items).contains(v2)
}

/// `pre` is the prelude for `items`: `Option` unless it collides, then
/// `Result` unless it collides.
pub open spec fn prelude_for(pre: Seq<Item>, items: Seq<Item>) -> bool {
    let opt = !collides(items, "Option"@, "Some"@, "None"@);
    let res = !collides(items, "Result"@, "Ok"@, "Err"@);
    &&& pre.len() == (if opt { 1int } else { 0 }) + (if res { 1int } else { 0 })
    &&& opt ==> match pre[0] {
        Item::Type(d) => is_option_decl(d),
        _ => false,
    }
    &&& res ==> match pre[pre.len() - 1] {
        Item::Type(d) => is_result_decl(d),
        _ => false,
    }
}

// --- Execution ----------------------------------------------------------------

fn qualify(module: &str, name: &String, is_root: bool) -> (r: String)
    ensures
        r@ == qualified(module@, name@, is_root),
{
    if is_root {
        copy_string(name)
    } else {
        let r = cat(&[module, ".", name.as_str()]);
        proof {
            reveal_with_fuel(crate::text::joined, 4);
        }
        r
    }
}

fn dotted(a: &str, b: &str) -> (r: String)
    ensures
        r@ == a@ + "."@ + b@,
{
    let r = cat(&[a, ".", b]);
    proof {
        reveal_with_fuel(crate::text::joined, 4);
    }
    r
}

fn link_expr(e: &Expr, module: &str, locals: &Vec<String>, is_root: bool) -> (r: Expr)
    ensures
        linked_expr(r, *e, module@, names_view(locals@), is_root),
    decreases e, 2int,
{
    match e {
        Expr::Call { callee, type_args, args, span } => {
            let c = link_callee(callee, module, locals, is_root);
            Expr::Call {
                callee: Box::new(c),
                type_args: copy_type_exprs(type_args),
                args: link_exprs(args, module, locals, is_root),
                span: *span,
            }
        },
        Expr::Unary { op, operand, span } => Expr::Unary {
            op: *op,
            operand: Box::new(link_expr(operand, module, locals, is_root)),
            span: *span,
        },
        Expr::Binary { op, left, right, span } => Expr::Binary {
            op: *op,
            left: Box::new(link_expr(left, module, locals, is_root)),
            right: Box::new(link_expr(right, module, locals, is_root)),
            span: *span,
        },
        Expr::Match { scrutinee, arms, span } => Expr::Match {
            scrutinee: Box::new(link_expr(scrutinee, module, locals, is_root)),
            arms: link_arms(arms, module, locals, is_root),
            span: *span,
        },
        Expr::Member { base, name, span } => match &**base {
            Expr::Identifier { name: b, .. } => Expr::Identifier {
                name: dotted(b.as_str(), name.as_str()),
                span: *span,
            },
            _ => Expr::Member {
                base: Box::new(link_expr(base, module, locals, is_root)),
                name: copy_string(name),
                span: *span,
            },
        },
        _ => copy_expr(e),
    }
}

fn link_callee(c: &Expr, module: &str, locals: &Vec<String>, is_root: bool) -> (r: Expr)
    ensures
        linked_callee(r, *c, module@, names_view(locals@), is_root),
    decreases c, 3int,
{
    match c {
        Expr::Member { base, name, span } => match &**base {
            Expr::Identifier { name: b, .. } => Expr::Identifier {
                name: dotted(b.as_str(), name.as_str()),
                span: *span,
            },
            _ => link_expr(c, module, locals, is_root),
        },
        Expr::Identifier { name, span } => {
            if !is_root && contains_str(locals, name.as_str()) {
                Expr::Identifier { name: dotted(module, name.as_str()), span: *span }
            } else {
                copy_expr(c)
            }
        },
        _ => link_expr(c, module, locals, is_root),
    }
}

fn link_exprs(v: &Vec<Expr>, module: &str, locals: &Vec<String>, is_root: bool) -> (r: Vec<Expr>)
    ensures
        linked_exprs(r@, v@, module@, names_view(locals@), is_root),
    decreases v, 1int,
{
    let mut out: Vec<Expr> = Vec::new();
    let n = v.len();
    let mut i: usize = 0;
    while i < n
        invariant
            n == v@.len(),
            i <= n,
            linked_exprs(out@, v@.subrange(0, i as int), module@, names_view(locals@), is_root),
        decreases n - i,
    {
        let x = link_expr(&v[i], module, locals, is_root);
        let ghost before = out@;
        out.push(x);
        assert(out@.subrange(0, i as int) =~= before);
        assert(v@.subrange(0, i + 1).subrange(0, i as int) =~= v@.subrange(0, i as int));
        i = i + 1;
    }
    assert(v@.subrange(0, n as int) =~= v@);
    out
}

fn link_arms(v: &Vec<MatchArm>, module: &str, locals: &Vec<String>, is_root: bool) -> (r: Vec<MatchArm>)
    ensures
        linked_arms(r@, v@, module@, names_view(locals@), is_root),
    decreases v, 1int,
{
    let mut out: Vec<MatchArm> = Vec::new();
    let n = v.len();
    let mut i: usize = 0;
    while i < n
        invariant
            n == v@.len(),
            i <= n,
            linked_arms(out@, v@.subrange(0, i as int), module@, names_view(locals@), is_root),
        decreases n - i,
    {
        proof {
            assert(decreases_to!(v@[i as int] => v@[i as int].body));
        }
        let a = &v[i];
        let x = MatchArm {
            pattern: copy_pattern(&a.pattern),
            body: link_expr(&a.body, module, locals, is_root),
            span: a.span,
        };
        let ghost before = out@;
        out.push(x);
        assert(out@.subrange(0, i as int) =~= before);
        assert(v@.subrange(0, i + 1).subrange(0, i as int) =~= v@.subrange(0, i as int));
        i = i + 1;
    }
    assert(v@.subrange(0, n as int) =~= v@);
    out
}

fn link_stmt(s: &Stmt, module: &str, locals: &Vec<String>, is_root: bool) -> (r: Stmt)
    ensures
        linked_stmt(r, *s, module@, names_view(locals@), is_root),
    decreases s, 1int,
{
    match s {
        Stmt::Let { name, mutable, ty, value, span } => Stmt::Let {
            name: copy_string(name),
            mutable: *mutable,
            ty: copy_opt_type_expr(ty),
            value: link_expr(value, module, locals, is_root),
            span: *span,
        },
        Stmt::Expr(e) => Stmt::Expr(link_expr(e, module, locals, is_root)),
        Stmt::Return { value, span } => Stmt::Return {
            value: match value {
                Some(e) => Some(link_expr(e, module, locals, is_root)),
                None => None,
            },
            span: *span,
        },
        Stmt::If { cond, then_block, else_block, span } => Stmt::If {
            cond: link_expr(cond, module, locals, is_root),
            then_block: Block { stmts: link_stmts(&then_block.stmts, module, locals, is_root), span: then_block.span },
            else_block: match else_block {
                Some(b) => Some(Block { stmts: link_stmts(&b.stmts, module, locals, is_root), span: b.span }),
                None => None,
            },
            span: *span,
        },
        Stmt::Check { predicate, blame, span } => Stmt::Check {
            predicate: link_expr(predicate, module, locals, is_root),
            blame: *blame,
            span: *span,
        },
    }
}

fn link_stmts(v: &Vec<Stmt>, module: &str, locals: &Vec<String>, is_root: bool) -> (r: Vec<Stmt>)
    ensures
        linked_stmts(r@, v@, module@, names_view(locals@), is_root),
    decreases v, 0int,
{
    let mut out: Vec<Stmt> = Vec::new();
    let n = v.len();
    let mut i: usize = 0;
    while i < n
        invariant
            n == v@.len(),
            i <= n,
            linked_stmts(out@, v@.subrange(0, i as int), module@, names_view(locals@), is_root),
        decreases n - i,
    {
        let x = link_stmt(&v[i], module, locals, is_root);
        let ghost before = out@;
        out.push(x);
        assert(out@.subrange(0, i as int) =~= before);
        assert(v@.subrange(0, i + 1).subrange(0, i as int) =~= v@.subrange(0, i as int));
        i = i + 1;
    }
    assert(v@.subrange(0, n as int) =~= v@);
    out
}

fn link_contracts(v: &Vec<crate::ast::Contract>, module: &str, locals: &Vec<String>, is_root: bool) -> (r: Vec<crate::ast::Contract>)
    ensures
        linked_contracts(r@, v@, module@, names_view(locals@), is_root),
{
    let mut out: Vec<crate::ast::Contract> = Vec::new();
    let n = v.len();
    let mut i: usize = 0;
    while i < n
        invariant
            n == v@.len(),
            i <= n,
            out@.len() == i,
            forall|j: int|
                0 <= j < i ==> (#[trigger] out@[j]).span == v@[j].span && linked_expr(
                    out@[j].predicate,
                    v@[j].predicate,
                    module@,
                    names_view(locals@),
                    is_root,
                ),
        decreases n - i,
    {
        out.push(crate::ast::Contract { predicate: link_expr(&v[i].predicate, module, locals, is_root), span: v[i].span });
        i = i + 1;
    }
    out
}

/// The names of a module's functions, in order.
fn local_functions(items: &Vec<Item>) -> (r: Vec<String>)
    ensures
        names_view(r@) == fn_names(items@),
{
    let mut out: Vec<String> = Vec::new();
    let n = items.len();
    let mut i: usize = 0;
    assert(names_view(out@) =~= fn_names(items@.subrange(0, 0)));
    while i < n
        invariant
            n == items@.len(),
            i <= n,
            names_view(out@) == fn_names(items@.subrange(0, i as int)),
        decreases n - i,
    {
        assert(items@.subrange(0, i + 1).drop_last() =~= items@.subrange(0, i as int));
        match &items[i] {
            Item::Function(f) => {
                out.push(copy_string(&f.signature.name));
            },
            Item::Type(_) => {},
        }
        assert(names_view(out@) =~= fn_names(items@.subrange(0, i + 1)));
        i = i + 1;
    }
    assert(items@.subrange(0, n as int) =~= items@);
    out
}

/// Link the items of one module.
fn link_module(m: &Module, name: &str, is_root: bool) -> (r: Vec<Item>)
    ensures
        linked_items(r@, m.items@, name@, is_root),
{
    let locals = local_functions(&m.items);
    let mut out: Vec<Item> = Vec::new();
    let n = m.items.len();
    let mut i: usize = 0;
    while i < n
        invariant
            n == m.items@.len(),
            i <= n,
            out@.len() == i,
            names_view(locals@) == fn_names(m.items@),
            forall|j: int|
                0 <= j < i ==> match #[trigger] m.items@[j] {
                    Item::Function(f) => match out@[j] {
                        Item::Function(g) => linked_function(g, f, name@, fn_names(m.items@), is_root),
                        _ => false,
                    },
                    Item::Type(d) => match out@[j] {
                        Item::Type(e) => same_decl(e, d),
                        _ => false,
                    },
                },
        decreases n - i,
    {
        match &m.items[i] {
            Item::Function(f) => {
                let sig = &f.signature;
                let g = Function {
                    exported: f.exported,
                    signature: crate::ast::Signature {
                        name: qualify(name, &sig.name, is_root),
                        params: crate::lower::copy_params(&sig.params),
                        return_type: copy_opt_type_expr(&sig.return_type),
                        effects: crate::lower::copy_effects(&sig.effects),
                        requires: link_contracts(&sig.requires, name, &locals, is_root),
                        ensures: link_contracts(&sig.ensures, name, &locals, is_root),
                        span: sig.span,
                    },
                    body: Block { stmts: link_stmts(&f.body.stmts, name, &locals, is_root), span: f.body.span },
                    span: f.span,
                };
                out.push(Item::Function(g));
            },
            Item::Type(d) => {
                out.push(Item::Type(copy_decl(d)));
            },
        }
        i = i + 1;
    }
    out
}

fn plain_type(name: &str) -> (t: TypeExpr)
    ensures
        is_plain_type(t, name@),
{
    TypeExpr { name: owned(name), args: Vec::new(), span: Span { start: 0, end: 0 } }
}

fn prelude_variant(name: &str, field: Option<&str>) -> (v: Variant)
    ensures
        is_prelude_variant(v, name@, match field { Some(f) => Some(f@), None => None }),
{
    let mut fields: Vec<TypeExpr> = Vec::new();
    match field {
        Some(f) => fields.push(plain_type(f)),
        None => {},
    }
    Variant { name: owned(name), fields, span: Span { start: 0, end: 0 } }
}

fn option_decl() -> (d: TypeDecl)
    ensures
        is_option_decl(d),
{
    let mut generics: Vec<String> = Vec::new();
    generics.push(owned("T"));
    let mut variants: Vec<Variant> = Vec::new();
    variants.push(prelude_variant("Some", Some("T")));
    variants.push(prelude_variant("None", None));
    TypeDecl { exported: false, name: owned("Option"), generics, variants, span: Span { start: 0, end: 0 } }
}

fn result_decl() -> (d: TypeDecl)
    ensures
        is_result_decl(d),
{
    let mut generics: Vec<String> = Vec::new();
    generics.push(owned("T"));
    generics.push(owned("E"));
    let mut variants: Vec<Variant> = Vec::new();
    variants.push(prelude_variant("Ok", Some("T")));
    variants.push(prelude_variant("Err", Some("E")));
    TypeDecl { exported: false, name: owned("Result"), generics, variants, span: Span { start: 0, end: 0 } }
}

fn declared_type_names(items: &Vec<Item>) -> (r: Vec<String>)
    ensures
        names_view(r@) == type_names(items@),
{
    let mut out: Vec<String> = Vec::new();
    let n = items.len();
    let mut i: usize = 0;
    assert(names_view(out@) =~= type_names(items@.subrange(0, 0)));
    while i < n
        invariant
            n == items@.len(),
            i <= n,
            names_view(out@) == type_names(items@.subrange(0, i as int)),
        decreases n - i,
    {
        assert(items@.subrange(0, i + 1).drop_last() =~= items@.subrange(0, i as int));
        match &items[i] {
            Item::Type(d) => {
                out.push(copy_string(&d.name));
            },
            Item::Function(_) => {},
        }
        assert(names_view(out@) =~= type_names(items@.subrange(0, i + 1)));
        i = i + 1;
    }
    assert(items@.subrange(0, n as int) =~= items@);
    out
}

/// The prelude types that do not collide with what `items` declares.
fn prelude(items: &Vec<Item>) -> (r: Vec<Item>)
    ensures
        prelude_for(r@, items@),
{
    let tys = declared_type_names(items);
    let vars = crate::types::collect_variant_names(items);
    let mut out: Vec<Item> = Vec::new();
    if !(contains_str(&tys, "Option") || contains_str(&vars, "Some") || contains_str(&vars, "None")) {
        out.push(Item::Type(option_decl()));
    }
    if !(contains_str(&tys, "Result") || contains_str(&vars, "Ok") || contains_str(&vars, "Err")) {
        out.push(Item::Type(result_decl()));
    }
    out
}

/// Link a program given as (name, module) pairs: the prelude, then each
/// module's items linked in order.
pub fn link_program(program: &Vec<(&String, &Module)>, root: &str) -> (r: Module)
    ensures
        r.imports@.len() == 0,
        r.items@.len() >= item_count(program_view(program@)),
        ({
            let k = r.items@.len() - item_count(program_view(program@));
            &&& prelude_for(r.items@.subrange(0, k), r.items@.subrange(k, r.items@.len() as int))
            &&& linked_program(r.items@.subrange(k, r.items@.len() as int), program_view(program@), root@)
        }),
{
    let ghost pv = program_view(program@);
    let mut items: Vec<Item> = Vec::new();
    let n = program.len();
    let mut i: usize = 0;
    while i < n
        invariant
            n == program@.len(),
            i <= n,
            pv == program_view(program@),
            items@.len() == item_count(pv.subrange(0, i as int)),
            linked_program(items@, pv.subrange(0, i as int), root@),
        decreases n - i,
    {
        let name = program[i].0;
        let m = program[i].1;
        let is_root = str_eq(name.as_str(), root);
        let mut linked = link_module(m, name.as_str(), is_root);
        let ghost a = items@;
        let ghost b = linked@;
        items.append(&mut linked);
        assert(pv.subrange(0, i + 1).drop_last() =~= pv.subrange(0, i as int));
        assert(pv.subrange(0, i + 1).last() == (name@, *m));
        assert(items@.subrange(0, a.len() as int) =~= a);
        assert(items@.subrange(a.len() as int, items@.len() as int) =~= b);
        i = i + 1;
    }
    assert(pv.subrange(0, n as int) =~= pv);
    let mut all = prelude(&items);
    let ghost pre = all@;
    let ghost body = items@;
    all.append(&mut items);
    assert(all@.subrange(0, pre.len() as int) =~= pre);
    assert(all@.subrange(pre.len() as int, all@.len() as int) =~= body);
    Module { imports: Vec::new(), items: all }
}

/// Flatten the modules of a program into one module; `root` is the entry
/// module whose names stay unqualified.
pub fn link(modules: &BTreeMap<String, Module>, root: &str) -> (r: Module)
    ensures
        r.imports@.len() == 0,
        exists|p: Seq<(Seq<char>, Module)>| #[trigger] lists_map(modules@, p) && keys_ascend(p) && links_to(r, p, root@),
{
    let program = map_entries(modules);
    let r = link_program(&program, root);
    proof {
        let p = program_view(program@);
        assert forall|i: int| 0 <= i < p.len() implies exists|k: String|
            #[trigger] modules@.contains_key(k) && k@ == (#[trigger] p[i]).0 && modules@[k] == p[i].1 by {
            let k = *program@[i].0;
            assert(modules@.contains_key(k));
        }
        assert(lists_map(modules@, p));
        assert forall|i: int, j: int| 0 <= i < j < p.len() implies key_less(#[trigger] p[i].0, #[trigger] p[j].0) by {
            assert(p[i].0 == (*program@[i].0)@);
            assert(p[j].0 == (*program@[j].0)@);
        }
        assert(links_to(r, p, root@));
    }
    r
}

/// `r` is the linked module of the program `p` with entry module `root`:
/// no imports, the prelude declarations it needs, then each module's items
/// linked in order.
pub open spec fn links_to(r: Module, p: Seq<(Seq<char>, Module)>, root: Seq<char>) -> bool {
    &&& r.imports@.len() == 0
    &&& r.items@.len() >= item_count(p)
    &&& ({
        let k = r.items@.len() - item_count(p);
        &&& prelude_for(r.items@.subrange(0, k), r.items@.subrange(k, r.items@.len() as int))
        &&& linked_program(r.items@.subrange(k, r.items@.len() as int), p, root)
    })
}

} // verus!
