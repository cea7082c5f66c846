//! The module resolver: qualified names and visibility.
//!
//! A program is a collection of named modules. For every module: each
//! `import` names a module that exists (`R0001`) and closes no cycle
//! (`R0005`); each `module.member` access has an imported-module base
//! (`R0002`), names an item that exists (`R0003`), and that item is `export`ed
//! (`R0004`).

use vstd::prelude::*;
use std::collections::BTreeMap;
use crate::ast::{Contract, Expr, Import, Item, MatchArm, Module, Stmt};
use crate::diagnostic::{errors_as, lemma_errors_append, lemma_errors_push, push_error, Diagnostic};
use crate::span::Span;
use crate::text::{cat, contains_str, copy_string, names_view, string_is};

verus! {

// --- Member accesses ------------------------------------------------------

/// A `base.member` access with a plain-name base.
pub struct MemberSite {
    pub base: String,
    pub name: String,
    pub span: Span,
}

/// The (base, member, span) triples a list of sites stands for.
pub open spec fn members_view(v: Seq<MemberSite>) -> Seq<(Seq<char>, Seq<char>, Span)> {
    v.map_values(|m: MemberSite| (m.base@, m.name@, m.span))
}

/// The member accesses of an expression, in pre-order.
pub open spec fn expr_members(e: Expr) -> Seq<(Seq<char>, Seq<char>, Span)>
    decreases e, 2int,
{
    match e {
        Expr::Member { base, name, span } => {
            let here = match *base {
                Expr::Identifier { name: b, .. } => seq![(b@, name@, span)],
                _ => Seq::empty(),
            };
            here + expr_members(*base)
        },
        Expr::Unary { operand, .. } => expr_members(*operand),
        Expr::Binary { left, right, .. } => expr_members(*left) + expr_members(*right),
        Expr::Call { callee, args, .. } => expr_members(*callee) + exprs_members(args@),
        Expr::Match { scrutinee, arms, .. } => expr_members(*scrutinee) + arms_members(arms@),
        Expr::Literal(_) => Seq::empty(),
        Expr::Identifier { .. } => Seq::empty(),
    }
}

/// The member accesses of a list of expressions.
pub open spec fn exprs_members(s: Seq<Expr>) -> Seq<(Seq<char>, Seq<char>, Span)>
    decreases s, 1int,
{
    if s.len() == 0 {
        Seq::empty()
    } else {
        exprs_members(s.subrange(0, s.len() - 1)) + expr_members(s[s.len() - 1])
    }
}

/// The member accesses of a list of match-arm bodies.
pub open spec fn arms_members(s: Seq<MatchArm>) -> Seq<(Seq<char>, Seq<char>, Span)>
    decreases s, 1int,
{
    if s.len() == 0 {
        Seq::empty()
    } else {
        proof {
            assert(decreases_to!(s[s.len() - 1] => s[s.len() - 1].body));
        }
        arms_members(s.subrange(0, s.len() - 1)) + expr_members(s[s.len() - 1].body)
    }
}

/// The member accesses of a statement.
pub open spec fn stmt_members(s: Stmt) -> Seq<(Seq<char>, Seq<char>, Span)>
    decreases s, 1int,
{
    match s {
        Stmt::Let { value, .. } => expr_members(value),
        Stmt::Expr(e) => expr_members(e),
        Stmt::Return { value, .. } => match value {
            Some(e) => expr_members(e),
            None => Seq::empty(),
        },
        Stmt::Check { predicate, .. } => expr_members(predicate),
        Stmt::If { cond, then_block, else_block, .. } => {
            expr_members(cond) + stmts_members(then_block.stmts@) + match else_block {
                Some(b) => stmts_members(b.stmts@),
                None => Seq::empty(),
            }
        },
    }
}

/// The member accesses of a statement list.
pub open spec fn stmts_members(s: Seq<Stmt>) -> Seq<(Seq<char>, Seq<char>, Span)>
    decreases s, 0int,
{
    if s.len() == 0 {
        Seq::empty()
    } else {
        stmts_members(s.subrange(0, s.len() - 1)) + stmt_members(s[s.len() - 1])
    }
}

/// The member accesses of a list of contract predicates.
pub open spec fn contracts_members(cs: Seq<Contract>) -> Seq<(Seq<char>, Seq<char>, Span)>
    decreases cs.len(),
{
    if cs.len() == 0 {
        Seq::empty()
    } else {
        contracts_members(cs.drop_last()) + expr_members(cs.last().predicate)
    }
}

/// The member accesses of a module's functions: each function's contracts,
/// then its body, in item order.
pub open spec fn items_members(items: Seq<Item>) -> Seq<(Seq<char>, Seq<char>, Span)>
    decreases items.len(),
{
    if items.len() == 0 {
        Seq::empty()
    } else {
        items_members(items.drop_last()) + match items.last() {
            Item::Function(f) => contracts_members(f.signature.requires@) + contracts_members(
                f.signature.ensures@,
            ) + stmts_members(f.body.stmts@),
            Item::Type(_) => Seq::empty(),
        }
    }
}

proof fn lemma_members_push(v: Seq<MemberSite>, m: MemberSite)
    ensures
        members_view(v.push(m)) == members_view(v).push((m.base@, m.name@, m.span)),
{
    assert(members_view(v.push(m)) =~= members_view(v).push((m.base@, m.name@, m.span)));
}

fn collect_expr(e: &Expr, out: &mut Vec<MemberSite>)
    ensures
        members_view(final(out)@) == members_view(old(out)@) + expr_members(*e),
    decreases e, 2int,
{
    let ghost o = members_view(out@);
    match e {
        Expr::Member { base, name, span } => {
            match &**base {
                Expr::Identifier { name: b, .. } => {
                    let ghost before = out@;
                    out.push(MemberSite { base: copy_string(b), name: copy_string(name), span: *span });
                    proof {
                        lemma_members_push(before, out@.last());
                    }
                },
                _ => {},
            }
            collect_expr(base, out);
            assert(members_view(out@) =~= o + expr_members(*e));
        },
        Expr::Unary { operand, .. } => collect_expr(operand, out),
        Expr::Binary { left, right, .. } => {
            collect_expr(left, out);
            collect_expr(right, out);
            assert(members_view(out@) =~= o + expr_members(*e));
        },
        Expr::Call { callee, args, .. } => {
            collect_expr(callee, out);
            collect_exprs(args, out);
            assert(members_view(out@) =~= o + expr_members(*e));
        },
        Expr::Match { scrutinee, arms, .. } => {
            collect_expr(scrutinee, out);
            collect_arms(arms, out);
            assert(members_view(out@) =~= o + expr_members(*e));
        },
        Expr::Literal(_) => {
            assert(members_view(out@) =~= o + expr_members(*e));
        },
        Expr::Identifier { .. } => {
            assert(members_view(out@) =~= o + expr_members(*e));
        },
    }
}

fn collect_exprs(v: &Vec<Expr>, out: &mut Vec<MemberSite>)
    ensures
        members_view(final(out)@) == members_view(old(out)@) + exprs_members(v@),
    decreases v, 1int,
{
    let ghost o = members_view(out@);
    let n = v.len();
    let mut i: usize = 0;
    assert(o =~= o + exprs_members(v@.subrange(0, 0)));
    while i < n
        invariant
            n == v@.len(),
            i <= n,
            members_view(out@) == o + exprs_members(v@.subrange(0, i as int)),
        decreases n - i,
    {
        collect_expr(&v[i], out);
        assert(v@.subrange(0, i + 1).subrange(0, i as int) =~= v@.subrange(0, i as int));
        assert(members_view(out@) =~= o + exprs_members(v@.subrange(0, i + 1)));
        i = i + 1;
    }
    assert(v@.subrange(0, n as int) =~= v@);
}

fn collect_arms(v: &Vec<MatchArm>, out: &mut Vec<MemberSite>)
    ensures
        members_view(final(out)@) == members_view(old(out)@) + arms_members(v@),
    decreases v, 1int,
{
    let ghost o = members_view(out@);
    let n = v.len();
    let mut i: usize = 0;
    assert(o =~= o + arms_members(v@.subrange(0, 0)));
    while i < n
        invariant
            n == v@.len(),
            i <= n,
            members_view(out@) == o + arms_members(v@.subrange(0, i as int)),
        decreases n - i,
    {
        proof {
            assert(decreases_to!(v@[i as int] => v@[i as int].body));
        }
        collect_expr(&v[i].body, out);
        assert(v@.subrange(0, i + 1).subrange(0, i as int) =~= v@.subrange(0, i as int));
        assert(members_view(out@) =~= o + arms_members(v@.subrange(0, i + 1)));
        i = i + 1;
    }
    assert(v@.subrange(0, n as int) =~= v@);
}

fn collect_stmt(s: &Stmt, out: &mut Vec<MemberSite>)
    ensures
        members_view(final(out)@) == members_view(old(out)@) + stmt_members(*s),
    decreases s, 1int,
{
    let ghost o = members_view(out@);
    match s {
        Stmt::Let { value, .. } => collect_expr(value, out),
        Stmt::Expr(e) => collect_expr(e, out),
        Stmt::Return { value, .. } => match value {
            Some(e) => collect_expr(e, out),
            None => {
                assert(members_view(out@) =~= o + stmt_members(*s));
            },
        },
        Stmt::Check { predicate, .. } => collect_expr(predicate, out),
        Stmt::If { cond, then_block, else_block, .. } => {
            collect_expr(cond, out);
            collect_stmts(&then_block.stmts, out);
            match else_block {
                Some(b) => collect_stmts(&b.stmts, out),
                None => {},
            }
            assert(members_view(out@) =~= o + stmt_members(*s));
        },
    }
}

fn collect_stmts(v: &Vec<Stmt>, out: &mut Vec<MemberSite>)
    ensures
        members_view(final(out)@) == members_view(old(out)@) + stmts_members(v@),
    decreases v, 0int,
{
    let ghost o = members_view(out@);
    let n = v.len();
    let mut i: usize = 0;
    assert(o =~= o + stmts_members(v@.subrange(0, 0)));
    while i < n
        invariant
            n == v@.len(),
            i <= n,
            members_view(out@) == o + stmts_members(v@.subrange(0, i as int)),
        decreases n - i,
    {
        collect_stmt(&v[i], out);
        assert(v@.subrange(0, i + 1).subrange(0, i as int) =~= v@.subrange(0, i as int));
        assert(members_view(out@) =~= o + stmts_members(v@.subrange(0, i + 1)));
        i = i + 1;
    }
    assert(v@.subrange(0, n as int) =~= v@);
}

fn collect_contracts(cs: &Vec<Contract>, out: &mut Vec<MemberSite>)
    ensures
        members_view(final(out)@) == members_view(old(out)@) + contracts_members(cs@),
{
    let ghost o = members_view(out@);
    let n = cs.len();
    let mut i: usize = 0;
    assert(o =~= o + contracts_members(cs@.subrange(0, 0)));
    while i < n
        invariant
            n == cs@.len(),
            i <= n,
            members_view(out@) == o + contracts_members(cs@.subrange(0, i as int)),
        decreases n - i,
    {
        collect_expr(&cs[i].predicate, out);
        assert(cs@.subrange(0, i + 1).drop_last() =~= cs@.subrange(0, i as int));
        assert(members_view(out@) =~= o + contracts_members(cs@.subrange(0, i + 1)));
        i = i + 1;
    }
    assert(cs@.subrange(0, n as int) =~= cs@);
}

/// The member accesses of a module, in source order.
pub fn module_members(items: &Vec<Item>) -> (r: Vec<MemberSite>)
    ensures
        members_view(r@) == items_members(items@),
{
    let mut out: Vec<MemberSite> = Vec::new();
    let n = items.len();
    let mut i: usize = 0;
    assert(members_view(out@) =~= items_members(items@.subrange(0, 0)));
    while i < n
        invariant
            n == items@.len(),
            i <= n,
            members_view(out@) == items_members(items@.subrange(0, i as int)),
        decreases n - i,
    {
        let ghost o = members_view(out@);
        assert(items@.subrange(0, i + 1).drop_last() =~= items@.subrange(0, i as int));
        match &items[i] {
            Item::Function(f) => {
                collect_contracts(&f.signature.requires, &mut out);
                collect_contracts(&f.signature.ensures, &mut out);
                collect_stmts(&f.body.stmts, &mut out);
            },
            Item::Type(_) => {},
        }
        assert(members_view(out@) =~= items_members(items@.subrange(0, i + 1)));
        i = i + 1;
    }
    assert(items@.subrange(0, n as int) =~= items@);
    out
}

// --- The program and its import graph --------------------------------------

/// A program: named modules, as (name, module) pairs.
pub open spec fn program_view(p: Seq<(&String, &Module)>) -> Seq<(Seq<char>, Module)> {
    p.map_values(|e: (&String, &Module)| (e.0@, *e.1))
}

/// The position of the (first) module named `name`.
pub open spec fn find_module(p: Seq<(Seq<char>, Module)>, name: Seq<char>) -> Option<int>
    decreases p.len(),
{
    if p.len() == 0 {
        None
    } else {
        match find_module(p.drop_last(), name) {
            Some(k) => Some(k),
            None => if p.last().0 == name {
                Some(p.len() - 1)
            } else {
                None
            },
        }
    }
}

/// The name an item declares — only if exported, when asked for.
pub open spec fn item_name(it: Item, only_exported: bool) -> Option<Seq<char>> {
    match it {
        Item::Function(f) => if f.exported || !only_exported {
            Some(f.signature.name@)
        } else {
            None
        },
        Item::Type(t) => if t.exported || !only_exported {
            Some(t.name@)
        } else {
            None
        },
    }
}

/// Whether a module declares an item named `name` (exported, when asked).
pub open spec fn has_item(m: Module, name: Seq<char>, only_exported: bool) -> bool {
    exists|i: int| 0 <= i < m.items@.len() && #[trigger] item_name(m.items@[i], only_exported) == Some(name)
}

/// Whether a module imports `name`.
pub open spec fn imports_name(m: Module, name: Seq<char>) -> bool {
    exists|i: int| 0 <= i < m.imports@.len() && #[trigger] m.imports@[i].name@ == name
}

/// An import edge: the module named `y` imports `x`.
pub open spec fn edge(p: Seq<(Seq<char>, Module)>, y: Seq<char>, x: Seq<char>) -> bool {
    match find_module(p, y) {
        Some(k) => imports_name(p[k].1, x),
        None => false,
    }
}

/// The names reachable from `start` by at most `k` import edges.
pub open spec fn reach_set(p: Seq<(Seq<char>, Module)>, k: nat, start: Seq<char>) -> Set<Seq<char>>
    decreases k,
{
    if k == 0 {
        Set::empty().insert(start)
    } else {
        let prev = reach_set(p, (k - 1) as nat, start);
        Set::new(
            |x: Seq<char>| prev.contains(x) || exists|y: Seq<char>| #[trigger] prev.contains(y) && edge(p, y, x),
        )
    }
}

/// `x` is reachable from `start` by at most `k` import edges.
pub open spec fn in_reach(p: Seq<(Seq<char>, Module)>, k: nat, start: Seq<char>, x: Seq<char>) -> bool {
    reach_set(p, k, start).contains(x)
}

/// `target` is reachable from `start` by following imports.
pub open spec fn reaches(p: Seq<(Seq<char>, Module)>, start: Seq<char>, target: Seq<char>) -> bool {
    exists|k: nat| #[trigger] in_reach(p, k, start, target)
}

/// The import diagnostics of a module named `mod_name`.
pub open spec fn import_diags(
    p: Seq<(Seq<char>, Module)>,
    mod_name: Seq<char>,
    imps: Seq<Import>,
) -> Seq<(Seq<char>, Span, Seq<char>)>
    decreases imps.len(),
{
    if imps.len() == 0 {
        Seq::empty()
    } else {
        let imp = imps.last();
        import_diags(p, mod_name, imps.drop_last()) + if find_module(p, imp.name@) is None {
            seq![("R0001"@, imp.span, "unknown module `"@ + imp.name@ + "`"@)]
        } else if reaches(p, imp.name@, mod_name) {
            seq![(
                "R0005"@,
                imp.span,
                "import cycle: `"@ + mod_name + "` and `"@ + imp.name@ + "` import each other"@,
            )]
        } else {
            Seq::empty()
        }
    }
}

/// The member-access diagnostics of module `m`.
pub open spec fn member_diags(
    p: Seq<(Seq<char>, Module)>,
    m: Module,
    ms: Seq<(Seq<char>, Seq<char>, Span)>,
) -> Seq<(Seq<char>, Span, Seq<char>)>
    decreases ms.len(),
{
    if ms.len() == 0 {
        Seq::empty()
    } else {
        let (base, name, span) = ms.last();
        member_diags(p, m, ms.drop_last()) + if !imports_name(m, base) {
            seq![("R0002"@, span, "`"@ + base + "` is not an imported module"@)]
        } else {
            match find_module(p, base) {
                None => Seq::empty(),
                Some(k) => if !has_item(p[k].1, name, false) {
                    seq![("R0003"@, span, "module `"@ + base + "` has no item `"@ + name + "`"@)]
                } else if !has_item(p[k].1, name, true) {
                    seq![(
                        "R0004"@,
                        span,
                        "`"@ + name + "` is private to module `"@ + base
                            + "` — mark it `export` to use it"@,
                    )]
                } else {
                    Seq::empty()
                },
            }
        }
    }
}

/// The resolution diagnostics of the modules of `q` (a prefix of `p`).
pub open spec fn program_diags(p: Seq<(Seq<char>, Module)>, q: Seq<(Seq<char>, Module)>) -> Seq<(Seq<char>, Span, Seq<char>)>
    decreases q.len(),
{
    if q.len() == 0 {
        Seq::empty()
    } else {
        let (name, m) = q.last();
        program_diags(p, q.drop_last()) + import_diags(p, name, m.imports@) + member_diags(
            p,
            m,
            items_members(m.items@),
        )
    }
}

fn lookup_module(program: &Vec<(&String, &Module)>, name: &str) -> (r: Option<usize>)
    ensures
        match r {
            Some(k) => find_module(program_view(program@), name@) == Some(k as int) && k < program@.len(),
            None => find_module(program_view(program@), name@) is None,
        },
{
    let n = program.len();
    let mut i: usize = 0;
    while i < n
        invariant
            n == program@.len(),
            i <= n,
            find_module(program_view(program@).subrange(0, i as int), name@) is None,
        decreases n - i,
    {
        assert(program_view(program@).subrange(0, i + 1).drop_last() =~= program_view(program@).subrange(0, i as int));
        if string_is(program[i].0, name) {
            proof {
                lemma_find_module_prefix(program_view(program@), i + 1, name@);
            }
            return Some(i);
        }
        i = i + 1;
    }
    assert(program_view(program@).subrange(0, n as int) =~= program_view(program@));
    None
}

/// Finding a module in a prefix finds it in the whole program.
proof fn lemma_find_module_prefix(p: Seq<(Seq<char>, Module)>, j: int, name: Seq<char>)
    requires
        0 < j <= p.len(),
        find_module(p.subrange(0, j), name) is Some,
    ensures
        find_module(p, name) == find_module(p.subrange(0, j), name),
    decreases p.len() - j,
{
    if j < p.len() {
        assert(p.subrange(0, j + 1).drop_last() =~= p.subrange(0, j));
        lemma_find_module_prefix(p, j + 1, name);
    } else {
        assert(p.subrange(0, j) =~= p);
    }
}

fn module_has_item(m: &Module, name: &str, only_exported: bool) -> (r: bool)
    ensures
        r == has_item(*m, name@, only_exported),
{
    let n = m.items.len();
    let mut i: usize = 0;
    while i < n
        invariant
            n == m.items@.len(),
            i <= n,
            forall|j: int| 0 <= j < i ==> #[trigger] item_name(m.items@[j], only_exported) != Some(name@),
        decreases n - i,
    {
        let hit = match &m.items[i] {
            Item::Function(f) => (f.exported || !only_exported) && string_is(&f.signature.name, name),
            Item::Type(t) => (t.exported || !only_exported) && string_is(&t.name, name),
        };
        if hit {
            assert(item_name(m.items@[i as int], only_exported) == Some(name@));
            return true;
        }
        i = i + 1;
    }
    false
}

fn module_imports(m: &Module, name: &str) -> (r: bool)
    ensures
        r == imports_name(*m, name@),
{
    let n = m.imports.len();
    let mut i: usize = 0;
    while i < n
        invariant
            n == m.imports@.len(),
            i <= n,
            forall|j: int| 0 <= j < i ==> #[trigger] m.imports@[j].name@ != name@,
        decreases n - i,
    {
        if string_is(&m.imports[i].name, name) {
            assert(m.imports@[i as int].name@ == name@);
            return true;
        }
        i = i + 1;
    }
    false
}

// --- Reachability -----------------------------------------------------------

/// The names a list of imports brings in.
pub open spec fn import_names(imps: Seq<Import>) -> Seq<Seq<char>> {
    imps.map_values(|i: Import| i.name@)
}

/// Every imported name of every module, in order.
pub open spec fn all_import_names(p: Seq<(Seq<char>, Module)>) -> Seq<Seq<char>>
    decreases p.len(),
{
    if p.len() == 0 {
        Seq::empty()
    } else {
        all_import_names(p.drop_last()) + import_names(p.last().1.imports@)
    }
}

/// The target of an import edge is among the imported names.
proof fn lemma_listed(p: Seq<(Seq<char>, Module)>, k: int, i: int)
    requires
        0 <= k < p.len(),
        0 <= i < p[k].1.imports@.len(),
    ensures
        all_import_names(p).contains(p[k].1.imports@[i].name@),
    decreases p.len(),
{
    let x = p[k].1.imports@[i].name@;
    if k == p.len() - 1 {
        let tail = import_names(p.last().1.imports@);
        assert(tail[i] == x);
        assert((all_import_names(p.drop_last()) + tail)[all_import_names(p.drop_last()).len() + i] == x);
    } else {
        assert(p.drop_last()[k] == p[k]);
        lemma_listed(p.drop_last(), k, i);
        let w = choose|w: int| 0 <= w < all_import_names(p.drop_last()).len() && all_import_names(p.drop_last())[w] == x;
        assert(all_import_names(p)[w] == x);
    }
}

/// Reachability grows with the number of steps allowed.
proof fn lemma_reach_mono(p: Seq<(Seq<char>, Module)>, j: nat, k: nat, start: Seq<char>, x: Seq<char>)
    requires
        j <= k,
        in_reach(p, j, start, x),
    ensures
        in_reach(p, k, start, x),
    decreases k,
{
    if j < k {
        lemma_reach_mono(p, j, (k - 1) as nat, start, x);
    }
}

/// Once one more step adds nothing, no number of steps adds anything.
proof fn lemma_reach_stable(p: Seq<(Seq<char>, Module)>, k: nat, j: nat, start: Seq<char>)
    requires
        k <= j,
        forall|x: Seq<char>| #[trigger] in_reach(p, k + 1, start, x) == in_reach(p, k, start, x),
    ensures
        forall|x: Seq<char>| #[trigger] in_reach(p, j, start, x) == in_reach(p, k, start, x),
    decreases j,
{
    if j > k {
        lemma_reach_stable(p, k, (j - 1) as nat, start);
        let jm = (j - 1) as nat;
        assert forall|x: Seq<char>| #[trigger] in_reach(p, j, start, x) == in_reach(p, k, start, x) by {
            assert(in_reach(p, k + 1, start, x) == in_reach(p, k, start, x));
            assert(in_reach(p, jm, start, x) == in_reach(p, k, start, x));
            if in_reach(p, j, start, x) && !in_reach(p, jm, start, x) {
                assert(exists|y: Seq<char>| #[trigger] reach_set(p, jm, start).contains(y) && edge(p, y, x));
                let y = choose|y: Seq<char>| #[trigger] reach_set(p, jm, start).contains(y) && edge(p, y, x);
                assert(in_reach(p, jm, start, y) == in_reach(p, k, start, y));
                assert(in_reach(p, k, start, y));
                assert(in_reach(p, k + 1, start, x));
            }
        }
    }
}

/// A duplicate-free list of candidates is no longer than the candidates.
proof fn lemma_bounded(xs: Seq<Seq<char>>, cands: Seq<Seq<char>>)
    requires
        xs.no_duplicates(),
        forall|x: Seq<char>| xs.contains(x) ==> cands.contains(x),
    ensures
        xs.len() <= cands.len(),
{
    xs.unique_seq_to_set();
    cands.lemma_cardinality_of_set();
    vstd::seq_lib::seq_to_set_is_finite(cands);
    assert(xs.to_set().subset_of(cands.to_set()));
    vstd::set_lib::lemma_len_subset(xs.to_set(), cands.to_set());
}

/// Some name of `ys[..j]` has an import edge to `x`.
pub open spec fn edge_from(p: Seq<(Seq<char>, Module)>, ys: Seq<Seq<char>>, j: int, x: Seq<char>) -> bool {
    exists|jj: int| 0 <= jj < j && #[trigger] edge(p, ys[jj], x)
}

/// One round: the names of `cur` and every name one of them imports.
fn expand(program: &Vec<(&String, &Module)>, cur: &Vec<String>, Ghost(cands): Ghost<Seq<Seq<char>>>) -> (next: Vec<String>)
    requires
        names_view(cur@).no_duplicates(),
        forall|x: Seq<char>| names_view(cur@).contains(x) ==> cands.contains(x),
        forall|y: Seq<char>, x: Seq<char>| #[trigger] edge(program_view(program@), y, x) ==> cands.contains(x),
    ensures
        next@.len() >= cur@.len(),
        names_view(next@).subrange(0, cur@.len() as int) == names_view(cur@),
        names_view(next@).no_duplicates(),
        forall|x: Seq<char>| names_view(next@).contains(x) ==> cands.contains(x),
        forall|x: Seq<char>|
            #[trigger] names_view(next@).contains(x) == (names_view(cur@).contains(x) || edge_from(
                program_view(program@),
                names_view(cur@),
                cur@.len() as int,
                x,
            )),
{
    let ghost pv = program_view(program@);
    let ghost cv = names_view(cur@);
    let mut next: Vec<String> = Vec::new();
    let n = cur.len();
    let mut i: usize = 0;
    while i < n
        invariant
            n == cur@.len(),
            i <= n,
            names_view(next@) == cv.subrange(0, i as int),
            cv == names_view(cur@),
        decreases n - i,
    {
        let ghost before = next@;
        next.push(copy_string(&cur[i]));
        assert(names_view(next@) =~= names_view(before).push(cur@[i as int]@));
        assert(cv[i as int] == cur@[i as int]@);
        assert(cv.subrange(0, i + 1) =~= cv.subrange(0, i as int).push(cv[i as int]));
        assert(names_view(next@) =~= cv.subrange(0, i + 1));
        i = i + 1;
    }
    assert(cv.subrange(0, n as int) =~= cv);
    let mut j: usize = 0;
    while j < n
        invariant
            n == cur@.len(),
            j <= n,
            pv == program_view(program@),
            cv == names_view(cur@),
            cv.no_duplicates(),
            forall|y: Seq<char>, x: Seq<char>| #[trigger] edge(pv, y, x) ==> cands.contains(x),
            forall|x: Seq<char>| cv.contains(x) ==> cands.contains(x),
            next@.len() >= n,
            names_view(next@).subrange(0, n as int) == cv,
            names_view(next@).no_duplicates(),
            forall|x: Seq<char>| names_view(next@).contains(x) ==> cands.contains(x),
            forall|x: Seq<char>|
                #[trigger] names_view(next@).contains(x) == (cv.contains(x) || edge_from(pv, cv, j as int, x)),
        decreases n - j,
    {
        let y = cur[j].as_str();
        assert(cv[j as int] == y@);
        match lookup_module(program, y) {
            Some(k) => {
                let m = program[k].1;
                assert(pv[k as int].1 == *m);
                let ghost base = names_view(next@);
                let q_n = m.imports.len();
                let mut q: usize = 0;
                while q < q_n
                    invariant
                        q_n == m.imports@.len(),
                        q <= q_n,
                        next@.len() >= n,
                        names_view(next@).subrange(0, n as int) == cv,
                        names_view(next@).no_duplicates(),
                        forall|x: Seq<char>| names_view(next@).contains(x) ==> cands.contains(x),
                        forall|x: Seq<char>| edge(pv, y@, x) ==> cands.contains(x),
                        find_module(pv, y@) == Some(k as int),
                        pv[k as int].1 == *m,
                        forall|x: Seq<char>|
                            #[trigger] names_view(next@).contains(x) == (base.contains(x) || exists|qq: int|
                                0 <= qq < q && #[trigger] m.imports@[qq].name@ == x),
                    decreases q_n - q,
                {
                    let x = m.imports[q].name.as_str();
                    assert(edge(pv, y@, x@)) by {
                        assert(m.imports@[q as int].name@ == x@);
                    }
                    if !contains_str(&next, x) {
                        let ghost before = names_view(next@);
                        next.push(copy_string(&m.imports[q].name));
                        assert(names_view(next@) =~= before.push(x@));
                        assert(names_view(next@).subrange(0, n as int) =~= before.subrange(0, n as int));
                        assert forall|a: int, b: int| 0 <= a < b < names_view(next@).len()
                            implies names_view(next@)[a] != names_view(next@)[b] by {
                            if b == before.len() {
                                assert(before.contains(before[a]));
                            }
                        }
                        assert forall|z: Seq<char>| #[trigger] names_view(next@).contains(z) == (base.contains(z)
                            || exists|qq: int| 0 <= qq < q + 1 && #[trigger] m.imports@[qq].name@ == z) by {
                            vstd::seq_lib::lemma_seq_contains_after_push(before, x@, z);
                            assert(before.contains(z) == (base.contains(z) || exists|qq: int| 0 <= qq < q && #[trigger] m.imports@[qq].name@ == z));
                            if exists|qq: int| 0 <= qq < q + 1 && #[trigger] m.imports@[qq].name@ == z {
                                let qq = choose|qq: int| 0 <= qq < q + 1 && #[trigger] m.imports@[qq].name@ == z;
                                if qq < q {
                                    assert(exists|qq: int| 0 <= qq < q && #[trigger] m.imports@[qq].name@ == z);
                                }
                            }
                            if exists|qq: int| 0 <= qq < q && #[trigger] m.imports@[qq].name@ == z {
                                let qq = choose|qq: int| 0 <= qq < q && #[trigger] m.imports@[qq].name@ == z;
                                assert(exists|qq: int| 0 <= qq < q + 1 && #[trigger] m.imports@[qq].name@ == z);
                            }
                            if z == x@ {
                                assert(m.imports@[q as int].name@ == z);
                            }
                        }
                    } else {
                        assert forall|z: Seq<char>| #[trigger] names_view(next@).contains(z) == (base.contains(z)
                            || exists|qq: int| 0 <= qq < q + 1 && #[trigger] m.imports@[qq].name@ == z) by {
                            assert(names_view(next@).contains(z) == (base.contains(z) || exists|qq: int| 0 <= qq < q && #[trigger] m.imports@[qq].name@ == z));
                            if exists|qq: int| 0 <= qq < q + 1 && #[trigger] m.imports@[qq].name@ == z {
                                let qq = choose|qq: int| 0 <= qq < q + 1 && #[trigger] m.imports@[qq].name@ == z;
                                if qq == q {
                                    assert(names_view(next@).contains(x@));
                                } else {
                                    assert(exists|qq: int| 0 <= qq < q && #[trigger] m.imports@[qq].name@ == z);
                                }
                            }
                            if exists|qq: int| 0 <= qq < q && #[trigger] m.imports@[qq].name@ == z {
                                let qq = choose|qq: int| 0 <= qq < q && #[trigger] m.imports@[qq].name@ == z;
                                assert(exists|qq: int| 0 <= qq < q + 1 && #[trigger] m.imports@[qq].name@ == z);
                            }
                        }
                    }
                    q = q + 1;
                }
                assert forall|x: Seq<char>| #[trigger] names_view(next@).contains(x) == (cv.contains(x) || edge_from(pv, cv, j + 1, x)) by {
                    assert(edge(pv, cv[j as int], x) == imports_name(*m, x));
                    if edge_from(pv, cv, j + 1, x) && !edge_from(pv, cv, j as int, x) {
                        let jj = choose|jj: int| 0 <= jj < j + 1 && #[trigger] edge(pv, cv[jj], x);
                        assert(jj == j);
                    }
                    if edge(pv, cv[j as int], x) {
                        assert(edge_from(pv, cv, j + 1, x));
                    }
                    if edge_from(pv, cv, j as int, x) {
                        let jj = choose|jj: int| 0 <= jj < j && #[trigger] edge(pv, cv[jj], x);
                        assert(edge_from(pv, cv, j + 1, x));
                    }
                }
            },
            None => {
                assert forall|x: Seq<char>| #[trigger] names_view(next@).contains(x) == (cv.contains(x) || edge_from(pv, cv, j + 1, x)) by {
                    assert(!edge(pv, cv[j as int], x));
                    if edge_from(pv, cv, j + 1, x) {
                        let jj = choose|jj: int| 0 <= jj < j + 1 && #[trigger] edge(pv, cv[jj], x);
                        assert(edge_from(pv, cv, j as int, x));
                    }
                    if edge_from(pv, cv, j as int, x) {
                        let jj = choose|jj: int| 0 <= jj < j && #[trigger] edge(pv, cv[jj], x);
                        assert(edge_from(pv, cv, j + 1, x));
                    }
                }
            },
        }
        j = j + 1;
    }
    next
}

/// Every name reachable from `start` by following imports (`start` itself
/// included), by rounds until a round adds nothing.
fn reachable_from(program: &Vec<(&String, &Module)>, start: &str) -> (r: Vec<String>)
    ensures
        forall|x: Seq<char>| #[trigger] names_view(r@).contains(x) == reaches(program_view(program@), start@, x),
{
    let ghost pv = program_view(program@);
    let ghost cands = seq![start@] + all_import_names(pv);
    assert forall|y: Seq<char>, x: Seq<char>| #[trigger] edge(pv, y, x) implies cands.contains(x) by {
        let k = find_module(pv, y)->0;
        lemma_find_module_found(pv, y);
        let i = choose|i: int| 0 <= i < pv[k].1.imports@.len() && #[trigger] pv[k].1.imports@[i].name@ == x;
        lemma_listed(pv, k, i);
        let w = choose|w: int| 0 <= w < all_import_names(pv).len() && all_import_names(pv)[w] == x;
        assert(cands[w + 1] == x);
    }
    let mut cur: Vec<String> = Vec::new();
    cur.push(crate::text::owned(start));
    let ghost mut k: nat = 0;
    assert(names_view(cur@) =~= seq![start@]);
    assert(cands[0] == start@);
    loop
        invariant
            pv == program_view(program@),
            names_view(cur@).no_duplicates(),
            forall|x: Seq<char>| names_view(cur@).contains(x) ==> cands.contains(x),
            forall|y: Seq<char>, x: Seq<char>| #[trigger] edge(pv, y, x) ==> cands.contains(x),
            forall|x: Seq<char>|
                #![trigger names_view(cur@).contains(x)]
                #![trigger in_reach(pv, k, start@, x)]
                names_view(cur@).contains(x) == in_reach(pv, k, start@, x),
        decreases cands.len() - cur@.len(),
    {
        proof {
            lemma_bounded(names_view(cur@), cands);
        }
        let next = expand(program, &cur, Ghost(cands));
        proof {
            lemma_bounded(names_view(next@), cands);
            let cv = names_view(cur@);
            assert forall|x: Seq<char>| #[trigger] names_view(next@).contains(x) == in_reach(pv, k + 1, start@, x) by {
                if edge_from(pv, cv, cv.len() as int, x) {
                    let jj = choose|jj: int| 0 <= jj < cv.len() && #[trigger] edge(pv, cv[jj], x);
                    assert(cv.contains(cv[jj]));
                    assert(in_reach(pv, k, start@, cv[jj]));
                }
                if in_reach(pv, k + 1, start@, x) && !in_reach(pv, k, start@, x) {
                    assert(exists|y: Seq<char>| #[trigger] reach_set(pv, k, start@).contains(y) && edge(pv, y, x));
                    let y = choose|y: Seq<char>| #[trigger] reach_set(pv, k, start@).contains(y) && edge(pv, y, x);
                    assert(cv.contains(y));
                    let jj = choose|jj: int| 0 <= jj < cv.len() && cv[jj] == y;
                    assert(edge(pv, cv[jj], x));
                }
            }
        }
        if next.len() == cur.len() {
            proof {
                assert(names_view(next@) =~= names_view(cur@));
                assert forall|x: Seq<char>| #[trigger] in_reach(pv, k + 1, start@, x) == in_reach(pv, k, start@, x) by {
                    assert(names_view(next@).contains(x) == names_view(cur@).contains(x));
                }
                assert forall|x: Seq<char>| #[trigger] names_view(cur@).contains(x) == reaches(pv, start@, x) by {
                    if reaches(pv, start@, x) {
                        let j = choose|j: nat| #[trigger] in_reach(pv, j, start@, x);
                        if j <= k {
                            lemma_reach_mono(pv, j, k, start@, x);
                        } else {
                            lemma_reach_stable(pv, k, j, start@);
                        }
                    }
                    if names_view(cur@).contains(x) {
                        assert(in_reach(pv, k, start@, x));
                    }
                }
            }
            return cur;
        }
        cur = next;
        proof {
            k = k + 1;
        }
    }
}

proof fn lemma_find_module_found(p: Seq<(Seq<char>, Module)>, name: Seq<char>)
    requires
        find_module(p, name) is Some,
    ensures
        0 <= find_module(p, name)->0 < p.len(),
        p[find_module(p, name)->0].0 == name,
    decreases p.len(),
{
    if find_module(p.drop_last(), name) is Some {
        lemma_find_module_found(p.drop_last(), name);
        assert(p[find_module(p, name)->0] == p.drop_last()[find_module(p, name)->0]);
    }
}

/// Whether module `start` reaches `target` by following imports.
fn reaches_module(program: &Vec<(&String, &Module)>, start: &str, target: &str) -> (r: bool)
    ensures
        r == reaches(program_view(program@), start@, target@),
{
    let seen = reachable_from(program, start);
    contains_str(&seen, target)
}

/// The import diagnostics of one module.
fn check_imports(program: &Vec<(&String, &Module)>, mod_name: &str, imps: &Vec<Import>) -> (r: Vec<Diagnostic>)
    ensures
        errors_as(r@, import_diags(program_view(program@), mod_name@, imps@)),
{
    let ghost pv = program_view(program@);
    let mut out: Vec<Diagnostic> = Vec::new();
    let n = imps.len();
    let mut i: usize = 0;
    while i < n
        invariant
            n == imps@.len(),
            i <= n,
            pv == program_view(program@),
            errors_as(out@, import_diags(pv, mod_name@, imps@.subrange(0, i as int))),
        decreases n - i,
    {
        let imp = &imps[i];
        let ghost prev = import_diags(pv, mod_name@, imps@.subrange(0, i as int));
        assert(imps@.subrange(0, i + 1).drop_last() =~= imps@.subrange(0, i as int));
        let name = imp.name.as_str();
        if lookup_module(program, name).is_none() {
            let ghost before = out@;
            push_error(&mut out, "R0001", imp.span, cat(&["unknown module `", name, "`"]));
            proof {
                reveal_with_fuel(crate::text::joined, 4);
                lemma_errors_push(before, prev, out@.last());
            }
            assert(prev.push(out@.last()@) =~= import_diags(pv, mod_name@, imps@.subrange(0, i + 1)));
        } else if reaches_module(program, name, mod_name) {
            let ghost before = out@;
            push_error(
                &mut out,
                "R0005",
                imp.span,
                cat(&["import cycle: `", mod_name, "` and `", name, "` import each other"]),
            );
            proof {
                reveal_with_fuel(crate::text::joined, 6);
                lemma_errors_push(before, prev, out@.last());
            }
            assert(prev.push(out@.last()@) =~= import_diags(pv, mod_name@, imps@.subrange(0, i + 1)));
        } else {
            assert(prev =~= import_diags(pv, mod_name@, imps@.subrange(0, i + 1)));
        }
        i = i + 1;
    }
    assert(imps@.subrange(0, n as int) =~= imps@);
    out
}

/// The member-access diagnostics of one module.
fn check_members(program: &Vec<(&String, &Module)>, m: &Module) -> (r: Vec<Diagnostic>)
    ensures
        errors_as(r@, member_diags(program_view(program@), *m, items_members(m.items@))),
{
    let ghost pv = program_view(program@);
    let sites = module_members(&m.items);
    let ghost ms = members_view(sites@);
    let mut out: Vec<Diagnostic> = Vec::new();
    let n = sites.len();
    let mut i: usize = 0;
    while i < n
        invariant
            n == sites@.len(),
            i <= n,
            pv == program_view(program@),
            ms == members_view(sites@),
            errors_as(out@, member_diags(pv, *m, ms.subrange(0, i as int))),
        decreases n - i,
    {
        let site = &sites[i];
        let ghost prev = member_diags(pv, *m, ms.subrange(0, i as int));
        assert(ms.subrange(0, i + 1).drop_last() =~= ms.subrange(0, i as int));
        assert(ms.subrange(0, i + 1).last() == (site.base@, site.name@, site.span));
        let base = site.base.as_str();
        let name = site.name.as_str();
        if !module_imports(m, base) {
            let ghost before = out@;
            push_error(&mut out, "R0002", site.span, cat(&["`", base, "` is not an imported module"]));
            proof {
                reveal_with_fuel(crate::text::joined, 4);
                lemma_errors_push(before, prev, out@.last());
            }
            assert(prev.push(out@.last()@) =~= member_diags(pv, *m, ms.subrange(0, i + 1)));
        } else {
            match lookup_module(program, base) {
                None => {
                    assert(prev =~= member_diags(pv, *m, ms.subrange(0, i + 1)));
                },
                Some(k) => {
                    let target = program[k].1;
                    assert(pv[k as int].1 == *target);
                    if !module_has_item(target, name, false) {
                        let ghost before = out@;
                        push_error(&mut out, "R0003", site.span, cat(&["module `", base, "` has no item `", name, "`"]));
                        proof {
                            reveal_with_fuel(crate::text::joined, 6);
                            lemma_errors_push(before, prev, out@.last());
                        }
                        assert(prev.push(out@.last()@) =~= member_diags(pv, *m, ms.subrange(0, i + 1)));
                    } else if !module_has_item(target, name, true) {
                        let ghost before = out@;
                        push_error(
                            &mut out,
                            "R0004",
                            site.span,
                            cat(&["`", name, "` is private to module `", base, "` — mark it `export` to use it"]),
                        );
                        proof {
                            reveal_with_fuel(crate::text::joined, 6);
                            lemma_errors_push(before, prev, out@.last());
                        }
                        assert(prev.push(out@.last()@) =~= member_diags(pv, *m, ms.subrange(0, i + 1)));
                    } else {
                        assert(prev =~= member_diags(pv, *m, ms.subrange(0, i + 1)));
                    }
                },
            }
        }
        i = i + 1;
    }
    assert(ms.subrange(0, n as int) =~= ms);
    out
}

/// Resolve qualified names and enforce visibility across a program given as
/// (name, module) pairs; the diagnostics come module by module, in order.
pub fn check_program(program: &Vec<(&String, &Module)>) -> (r: Vec<Diagnostic>)
    ensures
        errors_as(r@, program_diags(program_view(program@), program_view(program@))),
{
    let ghost pv = program_view(program@);
    let mut out: Vec<Diagnostic> = Vec::new();
    let n = program.len();
    let mut i: usize = 0;
    while i < n
        invariant
            n == program@.len(),
            i <= n,
            pv == program_view(program@),
            errors_as(out@, program_diags(pv, pv.subrange(0, i as int))),
        decreases n - i,
    {
        let name = program[i].0;
        let m = program[i].1;
        let ghost prev = program_diags(pv, pv.subrange(0, i as int));
        assert(pv.subrange(0, i + 1).drop_last() =~= pv.subrange(0, i as int));
        assert(pv.subrange(0, i + 1).last() == (name@, *m));
        let mut a = check_imports(program, name.as_str(), &m.imports);
        let mut b = check_members(program, m);
        let ghost o = out@;
        let ghost av = a@;
        let ghost bv = b@;
        out.append(&mut a);
        proof {
            lemma_errors_append(o, prev, av, import_diags(pv, name@, m.imports@));
        }
        let ghost o2 = out@;
        out.append(&mut b);
        proof {
            lemma_errors_append(
                o2,
                prev + import_diags(pv, name@, m.imports@),
                bv,
                member_diags(pv, *m, items_members(m.items@)),
            );
        }
        i = i + 1;
    }
    assert(pv.subrange(0, n as int) =~= pv);
    out
}

/// `p` lists the entries of the map `m`: one per key, each the key's name and
/// its module.
pub open spec fn lists_map(m: Map<String, Module>, p: Seq<(Seq<char>, Module)>) -> bool {
    &&& p.len() == m.dom().len()
    &&& forall|i: int|
        0 <= i < p.len() ==> exists|k: String|
            #[trigger] m.contains_key(k) && k@ == (#[trigger] p[i]).0 && m[k] == p[i].1
    &&& forall|i: int, j: int| 0 <= i < j < p.len() ==> (#[trigger] p[i]).0 != (#[trigger] p[j]).0
}

/// `a` orders before `b` as strings do: lexicographically by code point
/// (the byte order of their UTF-8 encodings, which `String` compares by).
pub open spec fn key_less(a: Seq<char>, b: Seq<char>) -> bool
    decreases a.len(),
{
    if a.len() == 0 {
        b.len() > 0
    } else if b.len() == 0 {
        false
    } else if a[0] != b[0] {
        (a[0] as u32) < (b[0] as u32)
    } else {
        key_less(a.subrange(1, a.len() as int), b.subrange(1, b.len() as int))
    }
}

/// The names of a listing ascend.
pub open spec fn keys_ascend(p: Seq<(Seq<char>, Module)>) -> bool {
    forall|i: int, j: int| 0 <= i < j < p.len() ==> key_less(#[trigger] p[i].0, #[trigger] p[j].0)
}

/// The entries of a map, each once, in ascending key order.
///
/// Trusted: collecting a `&BTreeMap` (its `IntoIterator`, which is
/// `BTreeMap::iter`) yields every key-value pair of the map exactly once,
/// sorted by key, as its documentation states; `String` keys compare
/// lexicographically by their UTF-8 bytes, which is the order of `key_less`.
#[verifier::external_body]
pub(crate) fn map_entries<'a>(m: &'a BTreeMap<String, Module>) -> (r: Vec<(&'a String, &'a Module)>)
    ensures
        r@.len() == m@.dom().len(),
        forall|i: int| 0 <= i < r@.len() ==> m@.contains_key(*r@[i].0) && m@[*r@[i].0] == *r@[i].1,
        forall|i: int, j: int| 0 <= i < j < r@.len() ==> (*r@[i].0)@ != (*r@[j].0)@,
        forall|i: int, j: int| 0 <= i < j < r@.len() ==> key_less((*r@[i].0)@, (*r@[j].0)@),
{
    Vec::from_iter(m)
}

/// Resolve qualified names and enforce visibility across a set of named
/// modules. The report is that of `check_program` for the map's entries.
pub fn check_resolution(modules: &BTreeMap<String, Module>) -> (r: Vec<Diagnostic>)
    ensures
        exists|p: Seq<(Seq<char>, Module)>|
            lists_map(modules@, p) && keys_ascend(p) && errors_as(r@, #[trigger] program_diags(p, p)),
{
    let program = map_entries(modules);
    let r = check_program(&program);
    proof {
        let p = program_view(program@);
        assert forall|i: int| 0 <= i < p.len() implies exists|k: String|
            #[trigger] modules@.contains_key(k) && k@ == (#[trigger] p[i]).0 && modules@[k] == p[i].1 by {
            let k = *program@[i].0;
            assert(modules@.contains_key(k));
        }
        assert(lists_map(modules@, p));
        assert forall|i: int, j: int| 0 <= i < j < p.len() implies key_less(#[trigger] p[i].0, #[trigger] p[j].0) by {
            assert(p[i].0 == (*program@[i].0)@);
            assert(p[j].0 == (*program@[j].0)@);
        }
    }
    r
}

} // verus!
