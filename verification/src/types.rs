//! The type-checking pass.
//!
//! Writ is strongly and statically typed with no implicit coercions and no
//! null value. A type mismatch is a compile error with an exact span. The pass
//! computes types transiently and reports diagnostics (codes `T0001`..`T0019`).

use vstd::prelude::*;
use crate::ast::{BinaryOp, Block, Contract, Expr, Function, Item, LiteralKind, MatchArm, Module, Param, Pattern, Signature, Stmt, TypeDecl, TypeExpr, UnaryOp, Variant};
use crate::diagnostic::{errors_as, lemma_errors_append, lemma_errors_push, push_error, Diagnostic, Severity};
use crate::span::Span;
use crate::text::{cat, contains_str, copy_string, names_view, owned, push_str, string_is, usize_text};
use crate::ty::{copy_type, copy_types, lemma_tviews, lemma_tviews_push, resolve_t, tview, tviews, Ty, Type};
use crate::typing::{
    add_ctors, arg_list_t, arg_types_t, args_t, arms_t, binary_t, bind_pattern_t, bind_sub_t, binders_list_t, binders_t, block_t,
    builtin_args_t, builtin_sig_t, builtin_t, call_t, cap_authority_t, clauses_t, collect_t, contracts_t, ctor_args_t, ctor_call_t,
    ctor_fields_t, expr_t, field_t, fields_t, find_ctor, find_fn, find_sum, function_t, functions_t, grant_t, identifier_t, infers,
    instantiate_t, is_ctor_t, lookup_var, match_t, min_len, missing_return_t, missing_t, missing_text, params_vars, require_t,
    result_local_t, result_locals_t, result_params_t, result_reserved_t, ret_t, sanitize_t, sig_t, stmt_t, stmts_t, subst_get_t,
    subst_has_t, targs_t, tc_ctors, tc_funcs, tc_sums, tcx_of, arm_t, global_call_t, call_named_t, uncomparable_t, unify_all_t, unify_t, variant_ok_t, zip_subst, CtorT, Diag, FnT, Subst,
    SumT, Tcx, Vars,
};

verus! {

/// The diagnostic codes of the type checker.
pub open spec fn is_type_code(c: Seq<char>) -> bool {
    ||| c == "T0001"@
    ||| c == "T0002"@
    ||| c == "T0003"@
    ||| c == "T0004"@
    ||| c == "T0005"@
    ||| c == "T0006"@
    ||| c == "T0007"@
    ||| c == "T0008"@
    ||| c == "T0009"@
    ||| c == "T0010"@
    ||| c == "T0011"@
    ||| c == "T0012"@
    ||| c == "T0013"@
    ||| c == "T0014"@
    ||| c == "T0015"@
    ||| c == "T0016"@
    ||| c == "T0017"@
    ||| c == "T0018"@
    ||| c == "T0019"@
}

/// Every diagnostic of the list is a type error without blame.
pub open spec fn type_errors(v: Seq<Diagnostic>) -> bool {
    forall|i: int|
        0 <= i < v.len() ==> {
            &&& (#[trigger] v[i]).severity == Severity::Error
            &&& v[i].blame is None
            &&& is_type_code(v[i].code@)
        }
}

proof fn lemma_type_errors_append(a: Seq<Diagnostic>, b: Seq<Diagnostic>)
    requires
        type_errors(a),
        type_errors(b),
    ensures
        type_errors(a + b),
{
    assert forall|i: int| 0 <= i < (a + b).len() implies {
        &&& (#[trigger] (a + b)[i]).severity == Severity::Error
        &&& (a + b)[i].blame is None
        &&& is_type_code((a + b)[i].code@)
    } by {
        if i < a.len() {
            assert((a + b)[i] == a[i]);
        } else {
            assert((a + b)[i] == b[i - a.len()]);
        }
    }
}

// --- Duplicate names and `main` -----------------------------------------

/// The names of a list of variants.
pub open spec fn variant_names(vs: Seq<Variant>) -> Seq<Seq<char>> {
    vs.map_values(|v: Variant| v.name@)
}

/// The variant names declared by a list of items, in order.
pub open spec fn all_variant_names(items: Seq<Item>) -> Seq<Seq<char>>
    decreases items.len(),
{
    if items.len() == 0 {
        Seq::empty()
    } else {
        all_variant_names(items.drop_last()) + match items.last() {
            Item::Type(d) => variant_names(d.variants@),
            Item::Function(_) => Seq::empty(),
        }
    }
}

/// The function names declared by a list of items, in order.
pub open spec fn fn_names(items: Seq<Item>) -> Seq<Seq<char>>
    decreases items.len(),
{
    if items.len() == 0 {
        Seq::empty()
    } else {
        fn_names(items.drop_last()) + match items.last() {
            Item::Function(f) => seq![f.signature.name@],
            Item::Type(_) => Seq::empty(),
        }
    }
}

/// `T0011` for each variant whose name was already declared (in `seen`, or
/// earlier in the list).
pub open spec fn variant_dups(seen: Seq<Seq<char>>, vs: Seq<Variant>) -> Seq<(Seq<char>, Span, Seq<char>)>
    decreases vs.len(),
{
    if vs.len() == 0 {
        Seq::empty()
    } else {
        let v = vs.last();
        variant_dups(seen, vs.drop_last()) + if (seen + variant_names(vs.drop_last())).contains(
            v.name@,
        ) {
            seq![("T0011"@, v.span, "variant `"@ + v.name@ + "` is defined more than once"@)]
        } else {
            Seq::empty()
        }
    }
}

/// The duplicate-name diagnostics of the items of `fs` (a prefix of `all`):
/// a function named twice (`T0010`, at the second), a variant named twice
/// (`T0011`), or a function named after a variant constructor (`T0019`).
pub open spec fn dup_diags(all: Seq<Item>, fs: Seq<Item>) -> Seq<(Seq<char>, Span, Seq<char>)>
    decreases fs.len(),
{
    if fs.len() == 0 {
        Seq::empty()
    } else {
        dup_diags(all, fs.drop_last()) + match fs.last() {
            Item::Function(f) => {
                let name = f.signature.name@;
                if fn_names(fs.drop_last()).contains(name) {
                    seq![("T0010"@, f.signature.span, "function `"@ + name + "` is defined more than once"@)]
                } else if all_variant_names(all).contains(name) {
                    seq![(
                        "T0019"@,
                        f.signature.span,
                        "function `"@ + name
                            + "` has the same name as a variant constructor: constructors and functions share call syntax, so rename one"@,
                    )]
                } else {
                    Seq::empty()
                }
            },
            Item::Type(d) => variant_dups(all_variant_names(fs.drop_last()), d.variants@),
        }
    }
}

/// `T0014` for each parameter of `main` that is not a capability.
pub open spec fn main_param_diags(ps: Seq<Param>) -> Seq<(Seq<char>, Span, Seq<char>)>
    decreases ps.len(),
{
    if ps.len() == 0 {
        Seq::empty()
    } else {
        let p = ps.last();
        main_param_diags(ps.drop_last()) + if p.ty.name@ != "Cap"@ {
            seq![(
                "T0014"@,
                p.span,
                "parameter `"@ + p.name@
                    + "` of `main` must be a capability: `main` receives only capabilities from the runtime, found `"@
                    + p.ty.name@ + "`"@,
            )]
        } else {
            Seq::empty()
        }
    }
}

/// The `main`-signature diagnostics of the items of `fs`.
pub open spec fn main_diags(fs: Seq<Item>) -> Seq<(Seq<char>, Span, Seq<char>)>
    decreases fs.len(),
{
    if fs.len() == 0 {
        Seq::empty()
    } else {
        main_diags(fs.drop_last()) + match fs.last() {
            Item::Function(f) => if f.signature.name@ == "main"@ {
                main_param_diags(f.signature.params@)
            } else {
                Seq::empty()
            },
            Item::Type(_) => Seq::empty(),
        }
    }
}

pub(crate) fn collect_variant_names(items: &Vec<Item>) -> (r: Vec<String>)
    ensures
        names_view(r@) == all_variant_names(items@),
{
    let mut out: Vec<String> = Vec::new();
    let n = items.len();
    let mut i: usize = 0;
    assert(names_view(out@) =~= all_variant_names(items@.subrange(0, 0)));
    while i < n
        invariant
            n == items@.len(),
            i <= n,
            names_view(out@) == all_variant_names(items@.subrange(0, i as int)),
        decreases n - i,
    {
        assert(items@.subrange(0, i + 1).drop_last() =~= items@.subrange(0, i as int));
        match &items[i] {
            Item::Type(d) => {
                let ghost base = names_view(out@);
                let m = d.variants.len();
                let mut j: usize = 0;
                while j < m
                    invariant
                        m == d.variants@.len(),
                        j <= m,
                        names_view(out@) == base + variant_names(d.variants@.subrange(0, j as int)),
                    decreases m - j,
                {
                    let ghost before = out@;
                    out.push(copy_string(&d.variants[j].name));
                    assert(names_view(out@) =~= names_view(before).push(d.variants@[j as int].name@));
                    assert(variant_names(d.variants@.subrange(0, j + 1)) =~= variant_names(d.variants@.subrange(0, j as int)).push(d.variants@[j as int].name@));
                    assert(names_view(out@) =~= base + variant_names(d.variants@.subrange(0, j + 1)));
                    j = j + 1;
                }
                assert(d.variants@.subrange(0, m as int) =~= d.variants@);
            },
            Item::Function(_) => {},
        }
        assert(names_view(out@) =~= all_variant_names(items@.subrange(0, i + 1)));
        i = i + 1;
    }
    assert(items@.subrange(0, n as int) =~= items@);
    out
}

/// Report duplicate top-level names: `T0010`, `T0011`, `T0019`, each at the
/// later definition.
pub fn check_duplicate_names(items: &Vec<Item>) -> (r: Vec<Diagnostic>)
    ensures
        errors_as(r@, dup_diags(items@, items@)),
{
    let ctors = collect_variant_names(items);
    let mut seen_fns: Vec<String> = Vec::new();
    let mut seen_variants: Vec<String> = Vec::new();
    let mut out: Vec<Diagnostic> = Vec::new();
    let n = items.len();
    let mut i: usize = 0;
    assert(names_view(seen_fns@) =~= fn_names(items@.subrange(0, 0)));
    assert(names_view(seen_variants@) =~= all_variant_names(items@.subrange(0, 0)));
    while i < n
        invariant
            n == items@.len(),
            i <= n,
            names_view(ctors@) == all_variant_names(items@),
            names_view(seen_fns@) == fn_names(items@.subrange(0, i as int)),
            names_view(seen_variants@) == all_variant_names(items@.subrange(0, i as int)),
            errors_as(out@, dup_diags(items@, items@.subrange(0, i as int))),
        decreases n - i,
    {
        let ghost prev = dup_diags(items@, items@.subrange(0, i as int));
        assert(items@.subrange(0, i + 1).drop_last() =~= items@.subrange(0, i as int));
        match &items[i] {
            Item::Function(f) => {
                let name = f.signature.name.as_str();
                if contains_str(&seen_fns, name) {
                    let ghost before = out@;
                    push_error(&mut out, "T0010", f.signature.span, cat(&["function `", name, "` is defined more than once"]));
                    proof {
                        reveal_with_fuel(crate::text::joined, 4);
                        lemma_errors_push(before, prev, out@.last());
                    }
                    assert(prev.push(out@.last()@) =~= dup_diags(items@, items@.subrange(0, i + 1)));
                } else {
                    if contains_str(&ctors, name) {
                        let ghost before = out@;
                        push_error(
                            &mut out,
                            "T0019",
                            f.signature.span,
                            cat(&["function `", name, "` has the same name as a variant constructor: constructors and functions share call syntax, so rename one"]),
                        );
                        proof {
                            reveal_with_fuel(crate::text::joined, 4);
                            lemma_errors_push(before, prev, out@.last());
                        }
                        assert(prev.push(out@.last()@) =~= dup_diags(items@, items@.subrange(0, i + 1)));
                    } else {
                        assert(prev =~= dup_diags(items@, items@.subrange(0, i + 1)));
                    }
                }
                seen_fns.push(copy_string(&f.signature.name));
            },
            Item::Type(d) => {
                let ghost base = names_view(seen_variants@);
                let m = d.variants.len();
                let mut j: usize = 0;
                assert(prev =~= prev + variant_dups(base, d.variants@.subrange(0, 0)));
                while j < m
                    invariant
                        m == d.variants@.len(),
                        j <= m,
                        names_view(seen_variants@) == base + variant_names(d.variants@.subrange(0, j as int)),
                        errors_as(out@, prev + variant_dups(base, d.variants@.subrange(0, j as int))),
                    decreases m - j,
                {
                    let v = &d.variants[j];
                    let ghost vs = d.variants@.subrange(0, j + 1);
                    assert(vs.drop_last() =~= d.variants@.subrange(0, j as int));
                    let ghost acc = prev + variant_dups(base, d.variants@.subrange(0, j as int));
                    if contains_str(&seen_variants, v.name.as_str()) {
                        let ghost before = out@;
                        push_error(&mut out, "T0011", v.span, cat(&["variant `", v.name.as_str(), "` is defined more than once"]));
                        proof {
                            reveal_with_fuel(crate::text::joined, 4);
                            lemma_errors_push(before, acc, out@.last());
                        }
                        assert(acc.push(out@.last()@) =~= prev + variant_dups(base, vs));
                    } else {
                        assert(acc =~= prev + variant_dups(base, vs));
                    }
                    let ghost sv = seen_variants@;
                    seen_variants.push(copy_string(&v.name));
                    assert(names_view(seen_variants@) =~= names_view(sv).push(v.name@));
                    assert(variant_names(vs) =~= variant_names(d.variants@.subrange(0, j as int)).push(v.name@));
                    assert(names_view(seen_variants@) =~= base + variant_names(vs));
                    j = j + 1;
                }
                assert(d.variants@.subrange(0, m as int) =~= d.variants@);
            },
        }
        assert(names_view(seen_fns@) =~= fn_names(items@.subrange(0, i + 1)));
        assert(names_view(seen_variants@) =~= all_variant_names(items@.subrange(0, i + 1)));
        i = i + 1;
    }
    assert(items@.subrange(0, n as int) =~= items@);
    out
}

/// `main` may take only capability parameters (`T0014`).
pub fn check_main_signature(items: &Vec<Item>) -> (r: Vec<Diagnostic>)
    ensures
        errors_as(r@, main_diags(items@)),
{
    let mut out: Vec<Diagnostic> = Vec::new();
    let n = items.len();
    let mut i: usize = 0;
    while i < n
        invariant
            n == items@.len(),
            i <= n,
            errors_as(out@, main_diags(items@.subrange(0, i as int))),
        decreases n - i,
    {
        let ghost prev = main_diags(items@.subrange(0, i as int));
        assert(items@.subrange(0, i + 1).drop_last() =~= items@.subrange(0, i as int));
        match &items[i] {
            Item::Function(f) => {
                if string_is(&f.signature.name, "main") {
                    let ps = &f.signature.params;
                    let m = ps.len();
                    let mut j: usize = 0;
                    assert(prev =~= prev + main_param_diags(ps@.subrange(0, 0)));
                    while j < m
                        invariant
                            m == ps@.len(),
                            j <= m,
                            errors_as(out@, prev + main_param_diags(ps@.subrange(0, j as int))),
                        decreases m - j,
                    {
                        let p = &ps[j];
                        let ghost acc = prev + main_param_diags(ps@.subrange(0, j as int));
                        assert(ps@.subrange(0, j + 1).drop_last() =~= ps@.subrange(0, j as int));
                        if !string_is(&p.ty.name, "Cap") {
                            let ghost before = out@;
                            push_error(
                                &mut out,
                                "T0014",
                                p.span,
                                cat(&[
                                    "parameter `",
                                    p.name.as_str(),
                                    "` of `main` must be a capability: `main` receives only capabilities from the runtime, found `",
                                    p.ty.name.as_str(),
                                    "`",
                                ]),
                            );
                            proof {
                                reveal_with_fuel(crate::text::joined, 6);
                                lemma_errors_push(before, acc, out@.last());
                            }
                            assert(acc.push(out@.last()@) =~= prev + main_param_diags(ps@.subrange(0, j + 1)));
                        } else {
                            assert(acc =~= prev + main_param_diags(ps@.subrange(0, j + 1)));
                        }
                        j = j + 1;
                    }
                    assert(ps@.subrange(0, m as int) =~= ps@);
                } else {
                    assert(prev =~= main_diags(items@.subrange(0, i + 1)));
                }
            },
            Item::Type(_) => {
                assert(prev =~= main_diags(items@.subrange(0, i + 1)));
            },
        }
        i = i + 1;
    }
    assert(items@.subrange(0, n as int) =~= items@);
    out
}

// --- Definite return ------------------------------------------------------

/// A statement guarantees a `return`: it is one, or an `if` whose two
/// branches both always return.
pub open spec fn stmt_always_returns(s: Stmt) -> bool
    decreases s, 1int,
{
    match s {
        Stmt::Return { .. } => true,
        Stmt::If { then_block, else_block, .. } => match else_block {
            Some(b) => stmts_always_return(then_block.stmts@) && stmts_always_return(b.stmts@),
            None => false,
        },
        _ => false,
    }
}

/// Some statement of the list guarantees a `return`.
pub open spec fn stmts_always_return(ss: Seq<Stmt>) -> bool
    decreases ss, 0int,
{
    if ss.len() == 0 {
        false
    } else {
        stmts_always_return(ss.subrange(0, ss.len() - 1)) || stmt_always_returns(ss[ss.len() - 1])
    }
}

/// Whether control cannot fall off the end of a block.
pub fn block_always_returns(block: &Block) -> (r: bool)
    ensures
        r == stmts_always_return(block.stmts@),
{
    list_always_returns(&block.stmts)
}

fn list_always_returns(ss: &Vec<Stmt>) -> (r: bool)
    ensures
        r == stmts_always_return(ss@),
    decreases ss, 0int,
{
    let n = ss.len();
    let mut found = false;
    let mut i: usize = 0;
    while i < n
        invariant
            n == ss@.len(),
            i <= n,
            found == stmts_always_return(ss@.subrange(0, i as int)),
        decreases n - i,
    {
        let c = one_always_returns(&ss[i]);
        assert(ss@.subrange(0, i + 1).subrange(0, i as int) =~= ss@.subrange(0, i as int));
        found = found || c;
        i = i + 1;
    }
    assert(ss@.subrange(0, n as int) =~= ss@);
    found
}

fn one_always_returns(s: &Stmt) -> (r: bool)
    ensures
        r == stmt_always_returns(*s),
    decreases s, 1int,
{
    match s {
        Stmt::Return { .. } => true,
        Stmt::If { then_block, else_block, .. } => match else_block {
            Some(b) => {
                let t = list_always_returns(&then_block.stmts);
                let e = list_always_returns(&b.stmts);
                t && e
            },
            None => false,
        },
        _ => false,
    }
}

// --- The checker ------------------------------------------------------------

/// A function's resolved parameter and return types, and whether it is pure
/// (declares no effects) — only a pure function may be used as a value.
struct FnSig {
    name: String,
    params: Vec<Type>,
    ret: Type,
    pure_fn: bool,
}

/// A sum-type constructor: its name, and the item and variant declaring it.
struct CtorInfo {
    name: String,
    item: usize,
    variant: usize,
}

/// A sum type and its variant names, in declaration order.
struct SumInfo {
    name: String,
    variants: Vec<String>,
}

/// A variable in scope and its type.
struct Var {
    name: String,
    ty: Type,
}

/// A generic parameter's inferred type.
struct Inferred {
    name: String,
    ty: Type,
}

struct Checker<'a> {
    items: &'a Vec<Item>,
    funcs: Vec<FnSig>,
    sums: Vec<SumInfo>,
    ctors: Vec<CtorInfo>,
    diagnostics: Vec<Diagnostic>,
    current_ret: Type,
    vars: Vec<Var>,
    marks: Vec<usize>,
}

spec fn fn_view(f: FnSig) -> FnT {
    FnT { name: f.name@, params: tviews(f.params@), ret: tview(f.ret), pure_fn: f.pure_fn }
}

spec fn sum_view(s: SumInfo) -> SumT {
    SumT { name: s.name@, variants: names_view(s.variants@) }
}

spec fn ctor_view(c: CtorInfo) -> CtorT {
    CtorT { name: c.name@, item: c.item as int, variant: c.variant as int }
}

spec fn subst_view(s: Seq<Inferred>) -> Subst {
    s.map_values(|x: Inferred| (x.name@, tview(x.ty)))
}

spec fn diags_view(ds: Seq<Diagnostic>) -> Seq<Diag> {
    ds.map_values(|d: Diagnostic| d@)
}

/// The first function named `name` is the `i`-th, when none before it is.
proof fn lemma_find_fn_at(fs: Seq<FnT>, name: Seq<char>, i: int)
    requires
        0 <= i < fs.len(),
        fs[i].name == name,
        forall|j: int| 0 <= j < i ==> fs[j].name != name,
    ensures
        find_fn(fs, name) == Some(i),
    decreases fs.len(),
{
    if i < fs.len() - 1 {
        lemma_find_fn_at(fs.drop_last(), name, i);
    } else {
        lemma_find_fn_none(fs.drop_last(), name);
    }
}

proof fn lemma_find_fn_none(fs: Seq<FnT>, name: Seq<char>)
    requires
        forall|j: int| 0 <= j < fs.len() ==> fs[j].name != name,
    ensures
        find_fn(fs, name) is None,
    decreases fs.len(),
{
    if fs.len() > 0 {
        lemma_find_fn_none(fs.drop_last(), name);
    }
}

proof fn lemma_find_ctor_at(cs: Seq<CtorT>, name: Seq<char>, i: int)
    requires
        0 <= i < cs.len(),
        cs[i].name == name,
        forall|j: int| 0 <= j < i ==> cs[j].name != name,
    ensures
        find_ctor(cs, name) == Some(i),
    decreases cs.len(),
{
    if i < cs.len() - 1 {
        lemma_find_ctor_at(cs.drop_last(), name, i);
    } else {
        lemma_find_ctor_none(cs.drop_last(), name);
    }
}

proof fn lemma_find_ctor_none(cs: Seq<CtorT>, name: Seq<char>)
    requires
        forall|j: int| 0 <= j < cs.len() ==> cs[j].name != name,
    ensures
        find_ctor(cs, name) is None,
    decreases cs.len(),
{
    if cs.len() > 0 {
        lemma_find_ctor_none(cs.drop_last(), name);
    }
}

/// Every constructor entry points at a variant of a type declaration, and
/// bears its name.
proof fn lemma_add_ctors(cs: Seq<CtorT>, items: Seq<Item>, i: int, vs: Seq<Variant>)
    requires
        0 <= i < items.len(),
        items[i] matches Item::Type(d) && vs == d.variants@,
        forall|k: int| 0 <= k < cs.len() ==> #[trigger] ctor_ok(items, cs[k]),
    ensures
        forall|k: int| 0 <= k < add_ctors(cs, i, vs).len() ==> #[trigger] ctor_ok(items, add_ctors(cs, i, vs)[k]),
{
    lemma_add_ctors_prefix(cs, items, i, vs, vs.len() as int);
    assert(vs.subrange(0, vs.len() as int) =~= vs);
}

proof fn lemma_add_ctors_prefix(cs: Seq<CtorT>, items: Seq<Item>, i: int, vs: Seq<Variant>, n: int)
    requires
        0 <= i < items.len(),
        items[i] matches Item::Type(d) && vs == d.variants@,
        0 <= n <= vs.len(),
        forall|k: int| 0 <= k < cs.len() ==> #[trigger] ctor_ok(items, cs[k]),
    ensures
        forall|k: int| 0 <= k < add_ctors(cs, i, vs.subrange(0, n)).len() ==> #[trigger] ctor_ok(items, add_ctors(cs, i, vs.subrange(0, n))[k]),
    decreases n,
{
    if n > 0 {
        lemma_add_ctors_prefix(cs, items, i, vs, n - 1);
        let sub = vs.subrange(0, n);
        assert(sub.drop_last() =~= vs.subrange(0, n - 1));
        let c = add_ctors(cs, i, vs.subrange(0, n - 1));
        let r = add_ctors(cs, i, sub);
        assert forall|k: int| 0 <= k < r.len() implies #[trigger] ctor_ok(items, r[k]) by {
            if k < c.len() {
                assert(r[k] == c[k]);
            } else {
                assert(r[k] == CtorT { name: vs[n - 1].name@, item: i, variant: n - 1 });
            }
        }
    }
}

/// A constructor entry names a variant of a type declaration.
spec fn ctor_ok(items: Seq<Item>, c: CtorT) -> bool {
    &&& 0 <= c.item < items.len()
    &&& items[c.item] matches Item::Type(d) && 0 <= c.variant < d.variants@.len() && d.variants@[c.variant].name@ == c.name
}

proof fn lemma_tc_ctors(items: Seq<Item>)
    ensures
        forall|k: int| 0 <= k < tc_ctors(items).len() ==> #[trigger] ctor_ok(items, tc_ctors(items)[k]),
    decreases items.len(),
{
    if items.len() > 0 {
        let pre = items.drop_last();
        lemma_tc_ctors(pre);
        let cs = tc_ctors(pre);
        assert forall|k: int| 0 <= k < cs.len() implies #[trigger] ctor_ok(items, cs[k]) by {
            assert(ctor_ok(pre, cs[k]));
            assert(items[cs[k].item] == pre[cs[k].item]);
        }
        match items.last() {
            Item::Type(d) => {
                lemma_add_ctors(cs, items, items.len() - 1, d.variants@);
            },
            Item::Function(_) => {},
        }
    }
}

fn type_named(name: &str, args: Vec<Type>) -> (r: Type)
    ensures
        tview(r) == Ty::Named(name@, tviews(args@)),
{
    Type::Named { name: owned(name), args }
}

fn type_fn(params: Vec<Type>, ret: Type) -> (r: Type)
    ensures
        tview(r) == Ty::Fn(tviews(params@), Box::new(tview(ret))),
{
    Type::Fn { params, ret: Box::new(ret) }
}

fn signature_types(sig: &Signature) -> (r: FnSig)
    ensures
        fn_view(r) == sig_t(*sig),
{
    let mut params: Vec<Type> = Vec::new();
    let n = sig.params.len();
    let mut i: usize = 0;
    while i < n
        invariant
            n == sig.params@.len(),
            i <= n,
            params@.len() == i,
            tviews(params@) == sig.params@.subrange(0, i as int).map_values(|p: Param| resolve_t(p.ty)),
        decreases n - i,
    {
        let t = Type::resolve(&sig.params[i].ty);
        let ghost before = params@;
        params.push(t);
        proof {
            assert(params@.subrange(0, i as int) =~= before);
            assert(sig.params@.subrange(0, i + 1).map_values(|p: Param| resolve_t(p.ty)) =~= sig.params@.subrange(0, i as int).map_values(
                |p: Param| resolve_t(p.ty),
            ).push(resolve_t(sig.params@[i as int].ty)));
        }
        i = i + 1;
    }
    assert(sig.params@.subrange(0, n as int) =~= sig.params@);
    FnSig { name: copy_string(&sig.name), params, ret: return_type_of(sig), pure_fn: sig.effects.effects.len() == 0 }
}

fn return_type_of(sig: &Signature) -> (r: Type)
    ensures
        tview(r) == ret_t(*sig),
{
    match &sig.return_type {
        Some(t) => Type::resolve(t),
        None => Type::Unit,
    }
}

/// The kind of value without defined `==` semantics, if `ty` is one.
fn uncomparable_kind(ty: &Type) -> (r: Option<&'static str>)
    ensures
        match r {
            Some(k) => uncomparable_t(tview(*ty)) == Some(k@),
            None => uncomparable_t(tview(*ty)) is None,
        },
{
    match ty {
        Type::Fn { .. } => Some("functions"),
        Type::Unit => Some("`Unit` values"),
        Type::Named { name, .. } => {
            if string_is(name, "Cap") {
                Some("capabilities")
            } else {
                None
            }
        },
        _ => None,
    }
}

/// The authority `A` of a capability type `Cap<A>`.
fn cap_authority(ty: &Type) -> (r: Option<String>)
    ensures
        match r {
            Some(a) => cap_authority_t(tview(*ty)) == Some(a@),
            None => cap_authority_t(tview(*ty)) is None,
        },
{
    match ty {
        Type::Named { name, args } => {
            proof {
                lemma_tviews(args@);
            }
            if string_is(name, "Cap") && args.len() > 0 {
                match &args[0] {
                    Type::Named { name: a, .. } => Some(copy_string(a)),
                    _ => None,
                }
            } else {
                None
            }
        },
        _ => None,
    }
}

fn subst_get(subst: &Vec<Inferred>, name: &str) -> (r: Option<Type>)
    ensures
        match r {
            Some(t) => subst_get_t(subst_view(subst@), name@) == Some(tview(t)),
            None => subst_get_t(subst_view(subst@), name@) is None,
        },
{
    let ghost sv = subst_view(subst@);
    let mut i = subst.len();
    assert(sv.subrange(0, i as int) =~= sv);
    while i > 0
        invariant
            i <= subst@.len(),
            sv == subst_view(subst@),
            subst_get_t(sv, name@) == subst_get_t(sv.subrange(0, i as int), name@),
        decreases i,
    {
        assert(sv.subrange(0, i as int).drop_last() =~= sv.subrange(0, i - 1));
        i = i - 1;
        if string_is(&subst[i].name, name) {
            return Some(copy_type(&subst[i].ty));
        }
    }
    None
}

fn subst_has(subst: &Vec<Inferred>, name: &str) -> (r: bool)
    ensures
        r == subst_has_t(subst_view(subst@), name@),
{
    let ghost sv = subst_view(subst@);
    let n = subst.len();
    let mut i: usize = 0;
    while i < n
        invariant
            n == subst@.len(),
            sv == subst_view(subst@),
            i <= n,
            forall|j: int| 0 <= j < i ==> sv[j].0 != name@,
        decreases n - i,
    {
        if string_is(&subst[i].name, name) {
            assert(sv[i as int].0 == name@);
            return true;
        }
        i = i + 1;
    }
    false
}

/// Resolve a variant field's written type, replacing a generic parameter by
/// its inferred type (or `Infer` when nothing fixed it).
fn resolve_field(texpr: &TypeExpr, generics: &Vec<String>, subst: &Vec<Inferred>) -> (r: Type)
    ensures
        tview(r) == field_t(*texpr, names_view(generics@), subst_view(subst@)),
    decreases texpr, 1int,
{
    if texpr.args.len() == 0 && contains_str(generics, texpr.name.as_str()) {
        return match subst_get(subst, texpr.name.as_str()) {
            Some(t) => t,
            None => Type::Infer,
        };
    }
    if string_is(&texpr.name, "Int") {
        Type::Int
    } else if string_is(&texpr.name, "Bool") {
        Type::Bool
    } else if string_is(&texpr.name, "Text") {
        Type::Text
    } else if string_is(&texpr.name, "Unit") {
        Type::Unit
    } else {
        Type::Named { name: copy_string(&texpr.name), args: resolve_fields(&texpr.args, generics, subst) }
    }
}

fn resolve_fields(fields: &Vec<TypeExpr>, generics: &Vec<String>, subst: &Vec<Inferred>) -> (r: Vec<Type>)
    ensures
        r@.len() == fields@.len(),
        tviews(r@) == fields_t(fields@, names_view(generics@), subst_view(subst@)),
    decreases fields, 0int,
{
    let ghost g = names_view(generics@);
    let ghost sv = subst_view(subst@);
    let mut out: Vec<Type> = Vec::new();
    let n = fields.len();
    let mut i: usize = 0;
    while i < n
        invariant
            n == fields@.len(),
            i <= n,
            out@.len() == i,
            g == names_view(generics@),
            sv == subst_view(subst@),
            tviews(out@) == fields_t(fields@.subrange(0, i as int), g, sv),
        decreases n - i,
    {
        let t = resolve_field(&fields[i], generics, subst);
        let ghost before = out@;
        out.push(t);
        proof {
            assert(out@.subrange(0, i as int) =~= before);
            assert(fields@.subrange(0, i + 1).subrange(0, i as int) =~= fields@.subrange(0, i as int));
        }
        i = i + 1;
    }
    assert(fields@.subrange(0, n as int) =~= fields@);
    out
}

/// Infer generic bindings by matching a field's written type against an
/// argument's type, keeping the first binding of each generic.
fn unify(field: &TypeExpr, arg: &Type, generics: &Vec<String>, subst: &mut Vec<Inferred>)
    ensures
        subst_view(final(subst)@) == unify_t(*field, tview(*arg), names_view(generics@), subst_view(old(subst)@)),
    decreases field, 1int,
{
    if field.args.len() == 0 && contains_str(generics, field.name.as_str()) {
        if !subst_has(subst, field.name.as_str()) {
            let ghost before = subst@;
            subst.push(Inferred { name: copy_string(&field.name), ty: copy_type(arg) });
            assert(subst_view(subst@) =~= subst_view(before).push((field.name@, tview(*arg))));
        }
        return;
    }
    match arg {
        Type::Named { name, args } => {
            proof {
                lemma_tviews(args@);
            }
            if string_is(name, field.name.as_str()) && args.len() == field.args.len() {
                unify_all(&field.args, args, generics, subst);
            }
        },
        _ => {},
    }
}

fn unify_all(fields: &Vec<TypeExpr>, args: &Vec<Type>, generics: &Vec<String>, subst: &mut Vec<Inferred>)
    requires
        fields@.len() <= args@.len(),
    ensures
        subst_view(final(subst)@) == unify_all_t(fields@, tviews(args@), names_view(generics@), subst_view(old(subst)@)),
    decreases fields, 0int,
{
    let ghost a = tviews(args@);
    let ghost g = names_view(generics@);
    let ghost s0 = subst_view(subst@);
    proof {
        lemma_tviews(args@);
    }
    let n = fields.len();
    let mut i: usize = 0;
    assert(fields@.subrange(0, 0) =~= Seq::<TypeExpr>::empty());
    while i < n
        invariant
            n == fields@.len(),
            n <= args@.len(),
            i <= n,
            a == tviews(args@),
            a.len() == args@.len(),
            forall|j: int| 0 <= j < args@.len() ==> #[trigger] a[j] == tview(args@[j]),
            g == names_view(generics@),
            subst_view(subst@) == unify_all_t(fields@.subrange(0, i as int), a, g, s0),
        decreases n - i,
    {
        unify(&fields[i], &args[i], generics, subst);
        assert(fields@.subrange(0, i + 1).subrange(0, i as int) =~= fields@.subrange(0, i as int));
        i = i + 1;
    }
    assert(fields@.subrange(0, n as int) =~= fields@);
}

/// Instantiate a variant's field types against a scrutinee's type arguments.
fn instantiate_fields(owner: &str, generics: &Vec<String>, fields: &Vec<TypeExpr>, scrutinee_ty: &Type) -> (r: Vec<Type>)
    ensures
        r@.len() == fields@.len(),
        tviews(r@) == instantiate_t(owner@, names_view(generics@), fields@, tview(*scrutinee_ty)),
{
    let ghost g = names_view(generics@);
    let mut subst: Vec<Inferred> = Vec::new();
    match scrutinee_ty {
        Type::Named { name, args } => {
            proof {
                lemma_tviews(args@);
            }
            if string_is(name, owner) && args.len() == generics.len() {
                let n = args.len();
                let mut i: usize = 0;
                while i < n
                    invariant
                        n == args@.len(),
                        n == generics@.len(),
                        i <= n,
                        g == names_view(generics@),
                        subst@.len() == i,
                        tviews(args@).len() == n,
                        forall|j: int| 0 <= j < n ==> #[trigger] tviews(args@)[j] == tview(args@[j]),
                        subst_view(subst@) == zip_subst(g, tviews(args@)).subrange(0, i as int),
                    decreases n - i,
                {
                    let ghost before = subst@;
                    let entry = Inferred { name: copy_string(&generics[i]), ty: copy_type(&args[i]) };
                    proof {
                        assert(g[i as int] == generics@[i as int]@);
                        assert(entry.name@ == g[i as int]);
                        assert(tview(entry.ty) == tviews(args@)[i as int]);
                    }
                    subst.push(entry);
                    proof {
                        let z = zip_subst(g, tviews(args@));
                        assert(subst_view(before) == z.subrange(0, i as int));
                        assert forall|j: int| 0 <= j < i + 1 implies #[trigger] subst_view(subst@)[j] == z.subrange(0, i + 1)[j] by {
                            if j < i {
                                assert(subst@[j] == before[j]);
                                assert(subst_view(before)[j] == z[j]);
                            }
                        }
                        assert(subst_view(subst@) =~= z.subrange(0, i + 1));
                    }
                    i = i + 1;
                }
                assert(zip_subst(g, tviews(args@)).subrange(0, n as int) =~= zip_subst(g, tviews(args@)));
            } else {
                assert(subst_view(subst@) =~= Seq::<(Seq<char>, Ty)>::empty());
            }
        },
        _ => {
            assert(subst_view(subst@) =~= Seq::<(Seq<char>, Ty)>::empty());
        },
    }
    resolve_fields(fields, generics, &subst)
}

fn infer_list(n: usize) -> (r: Vec<Type>)
    ensures
        r@.len() == n,
        tviews(r@) == infers(n as nat),
{
    let mut out: Vec<Type> = Vec::new();
    let mut i: usize = 0;
    while i < n
        invariant
            i <= n,
            out@.len() == i,
            tviews(out@) == infers(i as nat),
        decreases n - i,
    {
        let ghost before = out@;
        out.push(Type::Infer);
        proof {
            lemma_tviews_push(before, Type::Infer);
        }
        assert(infers((i + 1) as nat) =~= infers(i as nat).push(Ty::Infer));
        i = i + 1;
    }
    out
}

fn find_func_in(funcs: &Vec<FnSig>, name: &str) -> (r: Option<usize>)
    ensures
        match r {
            Some(k) => k < funcs@.len() && find_fn(funcs@.map_values(|f: FnSig| fn_view(f)), name@) == Some(k as int),
            None => find_fn(funcs@.map_values(|f: FnSig| fn_view(f)), name@) is None,
        },
{
    let ghost fs = funcs@.map_values(|f: FnSig| fn_view(f));
    let n = funcs.len();
    let mut i: usize = 0;
    while i < n
        invariant
            n == funcs@.len(),
            fs == funcs@.map_values(|f: FnSig| fn_view(f)),
            i <= n,
            forall|j: int| 0 <= j < i ==> fs[j].name != name@,
        decreases n - i,
    {
        if string_is(&funcs[i].name, name) {
            proof {
                lemma_find_fn_at(fs, name@, i as int);
            }
            return Some(i);
        }
        i = i + 1;
    }
    proof {
        lemma_find_fn_none(fs, name@);
    }
    None
}

fn find_ctor_in(ctors: &Vec<CtorInfo>, name: &str) -> (r: Option<usize>)
    ensures
        match r {
            Some(k) => k < ctors@.len() && find_ctor(ctors@.map_values(|c: CtorInfo| ctor_view(c)), name@) == Some(k as int),
            None => find_ctor(ctors@.map_values(|c: CtorInfo| ctor_view(c)), name@) is None,
        },
{
    let ghost cs = ctors@.map_values(|c: CtorInfo| ctor_view(c));
    let n = ctors.len();
    let mut i: usize = 0;
    while i < n
        invariant
            n == ctors@.len(),
            cs == ctors@.map_values(|c: CtorInfo| ctor_view(c)),
            i <= n,
            forall|j: int| 0 <= j < i ==> cs[j].name != name@,
        decreases n - i,
    {
        if string_is(&ctors[i].name, name) {
            proof {
                lemma_find_ctor_at(cs, name@, i as int);
            }
            return Some(i);
        }
        i = i + 1;
    }
    proof {
        lemma_find_ctor_none(cs, name@);
    }
    None
}

fn str_is(a: &str, b: &str) -> (r: bool)
    ensures
        r == (a@ == b@),
{
    crate::text::str_eq(a, b)
}

impl<'a> Checker<'a> {
    /// What the checker knows of the module.
    spec fn cx(&self) -> Tcx {
        Tcx {
            items: self.items@,
            funcs: self.funcs@.map_values(|f: FnSig| fn_view(f)),
            sums: self.sums@.map_values(|s: SumInfo| sum_view(s)),
            ctors: self.ctors@.map_values(|c: CtorInfo| ctor_view(c)),
        }
    }

    /// The variables in scope.
    spec fn vs(&self) -> Vars {
        self.vars@.map_values(|v: Var| (v.name@, tview(v.ty)))
    }

    /// The diagnostics reported so far.
    spec fn dv(&self) -> Seq<Diag> {
        diags_view(self.diagnostics@)
    }

    /// The return type of the function being checked.
    spec fn ret(&self) -> Ty {
        tview(self.current_ret)
    }

    /// Every diagnostic is a type error, and the tables are those of the
    /// module.
    spec fn inv(&self) -> bool {
        &&& type_errors(self.diagnostics@)
        &&& self.cx() == tcx_of(self.items@)
    }

    /// `b` checks the same module as `a`, in the same function.
    spec fn frame(a: Self, b: Self) -> bool {
        &&& a.items == b.items
        &&& a.funcs == b.funcs
        &&& a.sums == b.sums
        &&& a.ctors == b.ctors
        &&& a.current_ret == b.current_ret
    }

    /// `b` has the scopes of `a`, and the variables of `a` below new ones.
    spec fn grows(a: Self, b: Self) -> bool {
        &&& b.marks@ == a.marks@
        &&& b.vars@.len() >= a.vars@.len()
        &&& b.vars@.subrange(0, a.vars@.len() as int) == a.vars@
    }

    fn new(items: &'a Vec<Item>) -> (c: Checker<'a>)
        ensures
            c.inv(),
            c.items == items,
            c.dv().len() == 0,
            c.vars@.len() == 0,
            c.marks@.len() == 0,
    {
        let mut funcs: Vec<FnSig> = Vec::new();
        let mut sums: Vec<SumInfo> = Vec::new();
        let mut ctors: Vec<CtorInfo> = Vec::new();
        let n = items.len();
        let mut i: usize = 0;
        assert(items@.subrange(0, 0) =~= Seq::<Item>::empty());
        assert(funcs@.map_values(|f: FnSig| fn_view(f)) =~= Seq::<FnT>::empty());
        assert(sums@.map_values(|s: SumInfo| sum_view(s)) =~= Seq::<SumT>::empty());
        assert(ctors@.map_values(|c: CtorInfo| ctor_view(c)) =~= Seq::<CtorT>::empty());
        while i < n
            invariant
                n == items@.len(),
                i <= n,
                funcs@.map_values(|f: FnSig| fn_view(f)) == tc_funcs(items@.subrange(0, i as int)),
                sums@.map_values(|s: SumInfo| sum_view(s)) == tc_sums(items@.subrange(0, i as int)),
                ctors@.map_values(|c: CtorInfo| ctor_view(c)) == tc_ctors(items@.subrange(0, i as int)),
            decreases n - i,
        {
            let ghost pre = items@.subrange(0, i + 1);
            assert(pre.drop_last() =~= items@.subrange(0, i as int));
            match &items[i] {
                Item::Function(f) => {
                    if find_func_in(&funcs, f.signature.name.as_str()).is_none() {
                        let ghost before = funcs@;
                        funcs.push(signature_types(&f.signature));
                        assert(funcs@.map_values(|f: FnSig| fn_view(f)) =~= before.map_values(|f: FnSig| fn_view(f)).push(sig_t(f.signature)));
                    }
                },
                Item::Type(d) => {
                    let mut names: Vec<String> = Vec::new();
                    let ghost c0 = ctors@.map_values(|c: CtorInfo| ctor_view(c));
                    let m = d.variants.len();
                    let mut j: usize = 0;
                    assert(d.variants@.subrange(0, 0) =~= Seq::<Variant>::empty());
                    assert(names_view(names@) =~= Seq::<Seq<char>>::empty());
                    while j < m
                        invariant
                            m == d.variants@.len(),
                            j <= m,
                            i < n,
                            n == items@.len(),
                            names@.len() == j,
                            names_view(names@) == variant_names(d.variants@.subrange(0, j as int)),
                            ctors@.map_values(|c: CtorInfo| ctor_view(c)) == add_ctors(c0, i as int, d.variants@.subrange(0, j as int)),
                        decreases m - j,
                    {
                        let v = &d.variants[j];
                        let ghost q = d.variants@.subrange(0, j + 1);
                        assert(q.drop_last() =~= d.variants@.subrange(0, j as int));
                        let ghost nb = names@;
                        names.push(copy_string(&v.name));
                        proof {
                            assert forall|k: int| 0 <= k < j + 1 implies #[trigger] names_view(names@)[k] == variant_names(q)[k] by {
                                if k < j {
                                    assert(names@[k] == nb[k]);
                                    assert(names_view(nb)[k] == variant_names(d.variants@.subrange(0, j as int))[k]);
                                }
                            }
                            assert(names_view(names@) =~= variant_names(q));
                        }
                        if find_ctor_in(&ctors, v.name.as_str()).is_none() {
                            let ghost before = ctors@;
                            ctors.push(CtorInfo { name: copy_string(&v.name), item: i, variant: j });
                            assert(ctors@.map_values(|c: CtorInfo| ctor_view(c)) =~= before.map_values(|c: CtorInfo| ctor_view(c)).push(
                                CtorT { name: v.name@, item: i as int, variant: j as int },
                            ));
                        }
                        j = j + 1;
                    }
                    assert(d.variants@.subrange(0, m as int) =~= d.variants@);
                    let ghost sb = sums@;
                    sums.push(SumInfo { name: copy_string(&d.name), variants: names });
                    assert(sums@.map_values(|s: SumInfo| sum_view(s)) =~= sb.map_values(|s: SumInfo| sum_view(s)).push(
                        SumT { name: d.name@, variants: variant_names(d.variants@) },
                    ));
                },
            }
            i = i + 1;
        }
        assert(items@.subrange(0, n as int) =~= items@);
        let c = Checker {
            items,
            funcs,
            sums,
            ctors,
            diagnostics: Vec::new(),
            current_ret: Type::Unit,
            vars: Vec::new(),
            marks: Vec::new(),
        };
        assert(c.dv() =~= Seq::<Diag>::empty());
        c
    }

    fn error(&mut self, code: &str, span: Span, message: String)
        requires
            old(self).inv(),
            is_type_code(code@),
        ensures
            final(self).inv(),
            Self::frame(*old(self), *final(self)),
            final(self).vars@ == old(self).vars@,
            final(self).marks@ == old(self).marks@,
            final(self).dv() == old(self).dv().push((code@, span, message@)),
    {
        let ghost before = self.diagnostics@;
        let ghost m = message@;
        push_error(&mut self.diagnostics, code, span, message);
        assert forall|i: int| 0 <= i < self.diagnostics@.len() implies {
            &&& (#[trigger] self.diagnostics@[i]).severity == Severity::Error
            &&& self.diagnostics@[i].blame is None
            &&& is_type_code(self.diagnostics@[i].code@)
        } by {
            if i < before.len() {
                assert(self.diagnostics@[i] == before[i]);
            }
        }
        assert(self.dv() =~= diags_view(before).push((code@, span, m)));
    }

    fn push_scope(&mut self)
        requires
            old(self).inv(),
        ensures
            final(self).inv(),
            Self::frame(*old(self), *final(self)),
            final(self).vars@ == old(self).vars@,
            final(self).marks@ == old(self).marks@.push(old(self).vars@.len() as usize),
            final(self).marks@.last() == old(self).vars@.len(),
            final(self).diagnostics == old(self).diagnostics,
    {
        self.marks.push(self.vars.len());
    }

    fn pop_scope(&mut self)
        requires
            old(self).inv(),
            old(self).marks@.len() > 0,
        ensures
            final(self).inv(),
            Self::frame(*old(self), *final(self)),
            final(self).marks@ == old(self).marks@.drop_last(),
            old(self).marks@.last() <= old(self).vars@.len() ==> final(self).vars@ == old(self).vars@.subrange(
                0,
                old(self).marks@.last() as int,
            ),
            final(self).diagnostics == old(self).diagnostics,
    {
        match self.marks.pop() {
            Some(m) => self.vars.truncate(m),
            None => {},
        }
    }

    fn bind(&mut self, name: String, ty: Type)
        requires
            old(self).inv(),
        ensures
            final(self).inv(),
            Self::frame(*old(self), *final(self)),
            final(self).marks@ == old(self).marks@,
            final(self).vars@ == old(self).vars@.push(final(self).vars@.last()),
            final(self).vs() == old(self).vs().push((name@, tview(ty))),
            final(self).diagnostics == old(self).diagnostics,
    {
        let ghost before = self.vars@;
        let ghost entry = (name@, tview(ty));
        self.vars.push(Var { name, ty });
        assert(self.vs() =~= before.map_values(|v: Var| (v.name@, tview(v.ty))).push(entry));
    }

    /// The type of the innermost, latest binding of `name`.
    fn lookup(&self, name: &str) -> (r: Option<Type>)
        ensures
            match r {
                Some(t) => lookup_var(self.vs(), name@) == Some(tview(t)),
                None => lookup_var(self.vs(), name@) is None,
            },
    {
        let ghost vs = self.vs();
        let mut i = self.vars.len();
        assert(vs.subrange(0, i as int) =~= vs);
        while i > 0
            invariant
                i <= self.vars@.len(),
                vs == self.vs(),
                lookup_var(vs, name@) == lookup_var(vs.subrange(0, i as int), name@),
            decreases i,
        {
            assert(vs.subrange(0, i as int).drop_last() =~= vs.subrange(0, i - 1));
            i = i - 1;
            if string_is(&self.vars[i].name, name) {
                return Some(copy_type(&self.vars[i].ty));
            }
        }
        None
    }

    fn find_sum(&self, name: &str) -> (r: Option<usize>)
        ensures
            match r {
                Some(k) => k < self.sums@.len() && find_sum(self.cx().sums, name@) == Some(k as int),
                None => find_sum(self.cx().sums, name@) is None,
            },
    {
        let ghost ss = self.cx().sums;
        let mut i = self.sums.len();
        assert(ss.subrange(0, i as int) =~= ss);
        while i > 0
            invariant
                i <= self.sums@.len(),
                ss == self.cx().sums,
                find_sum(ss, name@) == find_sum(ss.subrange(0, i as int), name@),
            decreases i,
        {
            assert(ss.subrange(0, i as int).drop_last() =~= ss.subrange(0, i - 1));
            i = i - 1;
            if string_is(&self.sums[i].name, name) {
                return Some(i);
            }
        }
        None
    }

    fn is_ctor(&self, name: &str) -> (r: bool)
        ensures
            r == is_ctor_t(self.cx(), name@),
    {
        find_ctor_in(&self.ctors, name).is_some()
    }

    /// The declaration of the type that owns constructor `k`.
    fn ctor_decl(&self, k: usize) -> (d: &'a TypeDecl)
        requires
            self.inv(),
            k < self.ctors@.len(),
        ensures
            Item::Type(*d) == self.items@[self.ctors@[k as int].item as int],
            self.ctors@[k as int].variant < d.variants@.len(),
    {
        proof {
            lemma_tc_ctors(self.items@);
            assert(ctor_ok(self.items@, self.cx().ctors[k as int]));
        }
        let items: &'a Vec<Item> = self.items;
        match &items[self.ctors[k].item] {
            Item::Type(d) => d,
            Item::Function(_) => vstd::pervasive::unreached(),
        }
    }
}

impl<'a> Checker<'a> {
    fn check_function(&mut self, f: &Function)
        requires
            old(self).inv(),
        ensures
            final(self).inv(),
            final(self).items == old(self).items,
            final(self).funcs == old(self).funcs,
            final(self).sums == old(self).sums,
            final(self).ctors == old(self).ctors,
            final(self).dv() == old(self).dv() + function_t(old(self).cx(), *f),
    {
        proof {
            reveal(function_t);
        }
        let ghost cx = self.cx();
        let ghost d0 = self.dv();
        let sig = &f.signature;
        self.current_ret = return_type_of(sig);
        self.vars = Vec::new();
        self.marks = Vec::new();
        self.bind_params(&sig.params);
        self.check_contracts(sig);
        let ghost d1 = self.dv();
        self.check_result_reserved(f);
        let ghost d2 = self.dv();
        self.check_block(&f.body.stmts);
        let ghost d3 = self.dv();
        self.check_missing_return(f);
        assert(self.dv() =~= d0 + function_t(cx, *f));
    }

    /// Bind the parameters of a function, in a fresh environment.
    fn bind_params(&mut self, ps: &Vec<Param>)
        requires
            old(self).inv(),
            old(self).vars@.len() == 0,
        ensures
            final(self).inv(),
            Self::frame(*old(self), *final(self)),
            final(self).marks@ == old(self).marks@,
            final(self).diagnostics == old(self).diagnostics,
            final(self).vs() == params_vars(ps@),
    {
        let ghost pv = params_vars(ps@);
        let n = ps.len();
        let mut i: usize = 0;
        assert(self.vs() =~= pv.subrange(0, 0));
        while i < n
            invariant
                n == ps@.len(),
                i <= n,
                self.inv(),
                Self::frame(*old(self), *self),
                self.marks@ == old(self).marks@,
                self.diagnostics == old(self).diagnostics,
                pv == params_vars(ps@),
                self.vs() == pv.subrange(0, i as int),
            decreases n - i,
        {
            let p = &ps[i];
            self.bind(copy_string(&p.name), Type::resolve(&p.ty));
            assert(self.vs() =~= pv.subrange(0, i + 1));
            i = i + 1;
        }
        assert(pv.subrange(0, n as int) =~= pv);
    }

    /// A function declared `-> T` (a real, non-`Unit` type) must return on
    /// every path (`T0016`).
    fn check_missing_return(&mut self, f: &Function)
        requires
            old(self).inv(),
        ensures
            final(self).inv(),
            Self::frame(*old(self), *final(self)),
            final(self).vars@ == old(self).vars@,
            final(self).marks@ == old(self).marks@,
            final(self).dv() == old(self).dv() + missing_return_t(*f),
    {
        let sig = &f.signature;
        let ret = return_type_of(sig);
        match ret {
            Type::Unit | Type::Error | Type::Infer => {
                assert(self.dv() =~= self.dv() + missing_return_t(*f));
                return;
            },
            _ => {},
        }
        if !block_always_returns(&f.body) {
            let t = ret.to_text();
            let m = cat(&["function `", sig.name.as_str(), "` may fall off the end without returning its `", t.as_str(), "`: add a `return` on every path"]);
            proof {
                reveal_with_fuel(crate::text::joined, 6);
            }
            self.error("T0016", sig.span, m);
        } else {
            assert(self.dv() =~= self.dv() + missing_return_t(*f));
        }
    }

    /// In a function with an `ensures` clause, `result` names the returned
    /// value, so a parameter or local named `result` is refused (`T0018`).
    fn check_result_reserved(&mut self, f: &Function)
        requires
            old(self).inv(),
        ensures
            final(self).inv(),
            Self::frame(*old(self), *final(self)),
            final(self).vars@ == old(self).vars@,
            final(self).marks@ == old(self).marks@,
            final(self).dv() == old(self).dv() + result_reserved_t(*f),
    {
        let sig = &f.signature;
        let ghost d0 = self.dv();
        if sig.ensures.len() == 0 {
            assert(self.dv() =~= d0 + result_reserved_t(*f));
            return;
        }
        let n = sig.params.len();
        let mut i: usize = 0;
        assert(sig.params@.subrange(0, 0) =~= Seq::<Param>::empty());
        assert(self.dv() =~= d0 + result_params_t(sig.params@.subrange(0, 0)));
        while i < n
            invariant
                n == sig.params@.len(),
                i <= n,
                self.inv(),
                Self::frame(*old(self), *self),
                self.vars@ == old(self).vars@,
                self.marks@ == old(self).marks@,
                self.dv() == d0 + result_params_t(sig.params@.subrange(0, i as int)),
            decreases n - i,
        {
            let ghost q = sig.params@.subrange(0, i + 1);
            assert(q.drop_last() =~= sig.params@.subrange(0, i as int));
            if string_is(&sig.params[i].name, "result") {
                self.error(
                    "T0018",
                    sig.params[i].span,
                    owned("`result` is reserved in a function with an `ensures` clause (it names the returned value): rename this parameter"),
                );
            }
            assert(self.dv() =~= d0 + result_params_t(q));
            i = i + 1;
        }
        assert(sig.params@.subrange(0, n as int) =~= sig.params@);
        self.check_no_result_binding(&f.body.stmts);
        assert(self.dv() =~= d0 + result_reserved_t(*f));
    }

    fn check_no_result_binding(&mut self, stmts: &Vec<Stmt>)
        requires
            old(self).inv(),
        ensures
            final(self).inv(),
            Self::frame(*old(self), *final(self)),
            final(self).vars@ == old(self).vars@,
            final(self).marks@ == old(self).marks@,
            final(self).dv() == old(self).dv() + result_locals_t(stmts@),
        decreases stmts, 0int,
    {
        let ghost d0 = self.dv();
        let n = stmts.len();
        let mut i: usize = 0;
        assert(self.dv() =~= d0 + result_locals_t(stmts@.subrange(0, 0)));
        while i < n
            invariant
                n == stmts@.len(),
                i <= n,
                self.inv(),
                Self::frame(*old(self), *self),
                self.vars@ == old(self).vars@,
                self.marks@ == old(self).marks@,
                self.dv() == d0 + result_locals_t(stmts@.subrange(0, i as int)),
            decreases n - i,
        {
            let ghost q = stmts@.subrange(0, i + 1);
            assert(q.subrange(0, i as int) =~= stmts@.subrange(0, i as int));
            self.check_no_result_binding_stmt(&stmts[i]);
            assert(self.dv() =~= d0 + result_locals_t(q));
            i = i + 1;
        }
        assert(stmts@.subrange(0, n as int) =~= stmts@);
    }

    fn check_no_result_binding_stmt(&mut self, stmt: &Stmt)
        requires
            old(self).inv(),
        ensures
            final(self).inv(),
            Self::frame(*old(self), *final(self)),
            final(self).vars@ == old(self).vars@,
            final(self).marks@ == old(self).marks@,
            final(self).dv() == old(self).dv() + result_local_t(*stmt),
        decreases stmt, 1int,
    {
        let ghost d0 = self.dv();
        match stmt {
            Stmt::Let { name, span, .. } => {
                if string_is(name, "result") {
                    self.error(
                        "T0018",
                        *span,
                        owned("`result` is reserved in a function with an `ensures` clause (it names the returned value): rename this local"),
                    );
                } else {
                    assert(self.dv() =~= d0 + result_local_t(*stmt));
                }
            },
            Stmt::If { then_block, else_block, .. } => {
                self.check_no_result_binding(&then_block.stmts);
                match else_block {
                    Some(b) => self.check_no_result_binding(&b.stmts),
                    None => {},
                }
                assert(self.dv() =~= d0 + result_local_t(*stmt));
            },
            _ => {
                assert(self.dv() =~= d0 + result_local_t(*stmt));
            },
        }
    }

    /// Each contract predicate must be `Bool`; an `ensures` also sees `result`.
    fn check_contracts(&mut self, sig: &Signature)
        requires
            old(self).inv(),
            old(self).vs() == params_vars(sig.params@),
            old(self).ret() == ret_t(*sig),
        ensures
            final(self).inv(),
            Self::frame(*old(self), *final(self)),
            final(self).vars@ == old(self).vars@,
            final(self).marks@ == old(self).marks@,
            final(self).dv() == old(self).dv() + contracts_t(old(self).cx(), *sig),
    {
        proof {
            reveal(contracts_t);
        }
        let ghost d0 = self.dv();
        let ghost cx = self.cx();
        let ghost v0 = self.vars;
        self.check_clauses(&sig.requires, "requires");
        let ghost d1 = self.dv();
        if sig.ensures.len() > 0 {
            self.push_scope();
            let ret = copy_type(&self.current_ret);
            self.bind(owned("result"), ret);
            self.check_clauses(&sig.ensures, "ensures");
            let ghost vb = self.vars@;
            self.pop_scope();
            assert(self.vars@ =~= v0@);
        }
        assert(self.dv() =~= d0 + contracts_t(cx, *sig));
    }

    fn check_clauses(&mut self, clauses: &Vec<Contract>, clause: &str)
        requires
            old(self).inv(),
        ensures
            final(self).inv(),
            Self::frame(*old(self), *final(self)),
            final(self).vars@ == old(self).vars@,
            final(self).marks@ == old(self).marks@,
            final(self).dv() == old(self).dv() + clauses_t(old(self).cx(), old(self).vs(), clauses@, clause@),
    {
        let ghost d0 = self.dv();
        let ghost cx = self.cx();
        let ghost vs = self.vs();
        let n = clauses.len();
        let mut i: usize = 0;
        assert(self.dv() =~= d0 + clauses_t(cx, vs, clauses@.subrange(0, 0), clause@));
        while i < n
            invariant
                n == clauses@.len(),
                i <= n,
                self.inv(),
                Self::frame(*old(self), *self),
                self.vars@ == old(self).vars@,
                self.marks@ == old(self).marks@,
                cx == self.cx(),
                vs == self.vs(),
                self.dv() == d0 + clauses_t(cx, vs, clauses@.subrange(0, i as int), clause@),
            decreases n - i,
        {
            let ghost q = clauses@.subrange(0, i + 1);
            assert(q.drop_last() =~= clauses@.subrange(0, i as int));
            let ghost dq = self.dv();
            let pred = &clauses[i].predicate;
            let ty = self.check_expr(pred);
            if !ty.compatible(&Type::Bool) {
                let t = ty.to_text();
                let m = cat(&["`", clause, "` predicate must be `Bool`, found `", t.as_str(), "`"]);
                proof {
                    reveal_with_fuel(crate::text::joined, 6);
                }
                self.error("T0007", pred.span(), m);
            }
            assert(self.dv() =~= d0 + clauses_t(cx, vs, q, clause@));
            i = i + 1;
        }
        assert(clauses@.subrange(0, n as int) =~= clauses@);
    }

    fn check_block(&mut self, stmts: &Vec<Stmt>)
        requires
            old(self).inv(),
        ensures
            final(self).inv(),
            Self::frame(*old(self), *final(self)),
            final(self).vars@ == old(self).vars@,
            final(self).marks@ == old(self).marks@,
            final(self).dv() == old(self).dv() + block_t(old(self).cx(), old(self).vs(), old(self).ret(), stmts@),
        decreases stmts, 0int,
    {
        let ghost d0 = self.dv();
        let ghost cx = self.cx();
        let ghost v0 = self.vs();
        let ghost ret = self.ret();
        self.push_scope();
        let ghost pushed = *self;
        let n = stmts.len();
        let mut i: usize = 0;
        assert(self.dv() =~= d0 + stmts_t(cx, v0, ret, stmts@.subrange(0, 0)).1);
        assert(pushed.vars@.subrange(0, pushed.vars@.len() as int) =~= pushed.vars@);
        while i < n
            invariant
                n == stmts@.len(),
                i <= n,
                self.inv(),
                Self::frame(*old(self), *self),
                Self::grows(pushed, *self),
                pushed.marks@ == old(self).marks@.push(old(self).vars@.len() as usize),
                pushed.vars@ == old(self).vars@,
                cx == self.cx(),
                ret == self.ret(),
                self.vs() == stmts_t(cx, v0, ret, stmts@.subrange(0, i as int)).0,
                self.dv() == d0 + stmts_t(cx, v0, ret, stmts@.subrange(0, i as int)).1,
            decreases n - i,
        {
            let ghost q = stmts@.subrange(0, i + 1);
            assert(q.subrange(0, i as int) =~= stmts@.subrange(0, i as int));
            let ghost before = *self;
            self.check_stmt(&stmts[i]);
            proof {
                assert(self.vars@.subrange(0, pushed.vars@.len() as int) =~= before.vars@.subrange(0, pushed.vars@.len() as int));
            }
            assert(self.dv() =~= d0 + stmts_t(cx, v0, ret, q).1);
            i = i + 1;
        }
        assert(stmts@.subrange(0, n as int) =~= stmts@);
        self.pop_scope();
        assert(self.marks@ =~= old(self).marks@);
        assert(self.vars@ =~= old(self).vars@);
    }

    fn check_stmt(&mut self, stmt: &Stmt)
        requires
            old(self).inv(),
        ensures
            final(self).inv(),
            Self::frame(*old(self), *final(self)),
            Self::grows(*old(self), *final(self)),
            final(self).vs() == stmt_t(old(self).cx(), old(self).vs(), old(self).ret(), *stmt).0,
            final(self).dv() == old(self).dv() + stmt_t(old(self).cx(), old(self).vs(), old(self).ret(), *stmt).1,
        decreases stmt, 1int,
    {
        match stmt {
            Stmt::Let { .. } => self.check_let_stmt(stmt),
            Stmt::Expr(_) => self.check_expr_stmt(stmt),
            Stmt::Return { .. } => self.check_return_stmt(stmt),
            Stmt::If { .. } => self.check_if_stmt(stmt),
            Stmt::Check { .. } => self.check_check_stmt(stmt),
        }
    }

    fn check_let_stmt(&mut self, stmt: &Stmt)
        requires
            old(self).inv(),
            *stmt is Let,
        ensures
            final(self).inv(),
            Self::frame(*old(self), *final(self)),
            Self::grows(*old(self), *final(self)),
            final(self).vs() == stmt_t(old(self).cx(), old(self).vs(), old(self).ret(), *stmt).0,
            final(self).dv() == old(self).dv() + stmt_t(old(self).cx(), old(self).vs(), old(self).ret(), *stmt).1,
        decreases stmt, 0int,
    {
        let ghost d0 = self.dv();
        let ghost cx = self.cx();
        let ghost v0 = self.vs();
        let ghost ret = self.ret();
        assert(self.vars@.subrange(0, self.vars@.len() as int) =~= self.vars@);
        match stmt {
            Stmt::Let { name, ty, value, .. } => {
                let value_ty = self.check_expr(value);
                let bound = match ty {
                    Some(annot) => {
                        let declared = Type::resolve(annot);
                        if !declared.compatible(&value_ty) {
                            let d = declared.to_text();
                            let v = value_ty.to_text();
                            let m = cat(&["type mismatch: binding `", name.as_str(), "` is `", d.as_str(), "` but its value is `", v.as_str(), "`"]);
                            proof {
                                reveal_with_fuel(crate::text::joined, 8);
                            }
                            self.error("T0001", value.span(), m);
                        }
                        declared
                    },
                    None => value_ty,
                };
                let ghost vb = self.vars@;
                self.bind(copy_string(name), bound);
                assert(self.vars@.subrange(0, vb.len() as int) =~= vb);
                assert(self.dv() =~= d0 + stmt_t(cx, v0, ret, *stmt).1);
            },
            _ => {},
        }
    }

    fn check_expr_stmt(&mut self, stmt: &Stmt)
        requires
            old(self).inv(),
            *stmt is Expr,
        ensures
            final(self).inv(),
            Self::frame(*old(self), *final(self)),
            Self::grows(*old(self), *final(self)),
            final(self).vs() == stmt_t(old(self).cx(), old(self).vs(), old(self).ret(), *stmt).0,
            final(self).dv() == old(self).dv() + stmt_t(old(self).cx(), old(self).vs(), old(self).ret(), *stmt).1,
        decreases stmt, 0int,
    {
        let ghost d0 = self.dv();
        let ghost cx = self.cx();
        let ghost v0 = self.vs();
        let ghost ret = self.ret();
        assert(self.vars@.subrange(0, self.vars@.len() as int) =~= self.vars@);
        match stmt {
            Stmt::Expr(e) => {
                let _ = self.check_expr(e);
            },
            _ => {},
        }
    }

    fn check_return_stmt(&mut self, stmt: &Stmt)
        requires
            old(self).inv(),
            *stmt is Return,
        ensures
            final(self).inv(),
            Self::frame(*old(self), *final(self)),
            Self::grows(*old(self), *final(self)),
            final(self).vs() == stmt_t(old(self).cx(), old(self).vs(), old(self).ret(), *stmt).0,
            final(self).dv() == old(self).dv() + stmt_t(old(self).cx(), old(self).vs(), old(self).ret(), *stmt).1,
        decreases stmt, 0int,
    {
        let ghost d0 = self.dv();
        let ghost cx = self.cx();
        let ghost v0 = self.vs();
        let ghost ret = self.ret();
        assert(self.vars@.subrange(0, self.vars@.len() as int) =~= self.vars@);
        match stmt {
            Stmt::Return { value, span } => {
                let actual = match value {
                    Some(e) => self.check_expr(e),
                    None => Type::Unit,
                };
                if !actual.compatible(&self.current_ret) {
                    let x = self.current_ret.to_text();
                    let a = actual.to_text();
                    let m = cat(&["return type mismatch: expected `", x.as_str(), "`, found `", a.as_str(), "`"]);
                    proof {
                        reveal_with_fuel(crate::text::joined, 6);
                    }
                    self.error("T0005", *span, m);
                }
                assert(self.dv() =~= d0 + stmt_t(cx, v0, ret, *stmt).1);
            },
            _ => {},
        }
    }

    fn check_if_stmt(&mut self, stmt: &Stmt)
        requires
            old(self).inv(),
            *stmt is If,
        ensures
            final(self).inv(),
            Self::frame(*old(self), *final(self)),
            Self::grows(*old(self), *final(self)),
            final(self).vs() == stmt_t(old(self).cx(), old(self).vs(), old(self).ret(), *stmt).0,
            final(self).dv() == old(self).dv() + stmt_t(old(self).cx(), old(self).vs(), old(self).ret(), *stmt).1,
        decreases stmt, 0int,
    {
        let ghost d0 = self.dv();
        let ghost cx = self.cx();
        let ghost v0 = self.vs();
        let ghost ret = self.ret();
        assert(self.vars@.subrange(0, self.vars@.len() as int) =~= self.vars@);
        match stmt {
            Stmt::If { cond, then_block, else_block, .. } => {
                let cond_ty = self.check_expr(cond);
                if !cond_ty.compatible(&Type::Bool) {
                    let c = cond_ty.to_text();
                    let m = cat(&["`if` condition must be `Bool`, found `", c.as_str(), "`"]);
                    proof {
                        reveal_with_fuel(crate::text::joined, 4);
                    }
                    self.error("T0001", cond.span(), m);
                }
                self.check_block(&then_block.stmts);
                match else_block {
                    Some(b) => self.check_block(&b.stmts),
                    None => {},
                }
                assert(self.dv() =~= d0 + stmt_t(cx, v0, ret, *stmt).1);
            },
            _ => {},
        }
    }

    fn check_check_stmt(&mut self, stmt: &Stmt)
        requires
            old(self).inv(),
            *stmt is Check,
        ensures
            final(self).inv(),
            Self::frame(*old(self), *final(self)),
            Self::grows(*old(self), *final(self)),
            final(self).vs() == stmt_t(old(self).cx(), old(self).vs(), old(self).ret(), *stmt).0,
            final(self).dv() == old(self).dv() + stmt_t(old(self).cx(), old(self).vs(), old(self).ret(), *stmt).1,
        decreases stmt, 0int,
    {
        let ghost d0 = self.dv();
        let ghost cx = self.cx();
        let ghost v0 = self.vs();
        let ghost ret = self.ret();
        assert(self.vars@.subrange(0, self.vars@.len() as int) =~= self.vars@);
        match stmt {
            Stmt::Check { predicate, span, .. } => {
                let ty = self.check_expr(predicate);
                if !ty.compatible(&Type::Bool) {
                    let t = ty.to_text();
                    let m = cat(&["check predicate must be `Bool`, found `", t.as_str(), "`"]);
                    proof {
                        reveal_with_fuel(crate::text::joined, 4);
                    }
                    self.error("T0007", *span, m);
                }
                assert(self.dv() =~= d0 + stmt_t(cx, v0, ret, *stmt).1);
            },
            _ => {},
        }
    }

    fn require(&mut self, actual: &Type, expected: &Type, span: Span, what: &str)
        requires
            old(self).inv(),
        ensures
            final(self).inv(),
            Self::frame(*old(self), *final(self)),
            final(self).vars@ == old(self).vars@,
            final(self).marks@ == old(self).marks@,
            final(self).dv() == old(self).dv() + require_t(tview(*actual), tview(*expected), span, what@),
    {
        if !actual.compatible(expected) {
            let x = expected.to_text();
            let a = actual.to_text();
            let m = cat(&[what, " must be `", x.as_str(), "`, found `", a.as_str(), "`"]);
            proof {
                reveal_with_fuel(crate::text::joined, 7);
            }
            self.error("T0001", span, m);
            assert(self.dv() =~= old(self).dv() + require_t(tview(*actual), tview(*expected), span, what@));
        } else {
            assert(self.dv() =~= old(self).dv() + require_t(tview(*actual), tview(*expected), span, what@));
        }
    }
}

impl<'a> Checker<'a> {
    fn check_expr(&mut self, expr: &Expr) -> (r: Type)
        requires
            old(self).inv(),
        ensures
            final(self).inv(),
            Self::frame(*old(self), *final(self)),
            final(self).vars@ == old(self).vars@,
            final(self).marks@ == old(self).marks@,
            tview(r) == expr_t(old(self).cx(), old(self).vs(), *expr).0,
            final(self).dv() == old(self).dv() + expr_t(old(self).cx(), old(self).vs(), *expr).1,
        decreases expr, 3int,
    {
        let ghost d0 = self.dv();
        let ghost cx = self.cx();
        let ghost vs = self.vs();
        match expr {
            Expr::Literal(lit) => {
                assert(self.dv() =~= d0 + expr_t(cx, vs, *expr).1);
                match &lit.kind {
                    LiteralKind::Int(_) => Type::Int,
                    LiteralKind::Bool(_) => Type::Bool,
                    LiteralKind::Text(_) => Type::Text,
                }
            },
            Expr::Identifier { name, span } => self.check_identifier(name.as_str(), *span),
            Expr::Unary { op, operand, span } => {
                let ty = self.check_expr(operand);
                match op {
                    UnaryOp::Neg => {
                        self.require(&ty, &Type::Int, *span, "operand of `-`");
                        assert(self.dv() =~= d0 + expr_t(cx, vs, *expr).1);
                        Type::Int
                    },
                    UnaryOp::Not => {
                        self.require(&ty, &Type::Bool, *span, "operand of `!`");
                        assert(self.dv() =~= d0 + expr_t(cx, vs, *expr).1);
                        Type::Bool
                    },
                }
            },
            Expr::Binary { op, left, right, span } => {
                let lt = self.check_expr(left);
                let rt = self.check_expr(right);
                let r = self.check_binary(*op, &lt, &rt, *span);
                assert(self.dv() =~= d0 + expr_t(cx, vs, *expr).1);
                r
            },
            Expr::Call { callee, type_args, args, span } => {
                let arg_types = self.check_args(args);
                let r = self.check_call(callee, type_args, args, &arg_types, *span);
                assert(self.dv() =~= d0 + expr_t(cx, vs, *expr).1);
                r
            },
            Expr::Match { scrutinee, arms, span } => {
                let scrutinee_ty = self.check_expr(scrutinee);
                let r = self.check_match(&scrutinee_ty, arms, *span);
                assert(self.dv() =~= d0 + expr_t(cx, vs, *expr).1);
                r
            },
            Expr::Member { .. } => {
                assert(self.dv() =~= d0 + expr_t(cx, vs, *expr).1);
                Type::Error
            },
        }
    }

    fn check_args(&mut self, args: &Vec<Expr>) -> (r: Vec<Type>)
        requires
            old(self).inv(),
        ensures
            final(self).inv(),
            Self::frame(*old(self), *final(self)),
            final(self).vars@ == old(self).vars@,
            final(self).marks@ == old(self).marks@,
            r@.len() == args@.len(),
            tviews(r@) == args_t(old(self).cx(), old(self).vs(), args@).0,
            final(self).dv() == old(self).dv() + args_t(old(self).cx(), old(self).vs(), args@).1,
        decreases args, 2int,
    {
        let ghost d0 = self.dv();
        let ghost cx = self.cx();
        let ghost vs = self.vs();
        let mut out: Vec<Type> = Vec::new();
        let n = args.len();
        let mut i: usize = 0;
        assert(args@.subrange(0, 0) =~= Seq::<Expr>::empty());
        assert(self.dv() =~= d0 + args_t(cx, vs, args@.subrange(0, 0)).1);
        while i < n
            invariant
                n == args@.len(),
                i <= n,
                out@.len() == i,
                self.inv(),
                Self::frame(*old(self), *self),
                self.vars@ == old(self).vars@,
                self.marks@ == old(self).marks@,
                cx == self.cx(),
                vs == self.vs(),
                tviews(out@) == args_t(cx, vs, args@.subrange(0, i as int)).0,
                self.dv() == d0 + args_t(cx, vs, args@.subrange(0, i as int)).1,
            decreases n - i,
        {
            let ghost q = args@.subrange(0, i + 1);
            assert(q.subrange(0, i as int) =~= args@.subrange(0, i as int));
            let t = self.check_expr(&args[i]);
            let ghost before = out@;
            out.push(t);
            assert(out@.subrange(0, i as int) =~= before);
            assert(self.dv() =~= d0 + args_t(cx, vs, q).1);
            i = i + 1;
        }
        assert(args@.subrange(0, n as int) =~= args@);
        out
    }

    /// A name used as a value: a variable, a nullary constructor, or a pure
    /// top-level function.
    fn check_identifier(&mut self, name: &str, span: Span) -> (r: Type)
        requires
            old(self).inv(),
        ensures
            final(self).inv(),
            Self::frame(*old(self), *final(self)),
            final(self).vars@ == old(self).vars@,
            final(self).marks@ == old(self).marks@,
            tview(r) == identifier_t(old(self).cx(), old(self).vs(), name@, span).0,
            final(self).dv() == old(self).dv() + identifier_t(old(self).cx(), old(self).vs(), name@, span).1,
    {
        proof {
            reveal(identifier_t);
        }
        let ghost d0 = self.dv();
        let ghost cx = self.cx();
        match self.lookup(name) {
            Some(ty) => {
                assert(self.dv() =~= d0 + identifier_t(cx, self.vs(), name@, span).1);
                return ty;
            },
            None => {},
        }
        match find_ctor_in(&self.ctors, name) {
            Some(k) => {
                let d = self.ctor_decl(k);
                let arity = d.variants[self.ctors[k].variant].fields.len();
                let ngen = d.generics.len();
                let owner = copy_string(&d.name);
                if arity != 0 {
                    let a = usize_text(arity);
                    let m = cat(&["constructor `", name, "` expects ", a.as_str(), " argument(s), found 0"]);
                    proof {
                        reveal_with_fuel(crate::text::joined, 6);
                    }
                    self.error("T0004", span, m);
                } else {
                    assert(self.dv() =~= d0 + identifier_t(cx, self.vs(), name@, span).1);
                }
                let args = infer_list(ngen);
                return Type::Named { name: owner, args };
            },
            None => {},
        }
        match find_func_in(&self.funcs, name) {
            Some(k) => {
                let pure_fn = self.funcs[k].pure_fn;
                let fn_ty = Type::Fn { params: copy_types(&self.funcs[k].params), ret: Box::new(copy_type(&self.funcs[k].ret)) };
                if !pure_fn {
                    let m = cat(&["function `", name, "` performs effects, so it cannot be used as a value (only pure functions can)"]);
                    proof {
                        reveal_with_fuel(crate::text::joined, 4);
                    }
                    self.error("T0015", span, m);
                } else {
                    assert(self.dv() =~= d0 + identifier_t(cx, self.vs(), name@, span).1);
                }
                fn_ty
            },
            None => {
                let m = cat(&["unknown variable `", name, "`"]);
                proof {
                    reveal_with_fuel(crate::text::joined, 4);
                }
                self.error("T0002", span, m);
                Type::Error
            },
        }
    }

    fn check_binary(&mut self, op: BinaryOp, lt: &Type, rt: &Type, span: Span) -> (r: Type)
        requires
            old(self).inv(),
        ensures
            final(self).inv(),
            Self::frame(*old(self), *final(self)),
            final(self).vars@ == old(self).vars@,
            final(self).marks@ == old(self).marks@,
            tview(r) == binary_t(op, tview(*lt), tview(*rt), span).0,
            final(self).dv() == old(self).dv() + binary_t(op, tview(*lt), tview(*rt), span).1,
    {
        proof {
            reveal(binary_t);
        }
        let ghost d0 = self.dv();
        match op {
            BinaryOp::Add | BinaryOp::Sub | BinaryOp::Mul | BinaryOp::Div | BinaryOp::Rem => {
                self.require(lt, &Type::Int, span, "left operand");
                self.require(rt, &Type::Int, span, "right operand");
                assert(self.dv() =~= d0 + binary_t(op, tview(*lt), tview(*rt), span).1);
                Type::Int
            },
            BinaryOp::Lt | BinaryOp::Le | BinaryOp::Gt | BinaryOp::Ge => {
                self.require(lt, &Type::Int, span, "left operand");
                self.require(rt, &Type::Int, span, "right operand");
                assert(self.dv() =~= d0 + binary_t(op, tview(*lt), tview(*rt), span).1);
                Type::Bool
            },
            BinaryOp::Eq | BinaryOp::Ne => {
                let offender = match uncomparable_kind(lt) {
                    Some(k) => Some((k, lt)),
                    None => match uncomparable_kind(rt) {
                        Some(k) => Some((k, rt)),
                        None => None,
                    },
                };
                match offender {
                    Some((kind, ty)) => {
                        let t = ty.to_text();
                        let m = cat(&["cannot compare ", kind, ": `==`/`!=` has no defined semantics for `", t.as_str(), "`"]);
                        proof {
                            reveal_with_fuel(crate::text::joined, 6);
                        }
                        self.error("T0017", span, m);
                    },
                    None => {
                        if !lt.compatible(rt) {
                            let l = lt.to_text();
                            let r = rt.to_text();
                            let m = cat(&["cannot compare `", l.as_str(), "` with `", r.as_str(), "`: operands must have the same type"]);
                            proof {
                                reveal_with_fuel(crate::text::joined, 6);
                            }
                            self.error("T0001", span, m);
                        } else {
                            assert(self.dv() =~= d0 + binary_t(op, tview(*lt), tview(*rt), span).1);
                        }
                    },
                }
                Type::Bool
            },
            BinaryOp::And | BinaryOp::Or => {
                self.require(lt, &Type::Bool, span, "left operand");
                self.require(rt, &Type::Bool, span, "right operand");
                assert(self.dv() =~= d0 + binary_t(op, tview(*lt), tview(*rt), span).1);
                Type::Bool
            },
        }
    }

    /// Check a call's arguments against a parameter list: arity, then each
    /// argument's type.
    fn check_arg_types(&mut self, what: &str, params: &Vec<Type>, arg_types: &Vec<Type>, args: &Vec<Expr>, span: Span)
        requires
            old(self).inv(),
            arg_types@.len() == args@.len(),
        ensures
            final(self).inv(),
            Self::frame(*old(self), *final(self)),
            final(self).vars@ == old(self).vars@,
            final(self).marks@ == old(self).marks@,
            final(self).dv() == old(self).dv() + arg_types_t(what@, tviews(params@), tviews(arg_types@), args@, span),
    {
        proof {
            reveal(arg_types_t);
        }
        let ghost d0 = self.dv();
        proof {
            lemma_tviews(params@);
            lemma_tviews(arg_types@);
        }
        if arg_types.len() != params.len() {
            let p = usize_text(params.len());
            let a = usize_text(arg_types.len());
            let m = cat(&[what, " expects ", p.as_str(), " argument(s), found ", a.as_str()]);
            proof {
                reveal_with_fuel(crate::text::joined, 6);
            }
            self.error("T0004", span, m);
        }
        let ghost d1 = self.dv();
        self.check_arg_list(what, params, arg_types, args);
        assert(self.dv() =~= d0 + arg_types_t(what@, tviews(params@), tviews(arg_types@), args@, span));
    }

    fn check_arg_list(&mut self, what: &str, params: &Vec<Type>, arg_types: &Vec<Type>, args: &Vec<Expr>)
        requires
            old(self).inv(),
            arg_types@.len() == args@.len(),
        ensures
            final(self).inv(),
            Self::frame(*old(self), *final(self)),
            final(self).vars@ == old(self).vars@,
            final(self).marks@ == old(self).marks@,
            final(self).dv() == old(self).dv() + arg_list_t(
                what@,
                tviews(params@),
                tviews(arg_types@),
                args@,
                min_len(params@.len(), arg_types@.len()),
            ),
    {
        let ghost d0 = self.dv();
        let ghost ps = tviews(params@);
        let ghost ats = tviews(arg_types@);
        proof {
            lemma_tviews(params@);
            lemma_tviews(arg_types@);
        }
        let n = if params.len() < arg_types.len() { params.len() } else { arg_types.len() };
        let mut i: usize = 0;
        assert(self.dv() =~= d0 + arg_list_t(what@, ps, ats, args@, 0));
        while i < n
            invariant
                n <= params@.len(),
                n <= arg_types@.len(),
                n == min_len(params@.len(), arg_types@.len()),
                arg_types@.len() == args@.len(),
                i <= n,
                ps == tviews(params@),
                ats == tviews(arg_types@),
                forall|j: int| 0 <= j < params@.len() ==> #[trigger] ps[j] == tview(params@[j]),
                forall|j: int| 0 <= j < arg_types@.len() ==> #[trigger] ats[j] == tview(arg_types@[j]),
                self.inv(),
                Self::frame(*old(self), *self),
                self.vars@ == old(self).vars@,
                self.marks@ == old(self).marks@,
                self.dv() == d0 + arg_list_t(what@, ps, ats, args@, i as nat),
            decreases n - i,
        {
            if !params[i].compatible(&arg_types[i]) {
                let k = usize_text(i + 1);
                let p = params[i].to_text();
                let a = arg_types[i].to_text();
                let m = cat(&["argument ", k.as_str(), " to ", what, ": expected `", p.as_str(), "`, found `", a.as_str(), "`"]);
                proof {
                    reveal_with_fuel(crate::text::joined, 10);
                }
                self.error("T0001", args[i].span(), m);
            }
            assert(self.dv() =~= d0 + arg_list_t(what@, ps, ats, args@, (i + 1) as nat));
            i = i + 1;
        }
    }

    /// Type-check `grant<A>(cap)`: narrow a broader capability to authority
    /// `A` — valid from the root capability, or as an identity.
    fn check_grant(&mut self, type_args: &Vec<TypeExpr>, arg_types: &Vec<Type>, span: Span) -> (r: Type)
        requires
            old(self).inv(),
        ensures
            final(self).inv(),
            Self::frame(*old(self), *final(self)),
            final(self).vars@ == old(self).vars@,
            final(self).marks@ == old(self).marks@,
            tview(r) == grant_t(type_args@, tviews(arg_types@), span).0,
            final(self).dv() == old(self).dv() + grant_t(type_args@, tviews(arg_types@), span).1,
    {
        proof {
            reveal(grant_t);
        }
        let ghost d0 = self.dv();
        proof {
            lemma_tviews(arg_types@);
        }
        if type_args.len() != 1 {
            let k = usize_text(type_args.len());
            let m = cat(&["`grant` needs exactly one type argument, found ", k.as_str()]);
            proof {
                reveal_with_fuel(crate::text::joined, 3);
            }
            self.error("T0008", span, m);
            return Type::Error;
        }
        let target = type_args[0].name.as_str();
        if arg_types.len() != 1 {
            let k = usize_text(arg_types.len());
            let m = cat(&["`grant` expects 1 argument, found ", k.as_str()]);
            proof {
                reveal_with_fuel(crate::text::joined, 3);
            }
            self.error("T0004", span, m);
            return Type::Error;
        }
        match cap_authority(&arg_types[0]) {
            Some(source) => {
                if !(string_is(&source, "Root") || string_is(&source, target)) {
                    let m = cat(&["cannot narrow `Cap<", source.as_str(), ">` to `Cap<", target, ">`: authority can only be shed, not amplified"]);
                    proof {
                        reveal_with_fuel(crate::text::joined, 6);
                    }
                    self.error("T0009", span, m);
                } else {
                    assert(self.dv() =~= d0 + grant_t(type_args@, tviews(arg_types@), span).1);
                }
            },
            None => {
                let t = arg_types[0].to_text();
                let m = cat(&["`grant` requires a capability argument, found `", t.as_str(), "`"]);
                proof {
                    reveal_with_fuel(crate::text::joined, 4);
                }
                self.error("T0009", span, m);
            },
        }
        let mut args: Vec<Type> = Vec::new();
        args.push(Type::resolve(&type_args[0]));
        proof {
            lemma_tviews(args@);
            assert(tviews(args@) =~= seq![resolve_t(type_args@[0])]);
        }
        type_named("Cap", args)
    }

    /// Type-check `sanitize(x, is_valid)`: `Tainted<T>` and a validator
    /// `fn(T) -> Bool` give `Option<T>`.
    fn check_sanitize(&mut self, arg_types: &Vec<Type>, args: &Vec<Expr>, span: Span) -> (r: Type)
        requires
            old(self).inv(),
            arg_types@.len() == args@.len(),
        ensures
            final(self).inv(),
            Self::frame(*old(self), *final(self)),
            final(self).vars@ == old(self).vars@,
            final(self).marks@ == old(self).marks@,
            tview(r) == sanitize_t(tviews(arg_types@), args@, span).0,
            final(self).dv() == old(self).dv() + sanitize_t(tviews(arg_types@), args@, span).1,
    {
        proof {
            reveal(sanitize_t);
        }
        let ghost d0 = self.dv();
        proof {
            lemma_tviews(arg_types@);
        }
        if arg_types.len() != 2 {
            let k = usize_text(arg_types.len());
            let m = cat(&["`sanitize` expects 2 arguments (a `Tainted<T>` and a validator `fn(T) -> Bool`), found ", k.as_str()]);
            proof {
                reveal_with_fuel(crate::text::joined, 3);
            }
            self.error("T0004", span, m);
            return Type::Error;
        }
        let inner = match &arg_types[0] {
            Type::Named { name, args: targs } => {
                proof {
                    lemma_tviews(targs@);
                }
                if string_is(name, "Tainted") && targs.len() == 1 {
                    copy_type(&targs[0])
                } else {
                    copy_type(&arg_types[0])
                }
            },
            _ => copy_type(&arg_types[0]),
        };
        let mut vparams: Vec<Type> = Vec::new();
        vparams.push(copy_type(&inner));
        let ghost vp = vparams@;
        proof {
            lemma_tviews(vparams@);
            assert(tviews(vparams@) =~= seq![tview(inner)]);
        }
        let want = type_fn(vparams, Type::Bool);
        proof {
            let ats = tviews(arg_types@);
            let si = match ats[0] {
                Ty::Named(n, a) => if n == "Tainted"@ && a.len() == 1 {
                    a[0]
                } else {
                    ats[0]
                },
                _ => ats[0],
            };
            assert(tview(inner) == si);
            assert(tview(want) == Ty::Fn(seq![si], Box::new(Ty::Bool)));
        }
        if !arg_types[1].compatible(&want) {
            let w = want.to_text();
            let a = arg_types[1].to_text();
            let m = cat(&["argument 2 to `sanitize`: expected a validator `", w.as_str(), "`, found `", a.as_str(), "`"]);
            proof {
                reveal_with_fuel(crate::text::joined, 6);
            }
            self.error("T0001", args[1].span(), m);
        } else {
            assert(self.dv() =~= d0 + sanitize_t(tviews(arg_types@), args@, span).1);
        }
        let mut oargs: Vec<Type> = Vec::new();
        oargs.push(inner);
        proof {
            lemma_tviews(oargs@);
            assert(tviews(oargs@) =~= seq![tview(inner)]);
        }
        type_named("Option", oargs)
    }

    /// Type-check a call of a fixed built-in signature (`params -> ret`).
    fn check_builtin(&mut self, name: &str, params: &Vec<Type>, ret: Type, arg_types: &Vec<Type>, args: &Vec<Expr>, span: Span) -> (r: Type)
        requires
            old(self).inv(),
            arg_types@.len() == args@.len(),
        ensures
            final(self).inv(),
            Self::frame(*old(self), *final(self)),
            final(self).vars@ == old(self).vars@,
            final(self).marks@ == old(self).marks@,
            tview(r) == builtin_t(name@, tviews(params@), tview(ret), tviews(arg_types@), args@, span).0,
            final(self).dv() == old(self).dv() + builtin_t(name@, tviews(params@), tview(ret), tviews(arg_types@), args@, span).1,
    {
        proof {
            reveal(builtin_t);
        }
        let ghost d0 = self.dv();
        let ghost ps = tviews(params@);
        let ghost ats = tviews(arg_types@);
        proof {
            lemma_tviews(params@);
            lemma_tviews(arg_types@);
        }
        if arg_types.len() != params.len() {
            let p = usize_text(params.len());
            let a = usize_text(arg_types.len());
            let m = cat(&["`", name, "` expects ", p.as_str(), " argument(s), found ", a.as_str()]);
            proof {
                reveal_with_fuel(crate::text::joined, 7);
            }
            self.error("T0004", span, m);
            return ret;
        }
        let n = params.len();
        let mut i: usize = 0;
        assert(self.dv() =~= d0 + builtin_args_t(name@, ps, ats, args@, 0));
        while i < n
            invariant
                n == params@.len(),
                n == arg_types@.len(),
                arg_types@.len() == args@.len(),
                i <= n,
                ps == tviews(params@),
                ats == tviews(arg_types@),
                forall|j: int| 0 <= j < params@.len() ==> #[trigger] ps[j] == tview(params@[j]),
                forall|j: int| 0 <= j < arg_types@.len() ==> #[trigger] ats[j] == tview(arg_types@[j]),
                self.inv(),
                Self::frame(*old(self), *self),
                self.vars@ == old(self).vars@,
                self.marks@ == old(self).marks@,
                self.dv() == d0 + builtin_args_t(name@, ps, ats, args@, i as nat),
            decreases n - i,
        {
            if !arg_types[i].compatible(&params[i]) {
                let k = usize_text(i + 1);
                let x = params[i].to_text();
                let a = arg_types[i].to_text();
                let m = cat(&["argument ", k.as_str(), " to `", name, "`: expected `", x.as_str(), "`, found `", a.as_str(), "`"]);
                proof {
                    reveal_with_fuel(crate::text::joined, 10);
                }
                self.error("T0001", args[i].span(), m);
            }
            assert(self.dv() =~= d0 + builtin_args_t(name@, ps, ats, args@, (i + 1) as nat));
            i = i + 1;
        }
        ret
    }

    /// The signature of a text built-in, if `name` is one. There is no file
    /// or network built-in: a program has no ambient authority to reach.
    fn builtin_signature(name: &str) -> (r: Option<(Vec<Type>, Type)>)
        ensures
            match r {
                Some(sg) => builtin_sig_t(name@) == Some((tviews(sg.0@), tview(sg.1))),
                None => builtin_sig_t(name@) is None,
            },
    {
        let mut ps: Vec<Type> = Vec::new();
        if str_is(name, "concat") {
            ps.push(Type::Text);
            ps.push(Type::Text);
            proof { lemma_tviews(ps@); }
            assert(tviews(ps@) =~= seq![Ty::Text, Ty::Text]);
            Some((ps, Type::Text))
        } else if str_is(name, "text_len") {
            ps.push(Type::Text);
            proof { lemma_tviews(ps@); }
            assert(tviews(ps@) =~= seq![Ty::Text]);
            Some((ps, Type::Int))
        } else if str_is(name, "char_at") {
            ps.push(Type::Text);
            ps.push(Type::Int);
            proof { lemma_tviews(ps@); }
            assert(tviews(ps@) =~= seq![Ty::Text, Ty::Int]);
            Some((ps, Type::Text))
        } else if str_is(name, "substring") {
            ps.push(Type::Text);
            ps.push(Type::Int);
            ps.push(Type::Int);
            proof { lemma_tviews(ps@); }
            assert(tviews(ps@) =~= seq![Ty::Text, Ty::Int, Ty::Int]);
            Some((ps, Type::Text))
        } else if str_is(name, "char_code") {
            ps.push(Type::Text);
            proof { lemma_tviews(ps@); }
            assert(tviews(ps@) =~= seq![Ty::Text]);
            Some((ps, Type::Int))
        } else if str_is(name, "code_char") {
            ps.push(Type::Int);
            proof { lemma_tviews(ps@); }
            assert(tviews(ps@) =~= seq![Ty::Int]);
            Some((ps, Type::Text))
        } else {
            None
        }
    }

    /// A constructor call builds a value of its sum type; generic arguments
    /// are inferred from the payload.
    fn check_ctor_call(&mut self, name: &str, k: usize, arg_types: &Vec<Type>, args: &Vec<Expr>, span: Span) -> (r: Type)
        requires
            old(self).inv(),
            k < old(self).ctors@.len(),
            arg_types@.len() == args@.len(),
        ensures
            final(self).inv(),
            Self::frame(*old(self), *final(self)),
            final(self).vars@ == old(self).vars@,
            final(self).marks@ == old(self).marks@,
            tview(r) == ctor_call_t(old(self).cx(), name@, k as int, tviews(arg_types@), args@, span).0,
            final(self).dv() == old(self).dv() + ctor_call_t(old(self).cx(), name@, k as int, tviews(arg_types@), args@, span).1,
    {
        proof {
            reveal(ctor_call_t);
        }
        let ghost d0 = self.dv();
        let ghost cx = self.cx();
        let ghost ats = tviews(arg_types@);
        proof {
            lemma_tviews(arg_types@);
        }
        let d = self.ctor_decl(k);
        let owner = copy_string(&d.name);
        let generics = &d.generics;
        let fields = &d.variants[self.ctors[k].variant].fields;
        let ghost g = names_view(generics@);
        let arity = fields.len();
        if arg_types.len() != arity {
            let a = usize_text(arity);
            let f = usize_text(arg_types.len());
            let m = cat(&["constructor `", name, "` expects ", a.as_str(), " argument(s), found ", f.as_str()]);
            proof {
                reveal_with_fuel(crate::text::joined, 7);
            }
            self.error("T0004", span, m);
        }
        let ghost d1 = self.dv();
        let n = if arity < arg_types.len() { arity } else { arg_types.len() };
        let mut subst: Vec<Inferred> = Vec::new();
        let mut i: usize = 0;
        assert(fields@.subrange(0, 0) =~= Seq::<TypeExpr>::empty());
        assert(subst_view(subst@) =~= Seq::<(Seq<char>, Ty)>::empty());
        while i < n
            invariant
                n <= fields@.len(),
                n <= arg_types@.len(),
                i <= n,
                ats == tviews(arg_types@),
                forall|j: int| 0 <= j < arg_types@.len() ==> #[trigger] ats[j] == tview(arg_types@[j]),
                g == names_view(generics@),
                subst_view(subst@) == unify_all_t(fields@.subrange(0, i as int), ats, g, Seq::empty()),
            decreases n - i,
        {
            unify(&fields[i], &arg_types[i], generics, &mut subst);
            assert(fields@.subrange(0, i + 1).subrange(0, i as int) =~= fields@.subrange(0, i as int));
            i = i + 1;
        }
        let ghost sv = subst_view(subst@);
        let mut i: usize = 0;
        assert(self.dv() =~= d1 + ctor_args_t(name@, fields@, g, sv, ats, args@, 0));
        while i < n
            invariant
                n <= fields@.len(),
                n <= arg_types@.len(),
                arg_types@.len() == args@.len(),
                i <= n,
                ats == tviews(arg_types@),
                forall|j: int| 0 <= j < arg_types@.len() ==> #[trigger] ats[j] == tview(arg_types@[j]),
                g == names_view(generics@),
                sv == subst_view(subst@),
                self.inv(),
                Self::frame(*old(self), *self),
                self.vars@ == old(self).vars@,
                self.marks@ == old(self).marks@,
                self.dv() == d1 + ctor_args_t(name@, fields@, g, sv, ats, args@, i as nat),
            decreases n - i,
        {
            let expected = resolve_field(&fields[i], generics, &subst);
            if !expected.compatible(&arg_types[i]) {
                let j = usize_text(i + 1);
                let x = expected.to_text();
                let a = arg_types[i].to_text();
                let m = cat(&["constructor `", name, "` argument ", j.as_str(), ": expected `", x.as_str(), "`, found `", a.as_str(), "`"]);
                proof {
                    reveal_with_fuel(crate::text::joined, 10);
                }
                self.error("T0001", args[i].span(), m);
            }
            assert(self.dv() =~= d1 + ctor_args_t(name@, fields@, g, sv, ats, args@, (i + 1) as nat));
            i = i + 1;
        }
        let mut targs: Vec<Type> = Vec::new();
        let gn = generics.len();
        let mut i: usize = 0;
        while i < gn
            invariant
                gn == generics@.len(),
                i <= gn,
                g == names_view(generics@),
                sv == subst_view(subst@),
                tviews(targs@) == targs_t(g, sv).subrange(0, i as int),
                targs@.len() == i,
            decreases gn - i,
        {
            let t = match subst_get(&subst, generics[i].as_str()) {
                Some(t) => t,
                None => Type::Infer,
            };
            let ghost before = targs@;
            let ghost tt = t;
            targs.push(t);
            proof {
                lemma_tviews_push(before, tt);
                assert(g[i as int] == generics@[i as int]@);
                assert(tviews(targs@) =~= targs_t(g, sv).subrange(0, i + 1));
            }
            i = i + 1;
        }
        assert(targs_t(g, sv).subrange(0, gn as int) =~= targs_t(g, sv));
        assert(self.dv() =~= d0 + ctor_call_t(cx, name@, k as int, ats, args@, span).1);
        Type::Named { name: owner, args: targs }
    }

    fn check_call(&mut self, callee: &Expr, type_args: &Vec<TypeExpr>, args: &Vec<Expr>, arg_types: &Vec<Type>, span: Span) -> (r: Type)
        requires
            old(self).inv(),
            arg_types@.len() == args@.len(),
        ensures
            final(self).inv(),
            Self::frame(*old(self), *final(self)),
            final(self).vars@ == old(self).vars@,
            final(self).marks@ == old(self).marks@,
            tview(r) == call_t(old(self).cx(), old(self).vs(), *callee, type_args@, args@, tviews(arg_types@), span).0,
            final(self).dv() == old(self).dv() + call_t(old(self).cx(), old(self).vs(), *callee, type_args@, args@, tviews(arg_types@), span).1,
    {
        proof {
            reveal(call_t);
            reveal(call_named_t);
        }
        let ghost d0 = self.dv();
        let ghost cx = self.cx();
        let ghost vs = self.vs();
        let ghost ats = tviews(arg_types@);
        let name = match callee {
            Expr::Identifier { name, .. } => name.as_str(),
            Expr::Member { .. } => {
                assert(self.dv() =~= d0 + call_t(cx, vs, *callee, type_args@, args@, ats, span).1);
                return Type::Error;
            },
            _ => {
                self.error("T0003", span, owned("only named functions can be called"));
                return Type::Error;
            },
        };
        let quoted = cat(&["`", name, "`"]);
        proof {
            reveal_with_fuel(crate::text::joined, 4);
        }
        // A higher-order call through a local holding a function value.
        match self.lookup(name) {
            Some(ty) => {
                return match ty {
                    Type::Fn { params, ret } => {
                        self.check_arg_types(quoted.as_str(), &params, arg_types, args, span);
                        *ret
                    },
                    other => {
                        let t = other.to_text();
                        let m = cat(&["`", name, "` is not a function (it has type `", t.as_str(), "`) and cannot be called"]);
                        proof {
                            reveal_with_fuel(crate::text::joined, 6);
                        }
                        self.error("T0003", span, m);
                        Type::Error
                    },
                };
            },
            None => {},
        }
        let r = self.check_global_call(name, type_args, args, arg_types, span);
        assert(self.dv() =~= d0 + call_t(cx, vs, *callee, type_args@, args@, ats, span).1);
        r
    }

    fn check_global_call(&mut self, name: &str, type_args: &Vec<TypeExpr>, args: &Vec<Expr>, arg_types: &Vec<Type>, span: Span) -> (r: Type)
        requires
            old(self).inv(),
            arg_types@.len() == args@.len(),
        ensures
            final(self).inv(),
            Self::frame(*old(self), *final(self)),
            final(self).vars@ == old(self).vars@,
            final(self).marks@ == old(self).marks@,
            tview(r) == global_call_t(old(self).cx(), name@, type_args@, args@, tviews(arg_types@), span).0,
            final(self).dv() == old(self).dv() + global_call_t(old(self).cx(), name@, type_args@, args@, tviews(arg_types@), span).1,
    {
        proof {
            reveal(global_call_t);
        }
        let ghost d0 = self.dv();
        let ghost cx = self.cx();
        let ghost ats = tviews(arg_types@);
        proof {
            lemma_tviews(arg_types@);
        }
        let quoted = cat(&["`", name, "`"]);
        proof {
            reveal_with_fuel(crate::text::joined, 4);
        }
        if str_is(name, "grant") {
            return self.check_grant(type_args, arg_types, span);
        }
        if str_is(name, "sanitize") {
            return self.check_sanitize(arg_types, args, span);
        }
        let user_fn = find_func_in(&self.funcs, name);
        if user_fn.is_none() {
            match Self::builtin_signature(name) {
                Some((params, ret)) => {
                    return self.check_builtin(name, &params, ret, arg_types, args, span);
                },
                None => {},
            }
        }
        match find_ctor_in(&self.ctors, name) {
            Some(k) => {
                return self.check_ctor_call(name, k, arg_types, args, span);
            },
            None => {},
        }
        if str_is(name, "print") && user_fn.is_none() {
            if arg_types.len() != 1 {
                let k = usize_text(arg_types.len());
                let m = cat(&["`print` expects 1 argument, found ", k.as_str()]);
                proof {
                    reveal_with_fuel(crate::text::joined, 3);
                }
                self.error("T0004", span, m);
            } else {
                assert(self.dv() =~= d0 + global_call_t(cx, name@, type_args@, args@, ats, span).1);
            }
            return Type::Unit;
        }
        match user_fn {
            Some(k) => {
                let params = copy_types(&self.funcs[k].params);
                let ret = copy_type(&self.funcs[k].ret);
                proof {
                    lemma_tviews(params@);
                    lemma_tviews(self.funcs@[k as int].params@);
                }
                if arg_types.len() != params.len() {
                    let p = usize_text(params.len());
                    let a = usize_text(arg_types.len());
                    let m = cat(&["function `", name, "` expects ", p.as_str(), " argument(s), found ", a.as_str()]);
                    proof {
                        reveal_with_fuel(crate::text::joined, 7);
                        lemma_tviews(params@);
                    }
                    self.error("T0004", span, m);
                }
                self.check_arg_list(quoted.as_str(), &params, arg_types, args);
                assert(self.dv() =~= d0 + global_call_t(cx, name@, type_args@, args@, ats, span).1);
                ret
            },
            None => {
                let m = cat(&["unknown function `", name, "`"]);
                proof {
                    reveal_with_fuel(crate::text::joined, 4);
                }
                self.error("T0003", span, m);
                Type::Error
            },
        }
    }
}

impl<'a> Checker<'a> {
    /// Type-check a `match`: the arm bodies must agree on a type, and a match
    /// on a sum type without a catch-all must cover every variant.
    fn check_match(&mut self, scrutinee_ty: &Type, arms: &Vec<MatchArm>, span: Span) -> (r: Type)
        requires
            old(self).inv(),
        ensures
            final(self).inv(),
            Self::frame(*old(self), *final(self)),
            final(self).vars@ == old(self).vars@,
            final(self).marks@ == old(self).marks@,
            tview(r) == match_t(old(self).cx(), old(self).vs(), tview(*scrutinee_ty), arms@, span).0,
            final(self).dv() == old(self).dv() + match_t(old(self).cx(), old(self).vs(), tview(*scrutinee_ty), arms@, span).1,
        decreases arms, 2int,
    {
        let ghost d0 = self.dv();
        let ghost cx = self.cx();
        let ghost vs = self.vs();
        let ghost st = tview(*scrutinee_ty);
        let sum = match scrutinee_ty {
            Type::Named { name, .. } => self.find_sum(name.as_str()),
            _ => None,
        };
        let mut covered: Vec<String> = Vec::new();
        let mut has_catch_all = false;
        let mut result_ty: Option<Type> = None;
        let n = arms.len();
        let mut i: usize = 0;
        assert(arms@.subrange(0, 0) =~= Seq::<MatchArm>::empty());
        assert(names_view(covered@) =~= Seq::<Seq<char>>::empty());
        assert(self.dv() =~= d0 + arms_t(cx, vs, st, arms@.subrange(0, 0)).3);
        while i < n
            invariant
                n == arms@.len(),
                i <= n,
                self.inv(),
                Self::frame(*old(self), *self),
                self.vars@ == old(self).vars@,
                self.marks@ == old(self).marks@,
                cx == self.cx(),
                vs == self.vs(),
                st == tview(*scrutinee_ty),
                names_view(covered@) == arms_t(cx, vs, st, arms@.subrange(0, i as int)).0,
                has_catch_all == arms_t(cx, vs, st, arms@.subrange(0, i as int)).1,
                match result_ty {
                    Some(t) => arms_t(cx, vs, st, arms@.subrange(0, i as int)).2 == Some(tview(t)),
                    None => arms_t(cx, vs, st, arms@.subrange(0, i as int)).2 is None,
                },
                self.dv() == d0 + arms_t(cx, vs, st, arms@.subrange(0, i as int)).3,
            decreases n - i,
        {
            let ghost q = arms@.subrange(0, i + 1);
            assert(q.subrange(0, i as int) =~= arms@.subrange(0, i as int));
            let arm = &arms[i];
            let body_ty = self.check_arm(arm, scrutinee_ty, &mut covered, &mut has_catch_all);
            match result_ty {
                None => {
                    result_ty = Some(body_ty);
                },
                Some(prev) => {
                    if !prev.compatible(&body_ty) {
                        let p = prev.to_text();
                        let b = body_ty.to_text();
                        let m = cat(&["match arms have mismatched types: `", p.as_str(), "` vs `", b.as_str(), "`"]);
                        proof {
                            reveal_with_fuel(crate::text::joined, 6);
                        }
                        self.error("T0001", arm.body.span(), m);
                    }
                    result_ty = Some(prev);
                },
            }
            assert(self.dv() =~= d0 + arms_t(cx, vs, st, q).3);
            i = i + 1;
        }
        assert(arms@.subrange(0, n as int) =~= arms@);
        let ghost d1 = self.dv();
        let ghost cov = names_view(covered@);
        match sum {
            Some(k) => {
                if !has_catch_all && k < self.sums.len() {
                    let mut missing = String::new();
                    let mut count: usize = 0;
                    let variants = &self.sums[k].variants;
                    let ghost vn = names_view(variants@);
                    let m = variants.len();
                    let mut j: usize = 0;
                    assert(vn.subrange(0, 0) =~= Seq::<Seq<char>>::empty());
                    while j < m
                        invariant
                            m == variants@.len(),
                            vn == names_view(variants@),
                            j <= m,
                            count <= j,
                            cov == names_view(covered@),
                            count == missing_t(vn.subrange(0, j as int), cov).len(),
                            missing@ == missing_text(missing_t(vn.subrange(0, j as int), cov)),
                        decreases m - j,
                    {
                        let ghost pre = vn.subrange(0, j as int);
                        assert(vn.subrange(0, j + 1).drop_last() =~= pre);
                        if !contains_str(&covered, variants[j].as_str()) {
                            let ghost ms = missing_t(pre, cov);
                            if count > 0 {
                                push_str(&mut missing, ", `");
                            } else {
                                push_str(&mut missing, "`");
                            }
                            push_str(&mut missing, variants[j].as_str());
                            push_str(&mut missing, "`");
                            proof {
                                let ms2 = missing_t(vn.subrange(0, j + 1), cov);
                                assert(vn[j as int] == variants@[j as int]@);
                                assert(ms2 =~= ms.push(vn[j as int]));
                                assert(ms2.drop_last() =~= ms);
                                if count > 0 {
                                    assert(missing_text(ms2) == missing_text(ms) + ", `"@ + vn[j as int] + "`"@);
                                } else {
                                    assert(missing_text(ms2) == "`"@ + vn[j as int] + "`"@);
                                }
                                assert(missing@ =~= missing_text(ms2));
                            }
                            count = count + 1;
                        } else {
                            assert(missing_t(vn.subrange(0, j + 1), cov) =~= missing_t(pre, cov));
                        }
                        j = j + 1;
                    }
                    assert(vn.subrange(0, m as int) =~= vn);
                    if count > 0 {
                        let sname = copy_string(&self.sums[k].name);
                        let msg = cat(&["non-exhaustive match on `", sname.as_str(), "`: missing ", missing.as_str()]);
                        proof {
                            reveal_with_fuel(crate::text::joined, 5);
                        }
                        self.error("T0006", span, msg);
                    }
                }
            },
            None => {},
        }
        assert(self.dv() =~= d0 + match_t(cx, vs, st, arms@, span).1);
        match result_ty {
            Some(t) => t,
            None => Type::Error,
        }
    }

    /// One arm: its binders, what its pattern covers, and its body in the
    /// scope of the pattern's variables.
    fn check_arm(&mut self, arm: &MatchArm, scrutinee_ty: &Type, covered: &mut Vec<String>, has_catch_all: &mut bool) -> (r: Type)
        requires
            old(self).inv(),
        ensures
            final(self).inv(),
            Self::frame(*old(self), *final(self)),
            final(self).vars@ == old(self).vars@,
            final(self).marks@ == old(self).marks@,
            names_view(final(covered)@) == names_view(old(covered)@) + arm_t(old(self).cx(), old(self).vs(), tview(*scrutinee_ty), *arm).0,
            *final(has_catch_all) == (*old(has_catch_all) || arm_t(old(self).cx(), old(self).vs(), tview(*scrutinee_ty), *arm).1),
            tview(r) == arm_t(old(self).cx(), old(self).vs(), tview(*scrutinee_ty), *arm).2,
            final(self).dv() == old(self).dv() + arm_t(old(self).cx(), old(self).vs(), tview(*scrutinee_ty), *arm).3,
        decreases arm, 0int,
    {
        let ghost d0 = self.dv();
        self.push_scope();
        let ghost pushed = *self;
        let mut binders: Vec<String> = Vec::new();
        assert(names_view(binders@) =~= Seq::<Seq<char>>::empty());
        self.check_pattern_binders(&arm.pattern, &mut binders);
        self.collect_pattern(&arm.pattern, scrutinee_ty, covered, has_catch_all);
        let body_ty = self.check_expr(&arm.body);
        self.pop_scope();
        proof {
            assert(pushed.vars@.subrange(0, pushed.vars@.len() as int) =~= pushed.vars@);
            assert(self.vars@ =~= old(self).vars@);
            assert(self.marks@ =~= old(self).marks@);
        }
        assert(self.dv() =~= d0 + arm_t(old(self).cx(), old(self).vs(), tview(*scrutinee_ty), *arm).3);
        body_ty
    }

    /// A binder name appearing twice in one pattern is refused (`T0013`).
    fn check_pattern_binders(&mut self, pattern: &Pattern, seen: &mut Vec<String>)
        requires
            old(self).inv(),
        ensures
            final(self).inv(),
            Self::frame(*old(self), *final(self)),
            final(self).vars@ == old(self).vars@,
            final(self).marks@ == old(self).marks@,
            names_view(final(seen)@) == binders_t(old(self).cx(), *pattern, names_view(old(seen)@)).0,
            final(self).dv() == old(self).dv() + binders_t(old(self).cx(), *pattern, names_view(old(seen)@)).1,
        decreases pattern, 1int,
    {
        let ghost d0 = self.dv();
        match pattern {
            Pattern::Wildcard { .. } => {
                assert(self.dv() =~= d0 + binders_t(self.cx(), *pattern, names_view(seen@)).1);
            },
            Pattern::Ident { name, span } => {
                if !self.is_ctor(name.as_str()) {
                    if contains_str(seen, name.as_str()) {
                        let m = cat(&["binding `", name.as_str(), "` appears more than once in this pattern"]);
                        proof {
                            reveal_with_fuel(crate::text::joined, 4);
                        }
                        self.error("T0013", *span, m);
                    } else {
                        let ghost before = seen@;
                        seen.push(copy_string(name));
                        assert(names_view(seen@) =~= names_view(before).push(name@));
                        assert(self.dv() =~= d0 + binders_t(self.cx(), *pattern, names_view(before)).1);
                    }
                } else {
                    assert(self.dv() =~= d0 + binders_t(self.cx(), *pattern, names_view(seen@)).1);
                }
            },
            Pattern::Variant { args, .. } => self.check_binders_list(args, seen),
        }
    }

    fn check_binders_list(&mut self, args: &Vec<Pattern>, seen: &mut Vec<String>)
        requires
            old(self).inv(),
        ensures
            final(self).inv(),
            Self::frame(*old(self), *final(self)),
            final(self).vars@ == old(self).vars@,
            final(self).marks@ == old(self).marks@,
            names_view(final(seen)@) == binders_list_t(old(self).cx(), args@, names_view(old(seen)@)).0,
            final(self).dv() == old(self).dv() + binders_list_t(old(self).cx(), args@, names_view(old(seen)@)).1,
        decreases args, 0int,
    {
        let ghost d0 = self.dv();
        let ghost cx = self.cx();
        let ghost s0 = names_view(seen@);
        let n = args.len();
        let mut i: usize = 0;
        assert(args@.subrange(0, 0) =~= Seq::<Pattern>::empty());
        assert(self.dv() =~= d0 + binders_list_t(cx, args@.subrange(0, 0), s0).1);
        while i < n
            invariant
                n == args@.len(),
                i <= n,
                self.inv(),
                Self::frame(*old(self), *self),
                self.vars@ == old(self).vars@,
                self.marks@ == old(self).marks@,
                cx == self.cx(),
                names_view(seen@) == binders_list_t(cx, args@.subrange(0, i as int), s0).0,
                self.dv() == d0 + binders_list_t(cx, args@.subrange(0, i as int), s0).1,
            decreases n - i,
        {
            let ghost q = args@.subrange(0, i + 1);
            assert(q.subrange(0, i as int) =~= args@.subrange(0, i as int));
            self.check_pattern_binders(&args[i], seen);
            assert(self.dv() =~= d0 + binders_list_t(cx, q, s0).1);
            i = i + 1;
        }
        assert(args@.subrange(0, n as int) =~= args@);
    }

    /// Whether a variant pattern owned by `owner` may match a value of
    /// `scrutinee_ty`; otherwise `T0012`.
    fn variant_matches_scrutinee(&mut self, owner: &str, scrutinee_ty: &Type, pattern_name: &str, span: Span) -> (r: bool)
        requires
            old(self).inv(),
        ensures
            final(self).inv(),
            Self::frame(*old(self), *final(self)),
            final(self).vars@ == old(self).vars@,
            final(self).marks@ == old(self).marks@,
            r == variant_ok_t(owner@, tview(*scrutinee_ty), pattern_name@, span).0,
            final(self).dv() == old(self).dv() + variant_ok_t(owner@, tview(*scrutinee_ty), pattern_name@, span).1,
    {
        proof {
            reveal(variant_ok_t);
        }
        let ghost d0 = self.dv();
        match scrutinee_ty {
            Type::Named { name, .. } => {
                if string_is(name, owner) {
                    assert(self.dv() =~= d0 + variant_ok_t(owner@, tview(*scrutinee_ty), pattern_name@, span).1);
                    return true;
                }
            },
            Type::Error | Type::Infer => {
                assert(self.dv() =~= d0 + variant_ok_t(owner@, tview(*scrutinee_ty), pattern_name@, span).1);
                return true;
            },
            _ => {},
        }
        let t = scrutinee_ty.to_text();
        let m = cat(&["pattern `", pattern_name, "` belongs to type `", owner, "`, but the matched value has type `", t.as_str(), "`"]);
        proof {
            reveal_with_fuel(crate::text::joined, 8);
        }
        self.error("T0012", span, m);
        false
    }

    /// Record which variants an arm's pattern covers, binding its variables.
    fn collect_pattern(&mut self, pattern: &Pattern, scrutinee_ty: &Type, covered: &mut Vec<String>, has_catch_all: &mut bool)
        requires
            old(self).inv(),
        ensures
            final(self).inv(),
            Self::frame(*old(self), *final(self)),
            Self::grows(*old(self), *final(self)),
            names_view(final(covered)@) == names_view(old(covered)@) + collect_t(old(self).cx(), *pattern, tview(*scrutinee_ty), old(self).vs()).0,
            *final(has_catch_all) == (*old(has_catch_all) || collect_t(old(self).cx(), *pattern, tview(*scrutinee_ty), old(self).vs()).1),
            final(self).vs() == collect_t(old(self).cx(), *pattern, tview(*scrutinee_ty), old(self).vs()).2,
            final(self).dv() == old(self).dv() + collect_t(old(self).cx(), *pattern, tview(*scrutinee_ty), old(self).vs()).3,
    {
        proof {
            reveal(collect_t);
        }
        let ghost d0 = self.dv();
        let ghost c0 = names_view(covered@);
        assert(self.vars@.subrange(0, self.vars@.len() as int) =~= self.vars@);
        match pattern {
            Pattern::Wildcard { .. } => {
                *has_catch_all = true;
                assert(names_view(covered@) =~= c0 + Seq::<Seq<char>>::empty());
                assert(self.dv() =~= d0 + Seq::<Diag>::empty());
            },
            Pattern::Ident { name, span } => {
                match find_ctor_in(&self.ctors, name.as_str()) {
                    Some(k) => {
                        let d = self.ctor_decl(k);
                        let owner = copy_string(&d.name);
                        if self.variant_matches_scrutinee(owner.as_str(), scrutinee_ty, name.as_str(), *span) {
                            covered.push(copy_string(name));
                            assert(names_view(covered@) =~= c0 + seq![name@]);
                        } else {
                            assert(names_view(covered@) =~= c0 + Seq::<Seq<char>>::empty());
                        }
                    },
                    None => {
                        *has_catch_all = true;
                        let ghost vb = self.vars@;
                        self.bind(copy_string(name), copy_type(scrutinee_ty));
                        assert(self.vars@.subrange(0, vb.len() as int) =~= vb);
                        assert(names_view(covered@) =~= c0 + Seq::<Seq<char>>::empty());
                        assert(self.dv() =~= d0 + Seq::<Diag>::empty());
                    },
                }
            },
            Pattern::Variant { name, args, span } => {
                match find_ctor_in(&self.ctors, name.as_str()) {
                    Some(k) => {
                        let d = self.ctor_decl(k);
                        let owner = copy_string(&d.name);
                        if self.variant_matches_scrutinee(owner.as_str(), scrutinee_ty, name.as_str(), *span) {
                            covered.push(copy_string(name));
                            assert(names_view(covered@) =~= c0 + seq![name@]);
                            let field_types = self.ctor_field_types(k, scrutinee_ty);
                            self.bind_subpatterns(args, &field_types);
                        } else {
                            assert(names_view(covered@) =~= c0 + Seq::<Seq<char>>::empty());
                            self.bind_all_error(args);
                        }
                    },
                    None => {
                        assert(names_view(covered@) =~= c0 + Seq::<Seq<char>>::empty());
                        self.bind_all_error(args);
                        assert(self.dv() =~= d0 + Seq::<Diag>::empty());
                    },
                }
            },
        }
    }

    /// The field types of constructor `k`, instantiated against `ty`.
    fn ctor_field_types(&self, k: usize, ty: &Type) -> (r: Vec<Type>)
        requires
            self.inv(),
        ensures
            tviews(r@) == ctor_fields_t(self.cx(), k as int, tview(*ty)),
    {
        if k < self.ctors.len() {
            let d = self.ctor_decl(k);
            instantiate_fields(d.name.as_str(), &d.generics, &d.variants[self.ctors[k].variant].fields, ty)
        } else {
            let r: Vec<Type> = Vec::new();
            assert(tviews(r@) =~= Seq::<Ty>::empty());
            r
        }
    }

    fn bind_all_error(&mut self, args: &Vec<Pattern>)
        requires
            old(self).inv(),
        ensures
            final(self).inv(),
            Self::frame(*old(self), *final(self)),
            Self::grows(*old(self), *final(self)),
            final(self).vs() == bind_sub_t(old(self).cx(), args@, Seq::empty(), old(self).vs()),
            final(self).diagnostics == old(self).diagnostics,
        decreases args, 1int,
    {
        let none: Vec<Type> = Vec::new();
        assert(tviews(none@) =~= Seq::<Ty>::empty());
        self.bind_subpatterns(args, &none);
    }

    /// Bind each sub-pattern to its field type (`Error` beyond the arity).
    fn bind_subpatterns(&mut self, args: &Vec<Pattern>, field_types: &Vec<Type>)
        requires
            old(self).inv(),
        ensures
            final(self).inv(),
            Self::frame(*old(self), *final(self)),
            Self::grows(*old(self), *final(self)),
            final(self).vs() == bind_sub_t(old(self).cx(), args@, tviews(field_types@), old(self).vs()),
            final(self).diagnostics == old(self).diagnostics,
        decreases args, 0int,
    {
        let ghost cx = self.cx();
        let ghost v0 = self.vs();
        let ghost fts = tviews(field_types@);
        proof {
            lemma_tviews(field_types@);
        }
        let n = args.len();
        let mut i: usize = 0;
        assert(args@.subrange(0, 0) =~= Seq::<Pattern>::empty());
        assert(self.vars@.subrange(0, self.vars@.len() as int) =~= self.vars@);
        while i < n
            invariant
                n == args@.len(),
                i <= n,
                self.inv(),
                Self::frame(*old(self), *self),
                Self::grows(*old(self), *self),
                self.diagnostics == old(self).diagnostics,
                cx == self.cx(),
                fts == tviews(field_types@),
                fts.len() == field_types@.len(),
                forall|j: int| 0 <= j < field_types@.len() ==> #[trigger] fts[j] == tview(field_types@[j]),
                self.vs() == bind_sub_t(cx, args@.subrange(0, i as int), fts, v0),
            decreases n - i,
        {
            let ghost q = args@.subrange(0, i + 1);
            assert(q.subrange(0, i as int) =~= args@.subrange(0, i as int));
            let ghost before = *self;
            if i < field_types.len() {
                self.bind_pattern(&args[i], &field_types[i]);
            } else {
                self.bind_pattern(&args[i], &Type::Error);
            }
            assert(self.vars@.subrange(0, old(self).vars@.len() as int) =~= before.vars@.subrange(0, old(self).vars@.len() as int));
            i = i + 1;
        }
        assert(args@.subrange(0, n as int) =~= args@);
    }

    /// Bind every variable a pattern introduces at its expected type.
    fn bind_pattern(&mut self, pattern: &Pattern, expected: &Type)
        requires
            old(self).inv(),
        ensures
            final(self).inv(),
            Self::frame(*old(self), *final(self)),
            Self::grows(*old(self), *final(self)),
            final(self).vs() == bind_pattern_t(old(self).cx(), *pattern, tview(*expected), old(self).vs()),
            final(self).diagnostics == old(self).diagnostics,
        decreases pattern, 1int,
    {
        assert(self.vars@.subrange(0, self.vars@.len() as int) =~= self.vars@);
        match pattern {
            Pattern::Wildcard { .. } => {},
            Pattern::Ident { name, .. } => {
                if !self.is_ctor(name.as_str()) {
                    let ghost vb = self.vars@;
                    self.bind(copy_string(name), copy_type(expected));
                    assert(self.vars@.subrange(0, vb.len() as int) =~= vb);
                }
            },
            Pattern::Variant { name, args, .. } => {
                match find_ctor_in(&self.ctors, name.as_str()) {
                    Some(k) => {
                        let field_types = self.ctor_field_types(k, expected);
                        self.bind_subpatterns(args, &field_types);
                    },
                    None => self.bind_all_error(args),
                }
            },
        }
    }
}

/// Type-check a module: its duplicate-name and `main`-signature errors, then
/// what checking each function reports, in order. None means the module is
/// well-typed.
pub fn check_types(module: &Module) -> (r: Vec<Diagnostic>)
    ensures
        type_errors(r@),
        errors_as(
            r@,
            dup_diags(module.items@, module.items@) + main_diags(module.items@) + functions_t(tcx_of(module.items@), module.items@),
        ),
{
    let items = &module.items;
    let mut diags = check_duplicate_names(items);
    let mut more = check_main_signature(items);
    let ghost a = diags@;
    let ghost b = more@;
    diags.append(&mut more);
    proof {
        lemma_errors_append(a, dup_diags(items@, items@), b, main_diags(items@));
    }
    let ghost head = diags@;
    let mut checker = Checker::new(items);
    let ghost cx = checker.cx();
    let n = items.len();
    let mut i: usize = 0;
    assert(items@.subrange(0, 0) =~= Seq::<Item>::empty());
    assert(checker.dv() =~= functions_t(cx, items@.subrange(0, 0)));
    while i < n
        invariant
            n == items@.len(),
            i <= n,
            checker.inv(),
            checker.items == items,
            cx == checker.cx(),
            cx == tcx_of(items@),
            checker.dv() == functions_t(cx, items@.subrange(0, i as int)),
        decreases n - i,
    {
        let ghost q = items@.subrange(0, i + 1);
        assert(q.drop_last() =~= items@.subrange(0, i as int));
        match &items[i] {
            Item::Function(f) => checker.check_function(f),
            Item::Type(_) => {},
        }
        i = i + 1;
    }
    assert(items@.subrange(0, n as int) =~= items@);
    let ghost tail = checker.diagnostics@;
    diags.append(&mut checker.diagnostics);
    proof {
        let spec_head = dup_diags(items@, items@) + main_diags(items@);
        assert(type_errors(head)) by {
            assert forall|k: int| 0 <= k < head.len() implies {
                &&& (#[trigger] head[k]).severity == Severity::Error
                &&& head[k].blame is None
                &&& is_type_code(head[k].code@)
            } by {
                assert(head[k]@ == spec_head[k]);
                lemma_dup_main_codes(items@, k);
            }
        }
        lemma_type_errors_append(head, tail);
        assert forall|k: int| 0 <= k < tail.len() implies {
            &&& #[trigger] tail[k]@ == functions_t(cx, items@)[k]
            &&& tail[k].severity == Severity::Error
            &&& tail[k].blame is None
        } by {
            assert(diags_view(tail)[k] == tail[k]@);
        }
        lemma_errors_append(head, spec_head, tail, functions_t(cx, items@));
    }
    diags
}

/// Every duplicate-name or `main` diagnostic has a type code.
proof fn lemma_dup_main_codes(items: Seq<Item>, k: int)
    requires
        0 <= k < (dup_diags(items, items) + main_diags(items)).len(),
    ensures
        is_type_code((dup_diags(items, items) + main_diags(items))[k].0),
{
    lemma_dup_codes(items, items);
    lemma_main_codes(items);
    let s = dup_diags(items, items) + main_diags(items);
    if k < dup_diags(items, items).len() {
        assert(s[k] == dup_diags(items, items)[k]);
    } else {
        assert(s[k] == main_diags(items)[k - dup_diags(items, items).len()]);
    }
}

proof fn lemma_dup_codes(all: Seq<Item>, fs: Seq<Item>)
    ensures
        forall|k: int| 0 <= k < dup_diags(all, fs).len() ==> is_type_code(#[trigger] dup_diags(all, fs)[k].0),
    decreases fs.len(),
{
    if fs.len() > 0 {
        lemma_dup_codes(all, fs.drop_last());
        match fs.last() {
            Item::Type(d) => lemma_variant_dup_codes(all_variant_names(fs.drop_last()), d.variants@),
            _ => {},
        }
        let prev = dup_diags(all, fs.drop_last());
        let cur = dup_diags(all, fs);
        assert forall|k: int| 0 <= k < cur.len() implies is_type_code(#[trigger] cur[k].0) by {
            if k < prev.len() {
                assert(cur[k] == prev[k]);
            }
        }
    }
}

proof fn lemma_variant_dup_codes(seen: Seq<Seq<char>>, vs: Seq<Variant>)
    ensures
        forall|k: int| 0 <= k < variant_dups(seen, vs).len() ==> is_type_code(#[trigger] variant_dups(seen, vs)[k].0),
    decreases vs.len(),
{
    if vs.len() > 0 {
        lemma_variant_dup_codes(seen, vs.drop_last());
        let prev = variant_dups(seen, vs.drop_last());
        let cur = variant_dups(seen, vs);
        assert forall|k: int| 0 <= k < cur.len() implies is_type_code(#[trigger] cur[k].0) by {
            if k < prev.len() {
                assert(cur[k] == prev[k]);
            }
        }
    }
}

proof fn lemma_main_codes(fs: Seq<Item>)
    ensures
        forall|k: int| 0 <= k < main_diags(fs).len() ==> is_type_code(#[trigger] main_diags(fs)[k].0),
    decreases fs.len(),
{
    if fs.len() > 0 {
        lemma_main_codes(fs.drop_last());
        match fs.last() {
            Item::Function(f) => lemma_main_param_codes(f.signature.params@),
            _ => {},
        }
        let prev = main_diags(fs.drop_last());
        let cur = main_diags(fs);
        assert forall|k: int| 0 <= k < cur.len() implies is_type_code(#[trigger] cur[k].0) by {
            if k < prev.len() {
                assert(cur[k] == prev[k]);
            }
        }
    }
}

proof fn lemma_main_param_codes(ps: Seq<Param>)
    ensures
        forall|k: int| 0 <= k < main_param_diags(ps).len() ==> is_type_code(#[trigger] main_param_diags(ps)[k].0),
    decreases ps.len(),
{
    if ps.len() > 0 {
        lemma_main_param_codes(ps.drop_last());
        let prev = main_param_diags(ps.drop_last());
        let cur = main_param_diags(ps);
        assert forall|k: int| 0 <= k < cur.len() implies is_type_code(#[trigger] cur[k].0) by {
            if k < prev.len() {
                assert(cur[k] == prev[k]);
            }
        }
    }
}

} // verus!
