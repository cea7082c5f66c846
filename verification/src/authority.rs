//! The authority pass: at every effect site, the caller must hold a matching
//! capability.
//!
//! A function holds effect `E` iff it has a parameter of type `Cap<E>`; a
//! `Cap<Root>` parameter holds every effect. An effect site is a call to a
//! function that declares `uses {E}`, or to a file built-in (`read_file`
//! performs `Read`, `write_file` `Write`). Performing an effect without holding its
//! capability is refused before the program runs (`E0301`).

use vstd::prelude::*;
use crate::ast::{Effect, Function, Item, Module, Param, Stmt, TypeExpr};
use crate::calls::{law_every_nested_call_is_listed, occurs_in, own_calls};
use crate::calls::{block_calls, builtin_effects, callee_effects, effect_names, find_declared, sites_view, stmts_calls, CallSite};
use crate::diagnostic::{errors_as, lemma_errors_append, lemma_errors_push, push_error, Diagnostic};
use crate::span::Span;
use crate::text::{contains_str, copy_string, names_view, push_str, string_is};

verus! {

/// The authority a parameter type grants: `E` for `Cap<E>`.
pub open spec fn granted(ty: TypeExpr) -> Option<Seq<char>> {
    if ty.name@ == "Cap"@ && ty.args@.len() > 0 {
        Some(ty.args@[0].name@)
    } else {
        None
    }
}

/// The effects a parameter list holds capabilities for, in order.
pub open spec fn held_effects(ps: Seq<Param>) -> Seq<Seq<char>>
    decreases ps.len(),
{
    if ps.len() == 0 {
        Seq::empty()
    } else {
        held_effects(ps.drop_last()) + match granted(ps.last().ty) {
            Some(e) => seq![e],
            None => Seq::empty(),
        }
    }
}

/// The message for an effect performed without its capability.
pub open spec fn lacking_msg(fn_name: Seq<char>, effect: Seq<char>, callee: Seq<char>) -> Seq<char> {
    "effect `"@ + effect + "` is performed here (via call to `"@ + callee + "`) but function `"@
        + fn_name + "` holds no `Cap<"@ + effect + ">` capability"@
}

/// One `E0301` per effect of `effects` (declared by `callee`) not in `held`.
pub open spec fn lacking_diags(
    fn_name: Seq<char>,
    held: Seq<Seq<char>>,
    callee: Seq<char>,
    span: Span,
    effects: Seq<Seq<char>>,
) -> Seq<(Seq<char>, Span, Seq<char>)>
    decreases effects.len(),
{
    if effects.len() == 0 {
        Seq::empty()
    } else {
        lacking_diags(fn_name, held, callee, span, effects.drop_last()) + if held.contains(
            effects.last(),
        ) {
            Seq::empty()
        } else {
            seq![("E0301"@, span, lacking_msg(fn_name, effects.last(), callee))]
        }
    }
}

/// The authority diagnostics of a list of calls made by a body.
pub open spec fn authority_call_diags(
    items: Seq<Item>,
    fn_name: Seq<char>,
    held: Seq<Seq<char>>,
    calls: Seq<(Seq<char>, Span)>,
) -> Seq<(Seq<char>, Span, Seq<char>)>
    decreases calls.len(),
{
    if calls.len() == 0 {
        Seq::empty()
    } else {
        let (callee, span) = calls.last();
        authority_call_diags(items, fn_name, held, calls.drop_last()) + match callee_effects(
            items,
            callee,
        ) {
            Some(es) => lacking_diags(fn_name, held, callee, span, es),
            None => Seq::empty(),
        }
    }
}

/// The authority diagnostics of one function: none when it holds the root
/// capability, else those of its body's calls.
pub open spec fn function_authority_diags(items: Seq<Item>, f: Function) -> Seq<(Seq<char>, Span, Seq<char>)> {
    let held = held_effects(f.signature.params@);
    if held.contains("Root"@) {
        Seq::empty()
    } else {
        authority_call_diags(items, f.signature.name@, held, stmts_calls(f.body.stmts@))
    }
}

/// The authority diagnostics of the functions among `fs`, in order.
pub open spec fn items_authority_diags(items: Seq<Item>, fs: Seq<Item>) -> Seq<(Seq<char>, Span, Seq<char>)>
    decreases fs.len(),
{
    if fs.len() == 0 {
        Seq::empty()
    } else {
        items_authority_diags(items, fs.drop_last()) + match fs.last() {
            Item::Function(f) => function_authority_diags(items, f),
            Item::Type(_) => Seq::empty(),
        }
    }
}

/// The authority a parameter's type grants, if it is a capability.
fn granted_effect(ty: &TypeExpr) -> (r: Option<String>)
    ensures
        match r {
            Some(s) => granted(*ty) == Some(s@),
            None => granted(*ty) is None,
        },
{
    if string_is(&ty.name, "Cap") && ty.args.len() > 0 {
        Some(copy_string(&ty.args[0].name))
    } else {
        None
    }
}

/// The effects a function's parameters hold capabilities for.
fn held_of(params: &Vec<Param>) -> (r: Vec<String>)
    ensures
        names_view(r@) == held_effects(params@),
{
    let mut out: Vec<String> = Vec::new();
    let n = params.len();
    let mut i: usize = 0;
    assert(names_view(out@) =~= held_effects(params@.subrange(0, 0)));
    while i < n
        invariant
            n == params@.len(),
            i <= n,
            names_view(out@) == held_effects(params@.subrange(0, i as int)),
        decreases n - i,
    {
        assert(params@.subrange(0, i + 1).drop_last() =~= params@.subrange(0, i as int));
        match granted_effect(&params[i].ty) {
            Some(e) => {
                out.push(e);
            },
            None => {},
        }
        assert(names_view(out@) =~= held_effects(params@.subrange(0, i + 1)));
        i = i + 1;
    }
    assert(params@.subrange(0, n as int) =~= params@);
    out
}

fn lacking_message(fn_name: &str, effect: &str, callee: &str) -> (s: String)
    ensures
        s@ == lacking_msg(fn_name@, effect@, callee@),
{
    let mut s = String::new();
    push_str(&mut s, "effect `");
    push_str(&mut s, effect);
    push_str(&mut s, "` is performed here (via call to `");
    push_str(&mut s, callee);
    push_str(&mut s, "`) but function `");
    push_str(&mut s, fn_name);
    push_str(&mut s, "` holds no `Cap<");
    push_str(&mut s, effect);
    push_str(&mut s, ">` capability");
    assert(s@ =~= lacking_msg(fn_name@, effect@, callee@));
    s
}

/// The `E0301` diagnostics of one call of `callee`, which declares `effects`.
fn check_lacking(
    fn_name: &str,
    held: &Vec<String>,
    callee: &str,
    span: Span,
    effects: &Vec<Effect>,
) -> (r: Vec<Diagnostic>)
    ensures
        errors_as(r@, lacking_diags(fn_name@, names_view(held@), callee@, span, effect_names(effects@))),
{
    let mut out: Vec<Diagnostic> = Vec::new();
    let n = effects.len();
    let mut k: usize = 0;
    while k < n
        invariant
            n == effects@.len(),
            k <= n,
            errors_as(
                out@,
                lacking_diags(fn_name@, names_view(held@), callee@, span, effect_names(effects@).subrange(0, k as int)),
            ),
        decreases n - k,
    {
        let ghost es = effect_names(effects@).subrange(0, k + 1);
        let ghost prev = lacking_diags(fn_name@, names_view(held@), callee@, span, es.drop_last());
        assert(es.drop_last() =~= effect_names(effects@).subrange(0, k as int));
        assert(es.last() == effects@[k as int].name@);
        let e = &effects[k];
        if !contains_str(held, e.name.as_str()) {
            let msg = lacking_message(fn_name, e.name.as_str(), callee);
            let ghost before = out@;
            push_error(&mut out, "E0301", span, msg);
            proof {
                lemma_errors_push(before, prev, out@.last());
            }
            assert(prev.push(("E0301"@, span, lacking_msg(fn_name@, e.name@, callee@)))
                =~= prev + seq![("E0301"@, span, lacking_msg(fn_name@, e.name@, callee@))]);
        } else {
            assert(prev =~= prev + Seq::empty());
        }
        k = k + 1;
    }
    assert(effect_names(effects@).subrange(0, n as int) =~= effect_names(effects@));
    out
}

/// The authority diagnostics of the calls made by a function's body.
fn check_sites(
    items: &Vec<Item>,
    fn_name: &str,
    held: &Vec<String>,
    sites: &Vec<CallSite>,
) -> (r: Vec<Diagnostic>)
    ensures
        errors_as(r@, authority_call_diags(items@, fn_name@, names_view(held@), sites_view(sites@))),
{
    let mut out: Vec<Diagnostic> = Vec::new();
    let n = sites.len();
    let mut k: usize = 0;
    while k < n
        invariant
            n == sites@.len(),
            k <= n,
            errors_as(
                out@,
                authority_call_diags(items@, fn_name@, names_view(held@), sites_view(sites@).subrange(0, k as int)),
            ),
        decreases n - k,
    {
        let site = &sites[k];
        let ghost calls = sites_view(sites@).subrange(0, k + 1);
        let ghost prev = authority_call_diags(items@, fn_name@, names_view(held@), calls.drop_last());
        assert(calls.drop_last() =~= sites_view(sites@).subrange(0, k as int));
        assert(calls.last() == (site.name@, site.span));
        match find_declared(items, site.name.as_str()) {
            Some(idx) => match &items[idx] {
                Item::Function(g) => {
                    let mut more = check_lacking(
                        fn_name,
                        held,
                        site.name.as_str(),
                        site.span,
                        &g.signature.effects.effects,
                    );
                    let ghost before = out@;
                    let ghost added = more@;
                    out.append(&mut more);
                    proof {
                        lemma_errors_append(
                            before,
                            prev,
                            added,
                            lacking_diags(fn_name@, names_view(held@), site.name@, site.span, effect_names(g.signature.effects.effects@)),
                        );
                    }
                },
                Item::Type(_) => {},
            },
            None => match builtin_effects(site.name.as_str()) {
                Some(v) => {
                    let mut more = check_lacking(fn_name, held, site.name.as_str(), site.span, &v);
                    let ghost before = out@;
                    let ghost added = more@;
                    out.append(&mut more);
                    proof {
                        lemma_errors_append(
                            before,
                            prev,
                            added,
                            lacking_diags(fn_name@, names_view(held@), site.name@, site.span, effect_names(v@)),
                        );
                    }
                },
                None => {
                    assert(prev =~= prev + Seq::empty());
                },
            },
        }
        k = k + 1;
    }
    assert(sites_view(sites@).subrange(0, n as int) =~= sites_view(sites@));
    out
}

/// The authority diagnostics of one function.
fn check_function(items: &Vec<Item>, f: &Function) -> (r: Vec<Diagnostic>)
    ensures
        errors_as(r@, function_authority_diags(items@, *f)),
{
    let held = held_of(&f.signature.params);
    if contains_str(&held, "Root") {
        return Vec::new();
    }
    let sites = block_calls(&f.body);
    check_sites(items, f.signature.name.as_str(), &held, &sites)
}

/// Check that every effect site holds a matching capability. The diagnostics
/// come in source order; none means no function performs an effect it lacks
/// the capability for.
pub fn check_authority(module: &Module) -> (r: Vec<Diagnostic>)
    ensures
        errors_as(r@, items_authority_diags(module.items@, module.items@)),
{
    let items = &module.items;
    let mut out: Vec<Diagnostic> = Vec::new();
    let n = items.len();
    let mut i: usize = 0;
    while i < n
        invariant
            n == items@.len(),
            i <= n,
            errors_as(out@, items_authority_diags(items@, items@.subrange(0, i as int))),
        decreases n - i,
    {
        let ghost prev = items_authority_diags(items@, items@.subrange(0, i as int));
        assert(items@.subrange(0, i + 1).drop_last() =~= items@.subrange(0, i as int));
        match &items[i] {
            Item::Function(f) => {
                let mut more = check_function(items, f);
                let ghost a = out@;
                let ghost b = more@;
                out.append(&mut more);
                proof {
                    lemma_errors_append(a, prev, b, function_authority_diags(items@, *f));
                }
            },
            Item::Type(_) => {
                assert(prev =~= prev + Seq::empty());
            },
        }
        i = i + 1;
    }
    assert(items@.subrange(0, n as int) =~= items@);
    out
}

proof fn lemma_lacking_reported(fn_name: Seq<char>, held: Seq<Seq<char>>, callee: Seq<char>, span: Span, es: Seq<Seq<char>>, e: Seq<char>)
    requires
        es.contains(e),
        !held.contains(e),
    ensures
        lacking_diags(fn_name, held, callee, span, es).contains(("E0301"@, span, lacking_msg(fn_name, e, callee))),
    decreases es.len(),
{
    let x = ("E0301"@, span, lacking_msg(fn_name, e, callee));
    let pre = es.drop_last();
    if es.last() == e {
        let tail = seq![x];
        assert(tail[0] == x);
        crate::calls::lemma_contains_append(lacking_diags(fn_name, held, callee, span, pre), tail, x);
    } else {
        let k = choose|k: int| 0 <= k < es.len() && es[k] == e;
        assert(pre[k] == e);
        lemma_lacking_reported(fn_name, held, callee, span, pre, e);
        crate::calls::lemma_contains_append(
            lacking_diags(fn_name, held, callee, span, pre),
            if held.contains(es.last()) {
                Seq::empty()
            } else {
                seq![("E0301"@, span, lacking_msg(fn_name, es.last(), callee))]
            },
            x,
        );
    }
}

proof fn lemma_authority_reported(
    items: Seq<Item>,
    fn_name: Seq<char>,
    held: Seq<Seq<char>>,
    calls: Seq<(Seq<char>, Span)>,
    callee: Seq<char>,
    span: Span,
    e: Seq<char>,
)
    requires
        calls.contains((callee, span)),
        callee_effects(items, callee) matches Some(es) && es.contains(e),
        !held.contains(e),
    ensures
        authority_call_diags(items, fn_name, held, calls).contains(("E0301"@, span, lacking_msg(fn_name, e, callee))),
    decreases calls.len(),
{
    let x = ("E0301"@, span, lacking_msg(fn_name, e, callee));
    let pre = calls.drop_last();
    let (c, sp) = calls.last();
    let here = match callee_effects(items, c) {
        Some(es) => lacking_diags(fn_name, held, c, sp, es),
        None => Seq::empty(),
    };
    if calls.last() == (callee, span) {
        lemma_lacking_reported(fn_name, held, callee, span, callee_effects(items, callee)->Some_0, e);
    } else {
        let k = choose|k: int| 0 <= k < calls.len() && calls[k] == (callee, span);
        assert(pre[k] == (callee, span));
        lemma_authority_reported(items, fn_name, held, pre, callee, span, e);
    }
    crate::calls::lemma_contains_append(authority_call_diags(items, fn_name, held, pre), here, x);
}

/// No ambient authority: wherever a function's body, at any depth, calls a
/// function or file built-in performing an effect for which the function
/// holds neither a matching capability parameter nor `Cap<Root>`, that call
/// is reported with `E0301` naming the effect and the callee.
pub proof fn law_unauthorized_effects_are_reported(
    items: Seq<Item>,
    f: Function,
    s: Stmt,
    callee: Seq<char>,
    span: Span,
    e: Seq<char>,
)
    requires
        occurs_in(f.body.stmts@, s),
        own_calls(s).contains((callee, span)),
        callee_effects(items, callee) matches Some(es) && es.contains(e),
        !held_effects(f.signature.params@).contains(e),
        !held_effects(f.signature.params@).contains("Root"@),
    ensures
        function_authority_diags(items, f).contains(("E0301"@, span, lacking_msg(f.signature.name@, e, callee))),
{
    law_every_nested_call_is_listed(f.body.stmts@, s, (callee, span));
    lemma_authority_reported(
        items,
        f.signature.name@,
        held_effects(f.signature.params@),
        stmts_calls(f.body.stmts@),
        callee,
        span,
        e,
    );
}

} // verus!
