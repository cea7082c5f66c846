//! The effect-honesty pass.
//!
//! A signature's `uses {...}` set is what a call to the function costs. A body
//! performs the effects declared by the functions it calls (and those of the
//! file built-ins: `read_file` performs `Read`, `write_file` `Write`), and
//! each of them must be in the calling function's own set (`E0101`). Contract predicates
//! are evaluated at run time, so they must be pure: calling an effectful
//! function inside one is refused (`E0102`).

use vstd::prelude::*;
use crate::ast::{Function, Item, Module, Stmt};
use crate::calls::{law_every_nested_call_is_listed, occurs_in, own_calls};
use crate::calls::{
    block_calls, builtin_effects, callee_effects, collect_contracts, contracts_calls, declares, effect_names,
    find_declared, sites_view, stmts_calls, CallSite,
};
use crate::diagnostic::{errors_as, lemma_errors_append, lemma_errors_push, push_error, Diagnostic};
use crate::span::Span;
use crate::text::push_str;

verus! {

/// The message refusing an effectful call inside a contract predicate.
pub open spec fn impure_msg(fn_name: Seq<char>, callee: Seq<char>) -> Seq<char> {
    "contract predicate of `"@ + fn_name + "` must be pure, but it calls effectful function `"@
        + callee + "`"@
}

/// The message for an effect performed but not declared.
pub open spec fn omitted_msg(fn_name: Seq<char>, effect: Seq<char>, callee: Seq<char>) -> Seq<char> {
    "function `"@ + fn_name + "` performs effect `"@ + effect + "` here (via call to `"@ + callee
        + "`) but its signature's `uses {...}` set omits it"@
}

/// One `E0102` per contract-predicate call of a function declaring effects.
pub open spec fn purity_diags(
    items: Seq<Item>,
    fn_name: Seq<char>,
    calls: Seq<(Seq<char>, Span)>,
) -> Seq<(Seq<char>, Span, Seq<char>)>
    decreases calls.len(),
{
    if calls.len() == 0 {
        Seq::empty()
    } else {
        let (callee, span) = calls.last();
        purity_diags(items, fn_name, calls.drop_last()) + match callee_effects(items, callee) {
            Some(es) => if es.len() > 0 {
                seq![("E0102"@, span, impure_msg(fn_name, callee))]
            } else {
                Seq::empty()
            },
            None => Seq::empty(),
        }
    }
}

/// One `E0101` per effect of `effects` (declared by `callee`) that the caller's
/// set `held` omits, in declaration order.
pub open spec fn omitted_diags(
    fn_name: Seq<char>,
    held: Seq<Seq<char>>,
    callee: Seq<char>,
    span: Span,
    effects: Seq<Seq<char>>,
) -> Seq<(Seq<char>, Span, Seq<char>)>
    decreases effects.len(),
{
    if effects.len() == 0 {
        Seq::empty()
    } else {
        omitted_diags(fn_name, held, callee, span, effects.drop_last()) + if held.contains(
            effects.last(),
        ) {
            Seq::empty()
        } else {
            seq![("E0101"@, span, omitted_msg(fn_name, effects.last(), callee))]
        }
    }
}

/// The honesty diagnostics of a list of calls made by a body.
pub open spec fn honesty_diags(
    items: Seq<Item>,
    fn_name: Seq<char>,
    held: Seq<Seq<char>>,
    calls: Seq<(Seq<char>, Span)>,
) -> Seq<(Seq<char>, Span, Seq<char>)>
    decreases calls.len(),
{
    if calls.len() == 0 {
        Seq::empty()
    } else {
        let (callee, span) = calls.last();
        honesty_diags(items, fn_name, held, calls.drop_last()) + match callee_effects(
            items,
            callee,
        ) {
            Some(es) => omitted_diags(fn_name, held, callee, span, es),
            None => Seq::empty(),
        }
    }
}

/// The effect diagnostics of one function of a module: contract purity first,
/// then body honesty.
pub open spec fn function_effect_diags(items: Seq<Item>, f: Function) -> Seq<(Seq<char>, Span, Seq<char>)> {
    let sig = f.signature;
    purity_diags(items, sig.name@, contracts_calls(sig.requires@) + contracts_calls(sig.ensures@))
        + honesty_diags(
        items,
        sig.name@,
        effect_names(sig.effects.effects@),
        stmts_calls(f.body.stmts@),
    )
}

/// The effect diagnostics of the functions among `fs`, in order.
pub open spec fn items_effect_diags(items: Seq<Item>, fs: Seq<Item>) -> Seq<(Seq<char>, Span, Seq<char>)>
    decreases fs.len(),
{
    if fs.len() == 0 {
        Seq::empty()
    } else {
        items_effect_diags(items, fs.drop_last()) + match fs.last() {
            Item::Function(f) => function_effect_diags(items, f),
            Item::Type(_) => Seq::empty(),
        }
    }
}

fn impure_message(fn_name: &str, callee: &str) -> (s: String)
    ensures
        s@ == impure_msg(fn_name@, callee@),
{
    let mut s = String::new();
    push_str(&mut s, "contract predicate of `");
    push_str(&mut s, fn_name);
    push_str(&mut s, "` must be pure, but it calls effectful function `");
    push_str(&mut s, callee);
    push_str(&mut s, "`");
    assert(s@ =~= impure_msg(fn_name@, callee@));
    s
}

fn omitted_message(fn_name: &str, effect: &str, callee: &str) -> (s: String)
    ensures
        s@ == omitted_msg(fn_name@, effect@, callee@),
{
    let mut s = String::new();
    push_str(&mut s, "function `");
    push_str(&mut s, fn_name);
    push_str(&mut s, "` performs effect `");
    push_str(&mut s, effect);
    push_str(&mut s, "` here (via call to `");
    push_str(&mut s, callee);
    push_str(&mut s, "`) but its signature's `uses {...}` set omits it");
    assert(s@ =~= omitted_msg(fn_name@, effect@, callee@));
    s
}

/// The purity diagnostics of the calls inside a function's contracts.
fn check_purity(items: &Vec<Item>, fn_name: &str, sites: &Vec<CallSite>) -> (r: Vec<Diagnostic>)
    ensures
        errors_as(r@, purity_diags(items@, fn_name@, sites_view(sites@))),
{
    let mut out: Vec<Diagnostic> = Vec::new();
    let n = sites.len();
    let mut k: usize = 0;
    while k < n
        invariant
            n == sites@.len(),
            k <= n,
            errors_as(out@, purity_diags(items@, fn_name@, sites_view(sites@).subrange(0, k as int))),
        decreases n - k,
    {
        let site = &sites[k];
        let ghost calls = sites_view(sites@).subrange(0, k + 1);
        assert(calls.drop_last() =~= sites_view(sites@).subrange(0, k as int));
        assert(calls.last() == (site.name@, site.span));
        match find_declared(items, site.name.as_str()) {
            Some(idx) => match &items[idx] {
                Item::Function(g) => {
                    if g.signature.effects.effects.len() > 0 {
                        let msg = impure_message(fn_name, site.name.as_str());
                        let ghost before = out@;
                        push_error(&mut out, "E0102", site.span, msg);
                        proof {
                            lemma_errors_push(
                                before,
                                purity_diags(items@, fn_name@, calls.drop_last()),
                                out@.last(),
                            );
                        }
                    }
                },
                Item::Type(_) => {},
            },
            None => match builtin_effects(site.name.as_str()) {
                Some(v) => {
                    if v.len() > 0 {
                        let msg = impure_message(fn_name, site.name.as_str());
                        let ghost before = out@;
                        push_error(&mut out, "E0102", site.span, msg);
                        proof {
                            lemma_errors_push(
                                before,
                                purity_diags(items@, fn_name@, calls.drop_last()),
                                out@.last(),
                            );
                        }
                    }
                },
                None => {},
            },
        }
        assert(purity_diags(items@, fn_name@, calls.drop_last()).push(("E0102"@, site.span, impure_msg(fn_name@, site.name@)))
            =~= purity_diags(items@, fn_name@, calls.drop_last()) + seq![("E0102"@, site.span, impure_msg(fn_name@, site.name@))]);
        assert(purity_diags(items@, fn_name@, calls.drop_last()) =~= purity_diags(items@, fn_name@, calls.drop_last()) + Seq::empty());
        k = k + 1;
    }
    assert(sites_view(sites@).subrange(0, n as int) =~= sites_view(sites@));
    out
}

/// The `E0101` diagnostics of one call of `callee`, which declares `effects`.
fn check_omitted(
    fn_name: &str,
    held: &Vec<crate::ast::Effect>,
    callee: &str,
    span: Span,
    effects: &Vec<crate::ast::Effect>,
) -> (r: Vec<Diagnostic>)
    ensures
        errors_as(r@, omitted_diags(fn_name@, effect_names(held@), callee@, span, effect_names(effects@))),
{
    let mut out: Vec<Diagnostic> = Vec::new();
    let n = effects.len();
    let mut k: usize = 0;
    while k < n
        invariant
            n == effects@.len(),
            k <= n,
            errors_as(
                out@,
                omitted_diags(fn_name@, effect_names(held@), callee@, span, effect_names(effects@).subrange(0, k as int)),
            ),
        decreases n - k,
    {
        let ghost es = effect_names(effects@).subrange(0, k + 1);
        let ghost prev = omitted_diags(fn_name@, effect_names(held@), callee@, span, es.drop_last());
        assert(es.drop_last() =~= effect_names(effects@).subrange(0, k as int));
        assert(es.last() == effects@[k as int].name@);
        let e = &effects[k];
        if !declares(held, e.name.as_str()) {
            let msg = omitted_message(fn_name, e.name.as_str(), callee);
            let ghost before = out@;
            push_error(&mut out, "E0101", span, msg);
            proof {
                lemma_errors_push(before, prev, out@.last());
            }
            assert(prev.push(("E0101"@, span, omitted_msg(fn_name@, e.name@, callee@)))
                =~= prev + seq![("E0101"@, span, omitted_msg(fn_name@, e.name@, callee@))]);
        } else {
            assert(prev =~= prev + Seq::empty());
        }
        k = k + 1;
    }
    assert(effect_names(effects@).subrange(0, n as int) =~= effect_names(effects@));
    out
}

/// The honesty diagnostics of the calls made by a function's body.
fn check_honesty(
    items: &Vec<Item>,
    fn_name: &str,
    held: &Vec<crate::ast::Effect>,
    sites: &Vec<CallSite>,
) -> (r: Vec<Diagnostic>)
    ensures
        errors_as(r@, honesty_diags(items@, fn_name@, effect_names(held@), sites_view(sites@))),
{
    let mut out: Vec<Diagnostic> = Vec::new();
    let n = sites.len();
    let mut k: usize = 0;
    while k < n
        invariant
            n == sites@.len(),
            k <= n,
            errors_as(
                out@,
                honesty_diags(items@, fn_name@, effect_names(held@), sites_view(sites@).subrange(0, k as int)),
            ),
        decreases n - k,
    {
        let site = &sites[k];
        let ghost calls = sites_view(sites@).subrange(0, k + 1);
        let ghost prev = honesty_diags(items@, fn_name@, effect_names(held@), calls.drop_last());
        assert(calls.drop_last() =~= sites_view(sites@).subrange(0, k as int));
        assert(calls.last() == (site.name@, site.span));
        match find_declared(items, site.name.as_str()) {
            Some(idx) => match &items[idx] {
                Item::Function(g) => {
                    let mut more = check_omitted(
                        fn_name,
                        held,
                        site.name.as_str(),
                        site.span,
                        &g.signature.effects.effects,
                    );
                    let ghost before = out@;
                    let ghost added = more@;
                    out.append(&mut more);
                    proof {
                        lemma_errors_append(
                            before,
                            prev,
                            added,
                            omitted_diags(fn_name@, effect_names(held@), site.name@, site.span, effect_names(g.signature.effects.effects@)),
                        );
                    }
                },
                Item::Type(_) => {},
            },
            None => match builtin_effects(site.name.as_str()) {
                Some(v) => {
                    let mut more = check_omitted(fn_name, held, site.name.as_str(), site.span, &v);
                    let ghost before = out@;
                    let ghost added = more@;
                    out.append(&mut more);
                    proof {
                        lemma_errors_append(
                            before,
                            prev,
                            added,
                            omitted_diags(fn_name@, effect_names(held@), site.name@, site.span, effect_names(v@)),
                        );
                    }
                },
                None => {
                    assert(prev =~= prev + Seq::empty());
                },
            },
        }
        k = k + 1;
    }
    assert(sites_view(sites@).subrange(0, n as int) =~= sites_view(sites@));
    out
}

/// The effect diagnostics of one function.
fn check_function(items: &Vec<Item>, f: &Function) -> (r: Vec<Diagnostic>)
    ensures
        errors_as(r@, function_effect_diags(items@, *f)),
{
    let sig = &f.signature;
    let mut sites: Vec<CallSite> = Vec::new();
    assert(sites_view(sites@) =~= Seq::empty());
    collect_contracts(&sig.requires, &mut sites);
    collect_contracts(&sig.ensures, &mut sites);
    assert(sites_view(sites@) =~= contracts_calls(sig.requires@) + contracts_calls(sig.ensures@));
    let mut out = check_purity(items, sig.name.as_str(), &sites);
    let body = block_calls(&f.body);
    let mut more = check_honesty(items, sig.name.as_str(), &sig.effects.effects, &body);
    let ghost a = out@;
    let ghost b = more@;
    out.append(&mut more);
    proof {
        lemma_errors_append(
            a,
            purity_diags(items@, sig.name@, contracts_calls(sig.requires@) + contracts_calls(sig.ensures@)),
            b,
            honesty_diags(items@, sig.name@, effect_names(sig.effects.effects@), stmts_calls(f.body.stmts@)),
        );
    }
    out
}

/// Verify that every function's performed effects are within its declared
/// `uses {...}` set, and that contract predicates call no effectful function.
/// The diagnostics come in source order; none means every function is honest.
pub fn check_effects(module: &Module) -> (r: Vec<Diagnostic>)
    ensures
        errors_as(r@, items_effect_diags(module.items@, module.items@)),
{
    let items = &module.items;
    let mut out: Vec<Diagnostic> = Vec::new();
    let n = items.len();
    let mut i: usize = 0;
    while i < n
        invariant
            n == items@.len(),
            i <= n,
            errors_as(out@, items_effect_diags(items@, items@.subrange(0, i as int))),
        decreases n - i,
    {
        let ghost prev = items_effect_diags(items@, items@.subrange(0, i as int));
        assert(items@.subrange(0, i + 1).drop_last() =~= items@.subrange(0, i as int));
        match &items[i] {
            Item::Function(f) => {
                let mut more = check_function(items, f);
                let ghost a = out@;
                let ghost b = more@;
                out.append(&mut more);
                proof {
                    lemma_errors_append(a, prev, b, function_effect_diags(items@, *f));
                }
            },
            Item::Type(_) => {
                assert(prev =~= prev + Seq::empty());
            },
        }
        i = i + 1;
    }
    assert(items@.subrange(0, n as int) =~= items@);
    out
}

proof fn lemma_omitted_reported(fn_name: Seq<char>, held: Seq<Seq<char>>, callee: Seq<char>, span: Span, es: Seq<Seq<char>>, e: Seq<char>)
    requires
        es.contains(e),
        !held.contains(e),
    ensures
        omitted_diags(fn_name, held, callee, span, es).contains(("E0101"@, span, omitted_msg(fn_name, e, callee))),
    decreases es.len(),
{
    let x = ("E0101"@, span, omitted_msg(fn_name, e, callee));
    let pre = es.drop_last();
    if es.last() == e {
        let tail = seq![x];
        assert(tail[0] == x);
        crate::calls::lemma_contains_append(omitted_diags(fn_name, held, callee, span, pre), tail, x);
    } else {
        let k = choose|k: int| 0 <= k < es.len() && es[k] == e;
        assert(pre[k] == e);
        lemma_omitted_reported(fn_name, held, callee, span, pre, e);
        crate::calls::lemma_contains_append(
            omitted_diags(fn_name, held, callee, span, pre),
            if held.contains(es.last()) {
                Seq::empty()
            } else {
                seq![("E0101"@, span, omitted_msg(fn_name, es.last(), callee))]
            },
            x,
        );
    }
}

proof fn lemma_honesty_reported(
    items: Seq<Item>,
    fn_name: Seq<char>,
    held: Seq<Seq<char>>,
    calls: Seq<(Seq<char>, Span)>,
    callee: Seq<char>,
    span: Span,
    e: Seq<char>,
)
    requires
        calls.contains((callee, span)),
        callee_effects(items, callee) matches Some(es) && es.contains(e),
        !held.contains(e),
    ensures
        honesty_diags(items, fn_name, held, calls).contains(("E0101"@, span, omitted_msg(fn_name, e, callee))),
    decreases calls.len(),
{
    let x = ("E0101"@, span, omitted_msg(fn_name, e, callee));
    let pre = calls.drop_last();
    let (c, sp) = calls.last();
    let here = match callee_effects(items, c) {
        Some(es) => omitted_diags(fn_name, held, c, sp, es),
        None => Seq::empty(),
    };
    if calls.last() == (callee, span) {
        lemma_omitted_reported(fn_name, held, callee, span, callee_effects(items, callee)->Some_0, e);
    } else {
        let k = choose|k: int| 0 <= k < calls.len() && calls[k] == (callee, span);
        assert(pre[k] == (callee, span));
        lemma_honesty_reported(items, fn_name, held, pre, callee, span, e);
    }
    crate::calls::lemma_contains_append(honesty_diags(items, fn_name, held, pre), here, x);
}

/// Honesty holds at every effect site: wherever a function's body, at any
/// depth, calls a function or file built-in that performs an effect the
/// function's `uses {...}` set omits, that call is reported with `E0101`
/// naming the effect and the callee.
pub proof fn law_undeclared_effects_are_reported(
    items: Seq<Item>,
    f: Function,
    s: Stmt,
    callee: Seq<char>,
    span: Span,
    e: Seq<char>,
)
    requires
        occurs_in(f.body.stmts@, s),
        own_calls(s).contains((callee, span)),
        callee_effects(items, callee) matches Some(es) && es.contains(e),
        !effect_names(f.signature.effects.effects@).contains(e),
    ensures
        function_effect_diags(items, f).contains(("E0101"@, span, omitted_msg(f.signature.name@, e, callee))),
{
    law_every_nested_call_is_listed(f.body.stmts@, s, (callee, span));
    let sig = f.signature;
    lemma_honesty_reported(items, sig.name@, effect_names(sig.effects.effects@), stmts_calls(f.body.stmts@), callee, span, e);
    crate::calls::lemma_contains_append(
        purity_diags(items, sig.name@, contracts_calls(sig.requires@) + contracts_calls(sig.ensures@)),
        honesty_diags(items, sig.name@, effect_names(sig.effects.effects@), stmts_calls(f.body.stmts@)),
        ("E0101"@, span, omitted_msg(sig.name@, e, callee)),
    );
}

proof fn lemma_purity_reported(items: Seq<Item>, fn_name: Seq<char>, calls: Seq<(Seq<char>, Span)>, callee: Seq<char>, span: Span)
    requires
        calls.contains((callee, span)),
        callee_effects(items, callee) matches Some(es) && es.len() > 0,
    ensures
        purity_diags(items, fn_name, calls).contains(("E0102"@, span, impure_msg(fn_name, callee))),
    decreases calls.len(),
{
    let x = ("E0102"@, span, impure_msg(fn_name, callee));
    let pre = calls.drop_last();
    let (c, sp) = calls.last();
    let here = match callee_effects(items, c) {
        Some(es) => if es.len() > 0 {
            seq![("E0102"@, sp, impure_msg(fn_name, c))]
        } else {
            Seq::empty()
        },
        None => Seq::empty(),
    };
    if calls.last() == (callee, span) {
        assert(here[0] == x);
    } else {
        let k = choose|k: int| 0 <= k < calls.len() && calls[k] == (callee, span);
        assert(pre[k] == (callee, span));
        lemma_purity_reported(items, fn_name, pre, callee, span);
    }
    crate::calls::lemma_contains_append(purity_diags(items, fn_name, pre), here, x);
}

/// Contracts are pure: a call, inside a `requires` or `ensures` clause, of a
/// function or file built-in that performs any effect is reported with
/// `E0102`.
pub proof fn law_effectful_calls_in_contracts_are_reported(items: Seq<Item>, f: Function, callee: Seq<char>, span: Span)
    requires
        (contracts_calls(f.signature.requires@) + contracts_calls(f.signature.ensures@)).contains((callee, span)),
        callee_effects(items, callee) matches Some(es) && es.len() > 0,
    ensures
        function_effect_diags(items, f).contains(("E0102"@, span, impure_msg(f.signature.name@, callee))),
{
    let sig = f.signature;
    lemma_purity_reported(items, sig.name@, contracts_calls(sig.requires@) + contracts_calls(sig.ensures@), callee, span);
    crate::calls::lemma_contains_append(
        purity_diags(items, sig.name@, contracts_calls(sig.requires@) + contracts_calls(sig.ensures@)),
        honesty_diags(items, sig.name@, effect_names(sig.effects.effects@), stmts_calls(f.body.stmts@)),
        ("E0102"@, span, impure_msg(sig.name@, callee)),
    );
}

} // verus!
